//! The two terminal games: a runner that jumps cacti and ducks birds, and a
//! snake on a torus. Their rules live here; the terminal loop that reads
//! keys, waits out the ticks and prints the frames lives with the program.
use vstd::prelude::*;
use crate::clock::{subsec_nanos_since_epoch, system_now};

pub mod dino;
pub mod snake;

verus! {

/// What the game loop does after a key press.
#[derive(Debug, Clone, Copy, PartialEq, Eq, Structural)]
pub enum KeyOutcome {
    /// Keep playing this round.
    Continue,
    /// Start a fresh round (the best score carries over).
    Restart,
    /// Leave the game.
    Quit,
}

/// A number below `n` (below 1 when `n` is 0), drawn from the sub-second
/// nanoseconds of the clock.
pub fn rand_n(n: usize) -> (r: usize)
    ensures
        r < (if n == 0 { 1 } else { n }),
{
    let now = system_now();
    let nanos = subsec_nanos_since_epoch(&now);
    let m: usize = if n == 0 { 1 } else { n };
    (nanos as usize) % m
}

} // verus!
