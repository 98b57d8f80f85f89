//! The runner: jump the cacti, duck the birds, watch the world speed up.
//! Space or Up jumps, Down ducks, `r` restarts after a crash, `q` quits.
use vstd::prelude::*;
use crate::games::{rand_n, KeyOutcome};
use crate::menu::{display_width, lemma_width_bounds, spaces, text_width, KeyCodeInput, KeyInput};
use crate::text::{chars_of, nat_text, owned, push_char, u64_text, views};

verus! {

/// Columns of the field.
pub const FIELD_WIDTH: usize = 58;
/// Row of the ground line.
pub const GROUND_Y: usize = 13;
/// Column of the dino's left edge.
pub const DINO_X: usize = 8;
/// Milliseconds per tick at the start of a round.
pub const START_TICK_MS: u64 = 110;
/// Milliseconds per tick once the world is at full speed.
pub const MIN_TICK_MS: u64 = 55;
/// The most obstacles a round holds at once.
pub const MAX_OBSTACLES: usize = 100000;

/// What comes running at the dino.
#[derive(Debug, Clone, Copy, PartialEq, Eq, Structural)]
pub enum Kind {
    /// `w` columns of cactus, 3 rows tall: jump it.
    Cactus { w: usize },
    /// A one-row bird: duck it, or time an early jump.
    Bird,
}

/// One obstacle on the field.
#[derive(Debug, Clone, Copy, PartialEq, Eq, Structural)]
pub struct Obstacle {
    pub kind: Kind,
    pub x: usize,
    /// Row of the obstacle's top cell.
    pub y: usize,
}

/// Whether the round goes on.
#[derive(Debug, Clone, Copy, PartialEq, Eq, Structural)]
pub enum Phase {
    Running,
    Over,
}

/// The chance that one tick draws: what kind of obstacle comes, where a bird
/// flies, how wide a cactus is, and the calm stretch before the next one.
#[derive(Debug, Clone, Copy, PartialEq, Eq, Structural)]
pub struct Rolls {
    /// Below 10; under 3, once the score passes 30, a bird comes.
    pub kind: usize,
    /// Below 2; 0 sends the bird high (jump-apex height), 1 low (head height).
    pub high: usize,
    /// Below 3; a cactus is one more column wide than this.
    pub width: usize,
    /// Below 18; added to the distance to the next obstacle.
    pub gap: usize,
}

/// The ranges that the game draws its rolls from.
pub open spec fn rolls_ok(r: Rolls) -> bool {
    r.kind < 10 && r.high < 2 && r.width < 3 && r.gap < 18
}

/// One round of the runner.
pub struct Game {
    /// Rows climbed by the dino; 0 = on the ground.
    pub jump_y: usize,
    /// Rows per tick upward; gravity takes one off each tick.
    pub vy: i32,
    pub ducking: bool,
    /// Which of the two running frames is shown.
    pub run_frame: bool,
    pub obstacles: Vec<Obstacle>,
    /// Ticks travelled.
    pub travel: usize,
    pub score: u32,
    pub best: u32,
    pub phase: Phase,
    /// The tick at which the next obstacle appears.
    pub next_spawn: usize,
}

/// The heights and speeds a jump passes through: a jump starts at speed 3,
/// climbs to 3, 5 and 6 rows, hangs, and falls back the same way.
pub open spec fn jump_state(jump_y: int, vy: int) -> bool {
    ||| jump_y == 0 && (vy == 0 || vy == 3)
    ||| jump_y == 3 && (vy == 2 || vy == -3)
    ||| jump_y == 5 && (vy == 1 || vy == -2)
    ||| jump_y == 6 && (vy == 0 || vy == -1)
}

/// An obstacle as the game makes them: at most two columns past the right
/// edge, with room for a cactus above the ground, and a cactus one to three
/// columns wide.
pub open spec fn obstacle_ok(o: Obstacle) -> bool {
    &&& o.x <= FIELD_WIDTH + 2
    &&& o.y + 3 <= GROUND_Y
    &&& match o.kind {
        Kind::Cactus { w } => 1 <= w <= 3,
        Kind::Bird => true,
    }
}

pub open spec fn all_ok(s: Seq<Obstacle>) -> bool {
    forall|i: int| 0 <= i < s.len() ==> obstacle_ok(#[trigger] s[i])
}

impl Game {
    /// The game's invariant: the dino is somewhere on a jump's arc, every
    /// obstacle is one the game could have made, and the obstacles stay
    /// within their cap, reaching it only when the last one lies past the
    /// right edge, where the next shift drops it.
    pub open spec fn wf(&self) -> bool {
        &&& jump_state(self.jump_y as int, self.vy as int)
        &&& all_ok(self.obstacles@)
        &&& self.obstacles@.len() <= MAX_OBSTACLES
        &&& self.obstacles@.len() == MAX_OBSTACLES ==> self.obstacles@.last().x > FIELD_WIDTH
    }

    /// Everything but the dino's speed and posture is the same in `self` and `other`.
    pub open spec fn same_but_posture(&self, other: &Game) -> bool {
        &&& self.jump_y == other.jump_y
        &&& self.run_frame == other.run_frame
        &&& self.obstacles@ == other.obstacles@
        &&& self.travel == other.travel
        &&& self.score == other.score
        &&& self.best == other.best
        &&& self.phase == other.phase
        &&& self.next_spawn == other.next_spawn
    }
}

/// The dino's collision box `(x, y, w, h)` in cells: ducking on the ground
/// it is 5 wide and 2 tall, otherwise 3 wide and 4 tall, `jump_y` rows up.
pub open spec fn dino_box_of(jump_y: usize, ducking: bool) -> (usize, usize, usize, usize) {
    if ducking && jump_y == 0 {
        (DINO_X, (GROUND_Y - 2) as usize, 5, 2)
    } else {
        (DINO_X, (GROUND_Y - 4 - jump_y) as usize, 3, 4)
    }
}

/// An obstacle's collision box: a cactus is 3 rows tall, a bird 3 columns
/// wide and one row tall.
pub open spec fn obstacle_box_of(o: Obstacle) -> (usize, usize, usize, usize) {
    match o.kind {
        Kind::Cactus { w } => (o.x, o.y, w, 3),
        Kind::Bird => (o.x, o.y, 3, 1),
    }
}

/// Whether two boxes share a cell.
pub open spec fn overlap(a: (usize, usize, usize, usize), b: (usize, usize, usize, usize)) -> bool {
    a.0 < b.0 + b.2 && b.0 < a.0 + a.2 && a.1 < b.1 + b.3 && b.1 < a.1 + a.3
}

/// Whether the dino's box meets any obstacle.
pub open spec fn hits(dino: (usize, usize, usize, usize), obs: Seq<Obstacle>) -> bool {
    exists|i: int| 0 <= i < obs.len() && overlap(dino, obstacle_box_of(#[trigger] obs[i]))
}

/// One tick of gravity on height and speed.
pub open spec fn fall(jump_y: int, vy: int) -> (int, int) {
    if jump_y > 0 || vy != 0 {
        if jump_y + vy <= 0 {
            (0, 0)
        } else {
            (jump_y + vy, vy - 1)
        }
    } else {
        (jump_y, vy)
    }
}

/// Height and speed after `n` ticks.
pub open spec fn fall_n(jump_y: int, vy: int, n: nat) -> (int, int)
    decreases n,
{
    if n == 0 {
        (jump_y, vy)
    } else {
        let (j, v) = fall(jump_y, vy);
        fall_n(j, v, (n - 1) as nat)
    }
}

/// The obstacles one column further left, those that left the field dropped.
pub open spec fn shifted(s: Seq<Obstacle>) -> Seq<Obstacle>
    decreases s.len(),
{
    if s.len() == 0 {
        Seq::empty()
    } else {
        let o = s.last();
        let moved = Obstacle { x: (if o.x > 0 { o.x - 1 } else { 0 }) as usize, ..o };
        let rest = shifted(s.drop_last());
        if moved.x < FIELD_WIDTH {
            rest.push(moved)
        } else {
            rest
        }
    }
}

/// Shifting never adds obstacles, and drops a last one past the right edge.
pub proof fn lemma_shifted_len(s: Seq<Obstacle>)
    ensures
        shifted(s).len() <= s.len(),
        s.len() > 0 && s.last().x > FIELD_WIDTH ==> shifted(s).len() < s.len(),
    decreases s.len(),
{
    if s.len() > 0 {
        lemma_shifted_len(s.drop_last());
    }
}

/// The obstacle that appears at the right edge at score `score`.
pub open spec fn spawn_of(score: int, rolls: Rolls) -> Obstacle {
    if score > 30 && rolls.kind < 3 {
        Obstacle {
            kind: Kind::Bird,
            x: (FIELD_WIDTH + 2) as usize,
            y: (if rolls.high == 0 { GROUND_Y - 6 } else { GROUND_Y - 3 }) as usize,
        }
    } else {
        Obstacle {
            kind: Kind::Cactus { w: (1 + rolls.width) as usize },
            x: (FIELD_WIDTH + 2) as usize,
            y: (GROUND_Y - 3) as usize,
        }
    }
}

/// `new` is `old` after one tick with the draws `rolls`: a round that is
/// over stays as it is; otherwise the world moves one column, the dino
/// follows its arc, an obstacle appears when its time has come, and a
/// collision ends the round and updates the best score.
pub open spec fn ticked(old: Game, new: Game, rolls: Rolls) -> bool {
    if old.phase == Phase::Over {
        new == old
    } else {
        let travel = old.travel + 1;
        let score = (travel / 2) as u32;
        let (j, v) = fall(old.jump_y as int, old.vy as int);
        let spawn = travel >= old.next_spawn;
        let obs = if spawn {
            shifted(old.obstacles@).push(spawn_of(score as int, rolls))
        } else {
            shifted(old.obstacles@)
        };
        let crash = hits(dino_box_of(j as usize, old.ducking), obs);
        &&& new.travel == travel
        &&& new.score == score
        &&& new.run_frame == !old.run_frame
        &&& new.jump_y == j
        &&& new.vy == v
        &&& new.ducking == old.ducking
        &&& new.obstacles@ == obs
        &&& new.next_spawn == (if spawn { travel + FIELD_WIDTH / 2 + 6 + rolls.gap } else { old.next_spawn as int })
        &&& new.phase == (if crash { Phase::Over } else { Phase::Running })
        &&& new.best == (if crash && score > old.best { score } else { old.best })
    }
}

/// Milliseconds per tick at score `score`: 5 ms faster for every 50 points,
/// never below the floor.
pub open spec fn tick_ms_of(score: int) -> int {
    let step = (score / 50) * 5;
    if START_TICK_MS - step > MIN_TICK_MS {
        START_TICK_MS - step
    } else {
        MIN_TICK_MS as int
    }
}

pub open spec fn key_is(key: KeyInput, a: char, b: char) -> bool {
    key.code == KeyCodeInput::Char(a) || key.code == KeyCodeInput::Char(b)
}

/// Space, Up, `w` and `W` jump.
pub open spec fn jump_key(key: KeyInput) -> bool {
    key.code == KeyCodeInput::Char(' ') || key.code == KeyCodeInput::Up || key_is(key, 'w', 'W')
}

/// Down, `s` and `S` duck.
pub open spec fn duck_key(key: KeyInput) -> bool {
    key.code == KeyCodeInput::Down || key_is(key, 's', 'S')
}

/// `q` or Ctrl-C quit at any time; after a crash `r`, Enter and the jump
/// keys start a new round.
pub open spec fn key_outcome(key: KeyInput, over: bool) -> KeyOutcome {
    if key_is(key, 'q', 'Q') || (key.code == KeyCodeInput::Char('c') && key.ctrl) {
        KeyOutcome::Quit
    } else if over && (key_is(key, 'r', 'R') || key.code == KeyCodeInput::Enter || jump_key(key)) {
        KeyOutcome::Restart
    } else {
        KeyOutcome::Continue
    }
}

/// The dino's collision box.
pub fn dino_box(g: &Game) -> (r: (usize, usize, usize, usize))
    requires
        g.jump_y <= 9,
    ensures
        r == dino_box_of(g.jump_y, g.ducking),
{
    dino_box_at(g.jump_y, g.ducking)
}

fn dino_box_at(jump_y: usize, ducking: bool) -> (r: (usize, usize, usize, usize))
    requires
        jump_y <= 9,
    ensures
        r == dino_box_of(jump_y, ducking),
{
    if ducking && jump_y == 0 {
        (DINO_X, GROUND_Y - 2, 5, 2)
    } else {
        (DINO_X, GROUND_Y - 4 - jump_y, 3, 4)
    }
}

/// An obstacle's collision box.
pub fn obstacle_box(o: &Obstacle) -> (r: (usize, usize, usize, usize))
    ensures
        r == obstacle_box_of(*o),
{
    match o.kind {
        Kind::Cactus { w } => (o.x, o.y, w, 3),
        Kind::Bird => (o.x, o.y, 3, 1),
    }
}

/// Whether two boxes `(x, y, w, h)` share a cell.
pub fn overlaps(a: (usize, usize, usize, usize), b: (usize, usize, usize, usize)) -> (r: bool)
    requires
        a.0 + a.2 <= usize::MAX,
        a.1 + a.3 <= usize::MAX,
        b.0 + b.2 <= usize::MAX,
        b.1 + b.3 <= usize::MAX,
    ensures
        r == overlap(a, b),
{
    let (ax, ay, aw, ah) = a;
    let (bx, by, bw, bh) = b;
    ax < bx + bw && bx < ax + aw && ay < by + bh && by < ay + ah
}

fn fall_step(jump_y: usize, vy: i32) -> (r: (usize, i32))
    requires
        jump_state(jump_y as int, vy as int),
    ensures
        r.0 as int == fall(jump_y as int, vy as int).0,
        r.1 as int == fall(jump_y as int, vy as int).1,
        jump_state(r.0 as int, r.1 as int),
{
    if jump_y > 0 || vy != 0 {
        let climbed: i32 = jump_y as i32 + vy;
        if climbed <= 0 {
            (0, 0)
        } else {
            (climbed as usize, vy - 1)
        }
    } else {
        (jump_y, vy)
    }
}

fn shift_obstacles(obs: &Vec<Obstacle>) -> (r: Vec<Obstacle>)
    requires
        all_ok(obs@),
    ensures
        r@ == shifted(obs@),
        all_ok(r@),
{
    let mut out: Vec<Obstacle> = Vec::new();
    let mut i: usize = 0;
    while i < obs.len()
        invariant
            i <= obs.len(),
            all_ok(obs@),
            out@ == shifted(obs@.subrange(0, i as int)),
            all_ok(out@),
        decreases obs.len() - i,
    {
        let o = obs[i];
        let x: usize = if o.x > 0 { o.x - 1 } else { 0 };
        let moved = Obstacle { x, ..o };
        assert(obs@.subrange(0, i + 1).drop_last() =~= obs@.subrange(0, i as int));
        assert(obs@.subrange(0, i + 1).last() == obs@[i as int]);
        assert(obstacle_ok(obs@[i as int]));
        if moved.x < FIELD_WIDTH {
            out.push(moved);
        }
        i += 1;
    }
    assert(obs@.subrange(0, obs@.len() as int) =~= obs@);
    out
}

fn spawn_obstacle(score: u32, rolls: Rolls) -> (r: Obstacle)
    requires
        rolls_ok(rolls),
    ensures
        r == spawn_of(score as int, rolls),
        obstacle_ok(r),
{
    if score > 30 && rolls.kind < 3 {
        let y = if rolls.high == 0 { GROUND_Y - 6 } else { GROUND_Y - 3 };
        Obstacle { kind: Kind::Bird, x: FIELD_WIDTH + 2, y }
    } else {
        Obstacle { kind: Kind::Cactus { w: 1 + rolls.width }, x: FIELD_WIDTH + 2, y: GROUND_Y - 3 }
    }
}

fn any_hit(dino: (usize, usize, usize, usize), obs: &Vec<Obstacle>) -> (r: bool)
    requires
        dino.0 <= 8 && dino.2 <= 5 && dino.1 <= GROUND_Y && dino.3 <= 4,
        all_ok(obs@),
    ensures
        r == hits(dino, obs@),
{
    let mut i: usize = 0;
    while i < obs.len()
        invariant
            i <= obs.len(),
            dino.0 <= 8 && dino.2 <= 5 && dino.1 <= GROUND_Y && dino.3 <= 4,
            all_ok(obs@),
            forall|k: int| 0 <= k < i ==> !overlap(dino, obstacle_box_of(#[trigger] obs@[k])),
        decreases obs.len() - i,
    {
        assert(obstacle_ok(obs@[i as int]));
        let b = obstacle_box(&obs[i]);
        if overlaps(dino, b) {
            return true;
        }
        i += 1;
    }
    false
}

impl Game {
    /// A fresh round; the first obstacle comes after a calm stretch of
    /// `FIELD_WIDTH + roll` ticks.
    pub fn new_with(best: u32, roll: usize) -> (g: Game)
        requires
            roll < 20,
        ensures
            g.wf(),
            g.jump_y == 0 && g.vy == 0 && !g.ducking && !g.run_frame,
            g.obstacles@.len() == 0,
            g.travel == 0 && g.score == 0 && g.best == best,
            g.phase == Phase::Running,
            g.next_spawn == FIELD_WIDTH + roll,
    {
        Game {
            jump_y: 0,
            vy: 0,
            ducking: false,
            run_frame: false,
            obstacles: Vec::new(),
            travel: 0,
            score: 0,
            best,
            phase: Phase::Running,
            next_spawn: FIELD_WIDTH + roll,
        }
    }

    /// A fresh round with a drawn calm stretch before the first obstacle.
    pub fn new(best: u32) -> (g: Game)
        ensures
            g.wf(),
            g.jump_y == 0 && g.vy == 0 && !g.ducking && !g.run_frame,
            g.obstacles@.len() == 0,
            g.travel == 0 && g.score == 0 && g.best == best,
            g.phase == Phase::Running,
            FIELD_WIDTH <= g.next_spawn < FIELD_WIDTH + 20,
    {
        let roll = rand_n(20);
        Game::new_with(best, roll)
    }

    /// Milliseconds until the next tick.
    pub fn tick_ms(&self) -> (r: u64)
        ensures
            r == tick_ms_of(self.score as int),
    {
        let step: u64 = (self.score / 50) as u64 * 5;
        let t = START_TICK_MS.saturating_sub(step);
        if t > MIN_TICK_MS {
            t
        } else {
            MIN_TICK_MS
        }
    }

    /// One tick with the given draws.
    #[verifier::spinoff_prover]
    pub fn tick_with(&mut self, rolls: Rolls)
        requires
            old(self).wf(),
            rolls_ok(rolls),
            old(self).travel + 64 <= usize::MAX,
        ensures
            final(self).wf(),
            ticked(*old(self), *final(self), rolls),
    {
        if self.phase == Phase::Over {
            return;
        }
        let travel = self.travel + 1;
        let score = (travel / 2) as u32;
        let (jump_y, vy) = fall_step(self.jump_y, self.vy);
        let mut obstacles = shift_obstacles(&self.obstacles);
        proof {
            lemma_shifted_len(self.obstacles@);
        }
        let mut next_spawn = self.next_spawn;
        if travel >= self.next_spawn {
            let o = spawn_obstacle(score, rolls);
            obstacles.push(o);
            next_spawn = travel + FIELD_WIDTH / 2 + 6 + rolls.gap;
        }
        let dino = dino_box_at(jump_y, self.ducking);
        let crash = any_hit(dino, &obstacles);
        self.travel = travel;
        self.score = score;
        self.run_frame = !self.run_frame;
        self.jump_y = jump_y;
        self.vy = vy;
        self.obstacles = obstacles;
        self.next_spawn = next_spawn;
        if crash {
            self.phase = Phase::Over;
            if score > self.best {
                self.best = score;
            }
        }
    }

    /// One tick, with the draws taken from the clock.
    pub fn tick(&mut self)
        requires
            old(self).wf(),
            old(self).travel + 64 <= usize::MAX,
        ensures
            final(self).wf(),
            exists|rolls: Rolls| rolls_ok(rolls) && ticked(*old(self), *final(self), rolls),
    {
        let kind = rand_n(10);
        let high = rand_n(2);
        let width = rand_n(3);
        let gap = rand_n(18);
        let rolls = Rolls { kind, high, width, gap };
        self.tick_with(rolls);
        assert(rolls_ok(rolls) && ticked(*old(self), *self, rolls));
    }

    /// Starts a jump when the dino is on the ground in a running round.
    pub fn jump(&mut self)
        requires
            old(self).wf(),
        ensures
            final(self).wf(),
            final(self).same_but_posture(&*old(self)),
            final(self).vy == (if old(self).phase == Phase::Running && old(self).jump_y == 0 { 3 } else { old(self).vy }),
            final(self).ducking == (if old(self).phase == Phase::Running && old(self).jump_y == 0 { false } else { old(self).ducking }),
    {
        if self.phase == Phase::Running && self.jump_y == 0 {
            self.vy = 3;
            self.ducking = false;
        }
    }

    /// Applies a key press: jumps, ducks or lets go, and says whether to go
    /// on, restart or quit.
    pub fn handle_key(&mut self, key: KeyInput) -> (r: KeyOutcome)
        requires
            old(self).wf(),
        ensures
            final(self).wf(),
            r == key_outcome(key, old(self).phase == Phase::Over),
            final(self).same_but_posture(&*old(self)),
            final(self).vy == (if r == KeyOutcome::Continue && jump_key(key) && !key.release
                && old(self).jump_y == 0 { 3 } else { old(self).vy }),
            final(self).ducking == (if r == KeyOutcome::Continue && jump_key(key) && !key.release
                && old(self).jump_y == 0 {
                false
            } else if r == KeyOutcome::Continue && duck_key(key) {
                !key.release && old(self).jump_y == 0
            } else {
                old(self).ducking
            }),
    {
        let over = self.phase == Phase::Over;
        let code = key.code;
        if code == KeyCodeInput::Char('q') || code == KeyCodeInput::Char('Q') || (code
            == KeyCodeInput::Char('c') && key.ctrl) {
            return KeyOutcome::Quit;
        }
        let jump = code == KeyCodeInput::Char(' ') || code == KeyCodeInput::Up || code
            == KeyCodeInput::Char('w') || code == KeyCodeInput::Char('W');
        if over && (code == KeyCodeInput::Char('r') || code == KeyCodeInput::Char('R') || code
            == KeyCodeInput::Enter || jump) {
            return KeyOutcome::Restart;
        }
        if jump {
            if !key.release {
                self.jump();
            }
        } else if code == KeyCodeInput::Down || code == KeyCodeInput::Char('s') || code
            == KeyCodeInput::Char('S') {
            self.ducking = !key.release && self.jump_y == 0;
        }
        KeyOutcome::Continue
    }
}

/// Gravity keeps the dino on a jump's arc: from any point of the arc, a
/// tick leads to another point of it, never more than 6 rows up.
pub proof fn law_jump_stays_on_arc(jump_y: int, vy: int)
    requires
        jump_state(jump_y, vy),
    ensures
        jump_state(fall(jump_y, vy).0, fall(jump_y, vy).1),
        0 <= jump_y <= 6,
{
}

/// A jump from the ground lands after exactly seven ticks, and the dino is
/// in the air at every tick before that.
pub proof fn law_jump_lands_after_seven_ticks()
    ensures
        fall_n(0, 3, 7) == (0int, 0int),
        forall|n: nat| 1 <= n < 7 ==> #[trigger] fall_n(0, 3, n).0 > 0,
{
    reveal_with_fuel(fall_n, 8);
    assert forall|n: nat| 1 <= n < 7 implies #[trigger] fall_n(0, 3, n).0 > 0 by {
        reveal_with_fuel(fall_n, 8);
        if n == 1 {
        } else if n == 2 {
        } else if n == 3 {
        } else if n == 4 {
        } else if n == 5 {
        } else {
        }
    }
}

/// The escape sequences that color the field.
pub open spec fn green() -> Seq<char> {
    "\x1b[1;92m"@
}

pub open spec fn red() -> Seq<char> {
    "\x1b[1;91m"@
}

pub open spec fn reset() -> Seq<char> {
    "\x1b[0m"@
}

/// The spaces that bring `row` (its visible columns) to column `target`.
pub open spec fn pad_to(row: Seq<char>, target: int) -> Seq<char> {
    spaces((if target > text_width(row) {
        target - text_width(row)
    } else {
        0
    }) as nat)
}

/// `row` with `body` drawn from column `target` on: the padding in `color`,
/// then a reset, then `body`.
pub open spec fn put(row: Seq<char>, target: int, color: Seq<char>, body: Seq<char>) -> Seq<char> {
    row + color + pad_to(row, target) + reset() + body
}

/// `row` with the characters of `line` from `col` on drawn at column
/// `DINO_X + col` each, spaces skipped.
pub open spec fn place_art(row: Seq<char>, line: Seq<char>, col: int) -> Seq<char>
    decreases line.len() - col,
{
    if col < 0 || col >= line.len() {
        row
    } else {
        let next = if line[col] != ' ' {
            put(row, DINO_X + col, green(), seq![line[col]])
        } else {
            row
        };
        place_art(next, line, col + 1)
    }
}

/// The dino's picture: ducking, in the air, or one of two running frames.
pub open spec fn dino_art(g: Game) -> Seq<Seq<char>> {
    if g.ducking && g.jump_y == 0 {
        seq!["    _"@, "_(°>"@]
    } else if g.jump_y > 0 {
        seq!["  _"@, "(°>"@, "/|"@, "/\\"@]
    } else if g.run_frame {
        seq!["  _"@, "(°>"@, "/|"@, "/ \\"@]
    } else {
        seq!["  _"@, "(°>"@, "/|"@, " /"@]
    }
}

/// The rows of the field with the dino drawn, its feet on the ground line
/// less its height.
pub open spec fn dino_rows(g: Game) -> Seq<Seq<char>> {
    let art = dino_art(g);
    let top = GROUND_Y - art.len() - g.jump_y;
    Seq::new(
        (GROUND_Y + 2) as nat,
        |i: int|
            if top <= i < top + art.len() {
                place_art(Seq::empty(), art[i - top], 0)
            } else {
                Seq::empty()
            },
    )
}

/// `n` repetitions of `unit`.
pub open spec fn repeat(unit: Seq<char>, n: nat) -> Seq<char>
    decreases n,
{
    if n == 0 {
        Seq::empty()
    } else {
        repeat(unit, (n - 1) as nat) + unit
    }
}

/// The picture of an obstacle, row by row.
pub open spec fn body_of(o: Obstacle) -> Seq<Seq<char>> {
    match o.kind {
        Kind::Cactus { w } => seq![repeat("^| "@, w as nat), repeat("|| "@, w as nat), repeat("|| "@, w as nat)],
        Kind::Bird => seq!["==< "@],
    }
}

/// `rows` with the rows of `o` from `i` on drawn in red at its box.
pub open spec fn place_lines(rows: Seq<Seq<char>>, o: Obstacle, i: int) -> Seq<Seq<char>>
    decreases obstacle_box_of(o).3 - i,
{
    let b = obstacle_box_of(o);
    if i < 0 || i >= b.3 {
        rows
    } else {
        place_lines(rows.update(b.1 + i, put(rows[b.1 + i], b.0 as int, red(), body_of(o)[i])), o, i + 1)
    }
}

/// `rows` with the obstacles drawn in order.
pub open spec fn with_obstacles(rows: Seq<Seq<char>>, obs: Seq<Obstacle>) -> Seq<Seq<char>>
    decreases obs.len(),
{
    if obs.len() == 0 {
        rows
    } else {
        place_lines(with_obstacles(rows, obs.drop_last()), obs.last(), 0)
    }
}

/// The ground line, scrolled by `shift`.
pub open spec fn ground(shift: int) -> Seq<char> {
    "\x1b[90m"@ + Seq::new(FIELD_WIDTH as nat, |c: int| if (c + shift) % 4 == 0 { '▔' } else { '_' }) + reset()
}

/// The first `n` cells of the dirt line, scrolled by `shift`.
pub open spec fn dirt(shift: int, n: int) -> Seq<char>
    decreases n,
{
    if n <= 0 {
        Seq::empty()
    } else {
        dirt(shift, n - 1) + if (n - 1 + shift) % 6 == 0 {
            "\x1b[90m·\x1b[0m"@
        } else {
            " "@
        }
    }
}

/// `s` left-aligned in six characters.
pub open spec fn left6(s: Seq<char>) -> Seq<char> {
    s + spaces((if s.len() < 6 { 6 - s.len() } else { 0 }) as nat)
}

/// The lines of one frame: the title with the best and current score, an
/// empty line, the field (the last of its rows the scrolling ground), the
/// scrolling dirt, an empty line, and the key help or the crash notice.
pub open spec fn frame_lines(g: Game) -> Seq<Seq<char>> {
    let best = if g.best > 0 { nat_text(g.best as nat) } else { "-"@ };
    let score = if g.phase == Phase::Over {
        nat_text(g.score as nat) + " !"@
    } else {
        nat_text(g.score as nat)
    };
    let header = "\x1b[1;96m~ niubash dino ~\x1b[0m  \x1b[1;93mHI "@ + left6(best) + "score "@ + left6(score)
        + "\x1b[0m\x1b[K"@;
    let rows = with_obstacles(dino_rows(g), g.obstacles@);
    let field = Seq::new(
        (GROUND_Y + 1) as nat,
        |i: int|
            " "@ + rows[i] + (if i == GROUND_Y {
                ground((g.travel % 4) as int)
            } else {
                Seq::empty()
            }) + "\x1b[K"@,
    );
    let status = if g.phase == Phase::Over {
        "  \x1b[1;91mCRASHED at "@ + nat_text(g.score as nat) + "!\x1b[0m \x1b[90mr restarts, q quits\x1b[0m\x1b[K"@
    } else {
        "  \x1b[90mspace/↑ jump   ↓ duck   q quit\x1b[0m\x1b[K"@
    };
    seq![header, Seq::empty()] + field + seq![" "@ + dirt((g.travel % 6) as int, FIELD_WIDTH as int) + "\x1b[K"@, Seq::empty(), status]
}

/// Draws `body` onto `row` from column `target` on.
fn put_on(row: &str, target: usize, color: &str, body: &str) -> (r: String)
    requires
        2 * row@.len() <= usize::MAX,
    ensures
        r@ == put(row@, target as int, color@, body@),
{
    let w = display_width(row);
    let mut r = owned(row).concat(color);
    let n = if target > w { target - w } else { 0 };
    let mut k: usize = 0;
    let ghost base = r@;
    while k < n
        invariant
            k <= n,
            r@ == base + spaces(k as nat),
        decreases n - k,
    {
        push_char(&mut r, ' ');
        assert(r@ =~= base + spaces((k + 1) as nat));
        k += 1;
    }
    proof {
        reveal_strlit("\x1b[0m");
    }
    let r2 = r.concat("\x1b[0m").concat(body);
    assert(r2@ =~= put(row@, target as int, color@, body@));
    r2
}

proof fn lemma_put_len(row: Seq<char>, target: int, color: Seq<char>, body: Seq<char>)
    requires
        0 <= target,
    ensures
        put(row, target, color, body).len() <= row.len() + color.len() + target + 4 + body.len(),
{
    lemma_width_bounds(row, 0, false);
    reveal_strlit("\x1b[0m");
}

/// A row drawn on at most `n` times stays short.
pub open spec fn rows_short(rows: Seq<Seq<char>>, n: int) -> bool {
    rows.len() == GROUND_Y + 2 && forall|k: int| 0 <= k < rows.len() ==> #[trigger] rows[k].len() <= 100 * n
}

fn art_lines(g: &Game) -> (r: Vec<&'static str>)
    ensures
        r@.map_values(|l: &str| l@) == dino_art(*g),
        r@.len() == dino_art(*g).len(),
        r@.len() == 2 || r@.len() == 4,
        forall|k: int| 0 <= k < r@.len() ==> (#[trigger] r@[k])@.len() <= 5,
{
    let r: Vec<&'static str> = if g.ducking && g.jump_y == 0 {
        vec!["    _", "_(°>"]
    } else if g.jump_y > 0 {
        vec!["  _", "(°>", "/|", "/\\"]
    } else if g.run_frame {
        vec!["  _", "(°>", "/|", "/ \\"]
    } else {
        vec!["  _", "(°>", "/|", " /"]
    };
    proof {
        reveal_strlit("    _");
        reveal_strlit("_(°>");
        reveal_strlit("  _");
        reveal_strlit("(°>");
        reveal_strlit("/|");
        reveal_strlit("/\\");
        reveal_strlit("/ \\");
        reveal_strlit(" /");
    }
    assert(r@.map_values(|l: &str| l@) =~= dino_art(*g));
    r
}

fn draw_art_line(line: &str) -> (r: String)
    requires
        line@.len() <= 5,
    ensures
        r@ == place_art(Seq::empty(), line@, 0),
        r@.len() <= 100 * 5,
{
    let v = chars_of(line);
    let mut row = String::new();
    let mut col: usize = 0;
    let n = v.len();
    proof {
        reveal_strlit("\x1b[1;92m");
    }
    while col < n
        invariant
            col <= n <= 5,
            n == v@.len(),
            v@ == line@,
            green().len() == 7,
            place_art(Seq::empty(), line@, 0) == place_art(row@, line@, col as int),
            row@.len() <= 100 * col,
        decreases n - col,
    {
        if v[col] != ' ' {
            let mut body = String::new();
            push_char(&mut body, v[col]);
            assert(body@ =~= seq![v@[col as int]]);
            proof {
                lemma_put_len(row@, DINO_X + col, green(), body@);
            }
            row = put_on(row.as_str(), DINO_X + col, "\x1b[1;92m", body.as_str());
        }
        col += 1;
    }
    row
}

fn dino_field(g: &Game) -> (r: Vec<String>)
    requires
        g.wf(),
    ensures
        views(r@) == dino_rows(*g),
        rows_short(views(r@), 5),
{
    let art = art_lines(g);
    let ghost av = dino_art(*g);
    let top = GROUND_Y - art.len() - g.jump_y;
    let mut rows: Vec<String> = Vec::new();
    let mut i: usize = 0;
    while i < GROUND_Y + 2
        invariant
            i <= GROUND_Y + 2,
            av == dino_art(*g),
            art@.map_values(|l: &str| l@) == av,
            art@.len() == av.len(),
            forall|k: int| 0 <= k < art@.len() ==> (#[trigger] art@[k])@.len() <= 5,
            top == GROUND_Y - av.len() - g.jump_y,
            views(rows@) == dino_rows(*g).subrange(0, i as int),
            forall|k: int| 0 <= k < rows@.len() ==> #[trigger] rows@[k]@.len() <= 100 * 5,
        decreases GROUND_Y + 2 - i,
    {
        let ghost before = views(rows@);
        let line = if top <= i && i < top + art.len() {
            assert(art@[(i - top) as int]@ == av[i - top]);
            draw_art_line(art[i - top])
        } else {
            String::new()
        };
        assert(line@ == dino_rows(*g)[i as int]);
        rows.push(line);
        assert(views(rows@) =~= before.push(line@));
        assert(views(rows@) =~= dino_rows(*g).subrange(0, i + 1));
        i += 1;
    }
    assert(dino_rows(*g).subrange(0, (GROUND_Y + 2) as int) =~= dino_rows(*g));
    rows
}

fn repeated(unit: &str, n: usize) -> (r: String)
    ensures
        r@ == repeat(unit@, n as nat),
{
    let mut r = String::new();
    let mut k: usize = 0;
    while k < n
        invariant
            k <= n,
            r@ == repeat(unit@, k as nat),
        decreases n - k,
    {
        r = r.concat(unit);
        k += 1;
    }
    r
}

fn body_lines(o: &Obstacle) -> (r: Vec<String>)
    requires
        obstacle_ok(*o),
    ensures
        views(r@) == body_of(*o),
        r@.len() == obstacle_box_of(*o).3,
        forall|k: int| 0 <= k < r@.len() ==> (#[trigger] r@[k])@.len() <= 9,
{
    let mut r: Vec<String> = Vec::new();
    match o.kind {
        Kind::Cactus { w } => {
            proof {
                reveal_strlit("^| ");
                reveal_strlit("|| ");
                lemma_repeat_len("^| "@, w as nat);
                lemma_repeat_len("|| "@, w as nat);
            }
            r.push(repeated("^| ", w));
            r.push(repeated("|| ", w));
            r.push(repeated("|| ", w));
        },
        Kind::Bird => {
            proof {
                reveal_strlit("==< ");
            }
            r.push(owned("==< "));
        },
    }
    assert(views(r@) =~= body_of(*o));
    r
}

proof fn lemma_repeat_len(unit: Seq<char>, n: nat)
    ensures
        repeat(unit, n).len() == unit.len() * n,
    decreases n,
{
    if n > 0 {
        lemma_repeat_len(unit, (n - 1) as nat);
        let prev = repeat(unit, (n - 1) as nat).len();
        assert(repeat(unit, n).len() == prev + unit.len());
        let u = unit.len();
        assert(u * n == u * ((n - 1) as nat) + u) by (nonlinear_arith)
            requires
                n >= 1,
        ;
    } else {
        let u = unit.len();
        assert(u * n == 0) by (nonlinear_arith)
            requires
                n == 0,
        ;
    }
}

fn draw_obstacle(rows: &mut Vec<String>, o: &Obstacle, Ghost(n): Ghost<int>)
    requires
        rows_short(views(old(rows)@), n),
        obstacle_ok(*o),
        5 <= n <= 200000,
    ensures
        views(final(rows)@) == place_lines(views(old(rows)@), *o, 0),
        rows_short(views(final(rows)@), n + 1),
{
    let b = obstacle_box(o);
    let body = body_lines(o);
    let ghost start = views(rows@);
    proof {
        reveal_strlit("\x1b[1;91m");
    }
    assert(body@.len() == b.3);
    assert forall|k: int| 0 <= k < rows@.len() implies #[trigger] rows@[k]@.len() <= 100 * n by {
        assert(views(rows@)[k] == rows@[k]@);
    }
    let mut i: usize = 0;
    while i < b.3
        invariant
            b == obstacle_box_of(*o),
            obstacle_ok(*o),
            views(body@) == body_of(*o),
            forall|k: int| 0 <= k < body@.len() ==> (#[trigger] body@[k])@.len() <= 9,
            i <= b.3 <= 3,
            body@.len() == b.3,
            b.1 + b.3 <= GROUND_Y,
            b.0 <= FIELD_WIDTH + 2,
            rows@.len() == GROUND_Y + 2,
            red().len() == 7,
            5 <= n <= 200000,
            place_lines(start, *o, 0) == place_lines(views(rows@), *o, i as int),
            forall|k: int| 0 <= k < rows@.len() ==> (b.1 <= k < b.1 + i ==> #[trigger] rows@[k]@.len() <= 100 * (n + 1))
                && (!(b.1 <= k < b.1 + i) ==> rows@[k]@.len() <= 100 * n),
        decreases b.3 - i,
    {
        let idx = b.1 + i;
        assert(views(body@)[i as int] == body@[i as int]@);
        proof {
            lemma_put_len(rows@[idx as int]@, b.0 as int, red(), body@[i as int]@);
        }
        let next = put_on(rows[idx].as_str(), b.0, "\x1b[1;91m", body[i].as_str());
        let ghost before = views(rows@);
        rows.set(idx, next);
        assert(views(rows@) =~= before.update(idx as int, next@));
        i += 1;
    }
    assert forall|k: int| 0 <= k < views(rows@).len() implies #[trigger] views(rows@)[k].len() <= 100 * (n + 1) by {
        assert(views(rows@)[k] == rows@[k]@);
    }
    assert(rows_short(views(rows@), n + 1));
}

fn left_six(s: String) -> (r: String)
    ensures
        r@ == left6(s@),
{
    let n = s.as_str().unicode_len();
    let mut r = s;
    let mut k = n;
    while k < 6
        invariant
            n <= k <= 6 || (n > 6 && k == n),
            r@ == s@ + spaces((k - n) as nat),
        decreases 6 - k,
    {
        push_char(&mut r, ' ');
        assert(r@ =~= s@ + spaces((k + 1 - n) as nat));
        k += 1;
    }
    assert(r@ =~= left6(s@));
    r
}

fn ground_line(shift: usize) -> (r: String)
    requires
        shift < 4,
    ensures
        r@ == ground(shift as int),
{
    let mut cells = String::new();
    let mut c: usize = 0;
    while c < FIELD_WIDTH
        invariant
            c <= FIELD_WIDTH,
            shift < 4,
            cells@ == Seq::new(FIELD_WIDTH as nat, |k: int| if (k + shift) % 4 == 0 { '▔' } else { '_' }).subrange(0, c as int),
        decreases FIELD_WIDTH - c,
    {
        let ch = if (c + shift) % 4 == 0 { '▔' } else { '_' };
        push_char(&mut cells, ch);
        assert(cells@ =~= Seq::new(FIELD_WIDTH as nat, |k: int| if (k + shift) % 4 == 0 { '▔' } else { '_' }).subrange(0, c + 1));
        c += 1;
    }
    assert(Seq::new(FIELD_WIDTH as nat, |k: int| if (k + shift) % 4 == 0 { '▔' } else { '_' }).subrange(0, FIELD_WIDTH as int)
        =~= Seq::new(FIELD_WIDTH as nat, |k: int| if (k + shift) % 4 == 0 { '▔' } else { '_' }));
    owned("\x1b[90m").concat(cells.as_str()).concat("\x1b[0m")
}

fn dirt_line(shift: usize) -> (r: String)
    requires
        shift < 6,
    ensures
        r@ == " "@ + dirt(shift as int, FIELD_WIDTH as int) + "\x1b[K"@,
{
    let mut cells = String::new();
    let mut c: usize = 0;
    while c < FIELD_WIDTH
        invariant
            c <= FIELD_WIDTH,
            shift < 6,
            cells@ == dirt(shift as int, c as int),
        decreases FIELD_WIDTH - c,
    {
        if (c + shift) % 6 == 0 {
            cells = cells.concat("\x1b[90m·\x1b[0m");
        } else {
            cells = cells.concat(" ");
        }
        c += 1;
    }
    owned(" ").concat(cells.as_str()).concat("\x1b[K")
}

impl Game {
    /// The lines of the current frame, to print from the top of the screen.
    #[verifier::spinoff_prover]
    #[verifier::rlimit(40)]
    pub fn frame(&self) -> (r: Vec<String>)
        requires
            self.wf(),
        ensures
            views(r@) == frame_lines(*self),
    {
        let mut rows = dino_field(self);
        let mut j: usize = 0;
        let ghost base = dino_rows(*self);
        while j < self.obstacles.len()
            invariant
                j <= self.obstacles@.len() <= MAX_OBSTACLES,
                self.wf(),
                base == dino_rows(*self),
                views(rows@) == with_obstacles(base, self.obstacles@.subrange(0, j as int)),
                rows_short(views(rows@), 5 + j),
            decreases self.obstacles.len() - j,
        {
            assert(self.obstacles@.subrange(0, j + 1).drop_last() =~= self.obstacles@.subrange(0, j as int));
            assert(obstacle_ok(self.obstacles@[j as int]));
            draw_obstacle(&mut rows, &self.obstacles[j], Ghost((5 + j) as int));
            j += 1;
        }
        assert(self.obstacles@.subrange(0, self.obstacles@.len() as int) =~= self.obstacles@);
        let best = if self.best > 0 {
            u64_text(self.best as u64)
        } else {
            owned("-")
        };
        let score = if self.phase == Phase::Over {
            u64_text(self.score as u64).concat(" !")
        } else {
            u64_text(self.score as u64)
        };
        let header = owned("\x1b[1;96m~ niubash dino ~\x1b[0m  \x1b[1;93mHI ").concat(left_six(best).as_str()).concat(
            "score ",
        ).concat(left_six(score).as_str()).concat("\x1b[0m\x1b[K");
        let mut out: Vec<String> = Vec::new();
        let ghost best_v = if self.best > 0 { nat_text(self.best as nat) } else { "-"@ };
        let ghost score_v = if self.phase == Phase::Over {
            nat_text(self.score as nat) + " !"@
        } else {
            nat_text(self.score as nat)
        };
        assert(header@ == "\x1b[1;96m~ niubash dino ~\x1b[0m  \x1b[1;93mHI "@ + left6(best_v) + "score "@ + left6(score_v)
            + "\x1b[0m\x1b[K"@);
        out.push(header);
        out.push(String::new());
        let ghost head = views(out@);
        assert(head =~= seq![header@, Seq::<char>::empty()]);
        let ghost field_rows = with_obstacles(base, self.obstacles@);
        let mut i: usize = 0;
        while i < GROUND_Y + 1
            invariant
                i <= GROUND_Y + 1,
                views(rows@) == field_rows,
                field_rows.len() == GROUND_Y + 2,
                views(out@) == head + Seq::new(
                    (GROUND_Y + 1) as nat,
                    |k: int|
                        " "@ + field_rows[k] + (if k == GROUND_Y {
                            ground((self.travel % 4) as int)
                        } else {
                            Seq::empty()
                        }) + "\x1b[K"@,
                ).subrange(0, i as int),
            decreases GROUND_Y + 1 - i,
        {
            let mut line = owned(" ").concat(rows[i].as_str());
            if i == GROUND_Y {
                let g = ground_line(self.travel % 4);
                line = line.concat(g.as_str());
            }
            let line = line.concat("\x1b[K");
            let ghost before = views(out@);
            assert(views(rows@)[i as int] == rows@[i as int]@);
            out.push(line);
            assert(views(out@) =~= before.push(line@));
            assert(views(out@) =~= head + Seq::new(
                (GROUND_Y + 1) as nat,
                |k: int|
                    " "@ + field_rows[k] + (if k == GROUND_Y {
                        ground((self.travel % 4) as int)
                    } else {
                        Seq::empty()
                    }) + "\x1b[K"@,
            ).subrange(0, i + 1));
            i += 1;
        }
        let ghost field = Seq::new(
            (GROUND_Y + 1) as nat,
            |k: int|
                " "@ + field_rows[k] + (if k == GROUND_Y {
                    ground((self.travel % 4) as int)
                } else {
                    Seq::empty()
                }) + "\x1b[K"@,
        );
        assert(field.subrange(0, (GROUND_Y + 1) as int) =~= field);
        assert(views(out@) == head + field);
        let d = dirt_line(self.travel % 6);
        let ghost mid = views(out@);
        out.push(d);
        out.push(String::new());
        let status = if self.phase == Phase::Over {
            owned("  \x1b[1;91mCRASHED at ").concat(u64_text(self.score as u64).as_str()).concat(
                "!\x1b[0m \x1b[90mr restarts, q quits\x1b[0m\x1b[K",
            )
        } else {
            owned("  \x1b[90mspace/↑ jump   ↓ duck   q quit\x1b[0m\x1b[K")
        };
        out.push(status);
        assert(views(out@) =~= mid + seq![d@, Seq::<char>::empty(), status@]);
        assert(views(out@) =~= frame_lines(*self));
        out
    }
}

} // verus!
