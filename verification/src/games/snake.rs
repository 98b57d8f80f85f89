//! The snake on a torus: every edge wraps, the snake grows by one for each
//! apple, and running into itself ends the round. WASD or the arrows steer,
//! `p` pauses, `r` or Enter restarts after a crash, `q` quits.
use vstd::prelude::*;
use crate::clock::{nanos_since_epoch, system_now};
use crate::games::KeyOutcome;
use crate::menu::{KeyCodeInput, KeyInput};
use crate::text::{nat_text, owned, u64_text, views};

verus! {

/// Columns of the playfield.
pub const SNAKE_WIDTH: usize = 22;
/// Rows of the playfield.
pub const SNAKE_HEIGHT: usize = 14;
/// Milliseconds per tick at the start of a round.
pub const START_TICK_MS: u64 = 150;
/// Milliseconds per tick at full speed.
pub const MIN_TICK_MS: u64 = 60;

/// A cell of the playfield.
#[derive(Debug, Clone, Copy, PartialEq, Eq, Structural)]
pub struct Pos {
    pub x: usize,
    pub y: usize,
}

/// Where the snake heads.
#[derive(Debug, Clone, Copy, PartialEq, Eq, Structural)]
pub enum Dir {
    Up,
    Down,
    Left,
    Right,
}

/// Whether the round runs, waits, or has ended.
#[derive(Debug, Clone, Copy, PartialEq, Eq, Structural)]
pub enum Phase {
    Running,
    Paused,
    Over,
}

/// One round of snake; the head is the first cell.
pub struct Game {
    pub snake: Vec<Pos>,
    pub dir: Dir,
    pub food: Pos,
    pub score: u32,
    pub best: u32,
    pub phase: Phase,
}

pub open spec fn on_board(p: Pos) -> bool {
    p.x < SNAKE_WIDTH && p.y < SNAKE_HEIGHT
}

pub open spec fn all_on_board(s: Seq<Pos>) -> bool {
    forall|i: int| 0 <= i < s.len() ==> on_board(#[trigger] s[i])
}

impl Game {
    /// The game's invariant: a snake of at least one cell, all on the board
    /// and no two alike, and the food on the board.
    pub open spec fn wf(&self) -> bool {
        &&& self.snake@.len() >= 1
        &&& all_on_board(self.snake@)
        &&& self.snake@.no_duplicates()
        &&& on_board(self.food)
    }
}

/// The cell one step from `p` towards `dir`, wrapping at every edge.
pub open spec fn next_head(p: Pos, dir: Dir) -> Pos {
    match dir {
        Dir::Up => Pos { x: p.x, y: ((p.y + SNAKE_HEIGHT - 1) % (SNAKE_HEIGHT as int)) as usize },
        Dir::Down => Pos { x: p.x, y: ((p.y + 1) % (SNAKE_HEIGHT as int)) as usize },
        Dir::Left => Pos { x: ((p.x + SNAKE_WIDTH - 1) % (SNAKE_WIDTH as int)) as usize, y: p.y },
        Dir::Right => Pos { x: ((p.x + 1) % (SNAKE_WIDTH as int)) as usize, y: p.y },
    }
}

/// The `k`-th cell in row-major order.
pub open spec fn cell(k: int) -> Pos {
    Pos { x: (k % (SNAKE_WIDTH as int)) as usize, y: (k / (SNAKE_WIDTH as int)) as usize }
}

/// The cells among the first `n` in row-major order that `occupied` leaves free.
pub open spec fn free_upto(occupied: Seq<Pos>, n: nat) -> Seq<Pos>
    decreases n,
{
    if n == 0 {
        Seq::empty()
    } else {
        let rest = free_upto(occupied, (n - 1) as nat);
        if occupied.contains(cell(n - 1)) {
            rest
        } else {
            rest.push(cell(n - 1))
        }
    }
}

/// Every free cell of the board, in row-major order.
pub open spec fn free_cells(occupied: Seq<Pos>) -> Seq<Pos> {
    free_upto(occupied, (SNAKE_WIDTH * SNAKE_HEIGHT) as nat)
}

/// The free cell that the draw `pick` chooses; the corner when none is free.
pub open spec fn placed(occupied: Seq<Pos>, pick: usize) -> Pos {
    let free = free_cells(occupied);
    if free.len() == 0 {
        Pos { x: 0, y: 0 }
    } else {
        free[(pick as int) % (free.len() as int)]
    }
}

/// A 180-degree turn.
pub open spec fn opposite(a: Dir, b: Dir) -> bool {
    (a == Dir::Up && b == Dir::Down) || (a == Dir::Down && b == Dir::Up) || (a == Dir::Left
        && b == Dir::Right) || (a == Dir::Right && b == Dir::Left)
}

/// The direction after asking for `to`: a turn into the snake's own neck is
/// refused.
pub open spec fn steered(from: Dir, to: Dir) -> Dir {
    if opposite(from, to) {
        from
    } else {
        to
    }
}

/// `new` is `old` after one tick with the draw `pick`: a round that is not
/// running stays; a head that runs into the snake ends the round; a head on
/// the food grows the snake, scores and places new food; otherwise the
/// snake moves on.
pub open spec fn ticked(old: Game, new: Game, pick: usize) -> bool {
    if old.phase != Phase::Running {
        new == old
    } else {
        let head = next_head(old.snake@[0], old.dir);
        &&& new.dir == old.dir
        &&& if old.snake@.contains(head) {
            &&& new.phase == Phase::Over
            &&& new.best == (if old.score > old.best { old.score } else { old.best })
            &&& new.snake@ == old.snake@
            &&& new.food == old.food
            &&& new.score == old.score
        } else if head == old.food {
            &&& new.phase == Phase::Running
            &&& new.best == old.best
            &&& new.snake@ == seq![head] + old.snake@
            &&& new.score == old.score + 1
            &&& new.food == placed(new.snake@, pick)
        } else {
            &&& new.phase == Phase::Running
            &&& new.best == old.best
            &&& new.snake@ == (seq![head] + old.snake@).drop_last()
            &&& new.food == old.food
            &&& new.score == old.score
        }
    }
}

/// Whether the next tick of a running round moves the head onto the food,
/// which raises the score.
pub open spec fn eats(g: Game) -> bool {
    let head = next_head(g.snake@[0], g.dir);
    g.phase == Phase::Running && !g.snake@.contains(head) && head == g.food
}

/// Milliseconds per tick at score `score`: 3 ms faster per apple, floored.
pub open spec fn tick_ms_of(score: int) -> int {
    if START_TICK_MS - 3 * score > MIN_TICK_MS {
        START_TICK_MS - 3 * score
    } else {
        MIN_TICK_MS as int
    }
}

pub open spec fn key_is(key: KeyInput, a: char, b: char) -> bool {
    key.code == KeyCodeInput::Char(a) || key.code == KeyCodeInput::Char(b)
}

/// The direction that a key asks for: WASD and the arrows.
pub open spec fn dir_of_key(key: KeyInput) -> Option<Dir> {
    if key_is(key, 'w', 'W') || key.code == KeyCodeInput::Up {
        Some(Dir::Up)
    } else if key_is(key, 's', 'S') || key.code == KeyCodeInput::Down {
        Some(Dir::Down)
    } else if key_is(key, 'a', 'A') || key.code == KeyCodeInput::Left {
        Some(Dir::Left)
    } else if key_is(key, 'd', 'D') || key.code == KeyCodeInput::Right {
        Some(Dir::Right)
    } else {
        None
    }
}

pub open spec fn quit_key(key: KeyInput) -> bool {
    key_is(key, 'q', 'Q') || (key.code == KeyCodeInput::Char('c') && key.ctrl)
}

/// Key releases are ignored; `q` or Ctrl-C quit; after a crash `r` and
/// Enter restart.
pub open spec fn key_outcome(key: KeyInput, phase: Phase) -> KeyOutcome {
    if key.release {
        KeyOutcome::Continue
    } else if quit_key(key) {
        KeyOutcome::Quit
    } else if phase == Phase::Over && (key_is(key, 'r', 'R') || key.code == KeyCodeInput::Enter) {
        KeyOutcome::Restart
    } else {
        KeyOutcome::Continue
    }
}

/// The phase after a key: `p` toggles the pause of a round that has not ended.
pub open spec fn phase_after_key(key: KeyInput, phase: Phase) -> Phase {
    if !key.release && !quit_key(key) && key_is(key, 'p', 'P') && phase != Phase::Over {
        if phase == Phase::Paused {
            Phase::Running
        } else {
            Phase::Paused
        }
    } else {
        phase
    }
}

/// The direction after a key.
pub open spec fn dir_after_key(key: KeyInput, phase: Phase, dir: Dir) -> Dir {
    if key.release || quit_key(key) || key_is(key, 'p', 'P') {
        dir
    } else {
        match dir_of_key(key) {
            Some(d) => steered(dir, d),
            None => dir,
        }
    }
}

proof fn lemma_cell(k: int)
    requires
        0 <= k < SNAKE_WIDTH * SNAKE_HEIGHT,
    ensures
        on_board(cell(k)),
        cell(k).y * SNAKE_WIDTH + cell(k).x == k,
{
    assert(0 <= k % 22 < 22) by (nonlinear_arith);
    assert(k == (k / 22) * 22 + k % 22) by (nonlinear_arith);
    assert(0 <= k / 22 < 14) by (nonlinear_arith)
        requires
            0 <= k < 308,
    ;
}

proof fn lemma_cell_of(p: Pos)
    requires
        on_board(p),
    ensures
        cell(p.y * SNAKE_WIDTH + p.x) == p,
        0 <= p.y * SNAKE_WIDTH + p.x < SNAKE_WIDTH * SNAKE_HEIGHT,
{
    let k = p.y * 22 + p.x;
    assert(k % 22 == p.x as int && k / 22 == p.y as int) by (nonlinear_arith)
        requires
            k == p.y * 22 + p.x,
            0 <= p.x < 22,
            0 <= p.y,
    ;
    assert(0 <= k < 308) by (nonlinear_arith)
        requires
            k == p.y * 22 + p.x,
            0 <= p.x < 22,
            0 <= p.y < 14,
    ;
}

/// The free list holds free cells of the board only.
proof fn lemma_free_upto(occupied: Seq<Pos>, n: nat)
    requires
        n <= SNAKE_WIDTH * SNAKE_HEIGHT,
    ensures
        forall|i: int|
            0 <= i < free_upto(occupied, n).len() ==> on_board(#[trigger] free_upto(occupied, n)[i])
                && !occupied.contains(free_upto(occupied, n)[i]),
    decreases n,
{
    if n > 0 {
        lemma_free_upto(occupied, (n - 1) as nat);
        lemma_cell(n - 1);
        let rest = free_upto(occupied, (n - 1) as nat);
        let all = free_upto(occupied, n);
        assert forall|i: int| 0 <= i < all.len() implies on_board(#[trigger] all[i])
            && !occupied.contains(all[i]) by {
            if i < rest.len() {
                assert(all[i] == rest[i]);
            }
        }
    }
}

/// A free cell of the board among the first `n` is in the free list.
proof fn lemma_free_has(occupied: Seq<Pos>, n: nat, p: Pos)
    requires
        n <= SNAKE_WIDTH * SNAKE_HEIGHT,
        on_board(p),
        !occupied.contains(p),
        p.y * SNAKE_WIDTH + p.x < n,
    ensures
        free_upto(occupied, n).contains(p),
    decreases n,
{
    lemma_cell_of(p);
    let rest = free_upto(occupied, (n - 1) as nat);
    if p.y * SNAKE_WIDTH + p.x == n - 1 {
        assert(free_upto(occupied, n) == rest.push(p));
        assert(free_upto(occupied, n)[rest.len() as int] == p);
    } else {
        lemma_free_has(occupied, (n - 1) as nat, p);
        let i = choose|i: int| 0 <= i < rest.len() && rest[i] == p;
        if !occupied.contains(cell(n - 1)) {
            assert(free_upto(occupied, n)[i] == p);
        }
    }
}

fn occupies(cells: &[Pos], p: Pos) -> (r: bool)
    ensures
        r == cells@.contains(p),
{
    let mut i: usize = 0;
    while i < cells.len()
        invariant
            i <= cells.len(),
            forall|k: int| 0 <= k < i ==> cells@[k] != p,
        decreases cells.len() - i,
    {
        if cells[i] == p {
            return true;
        }
        i += 1;
    }
    false
}

/// The free cell that `pick` chooses among the free cells in row-major
/// order; the corner when the board is full.
pub fn random_pos_with(occupied: &[Pos], pick: usize) -> (r: Pos)
    ensures
        r == placed(occupied@, pick),
        on_board(r),
        (exists|p: Pos| on_board(p) && !occupied@.contains(p)) ==> !occupied@.contains(r),
{
    let mut candidates: Vec<Pos> = Vec::new();
    let mut k: usize = 0;
    while k < SNAKE_WIDTH * SNAKE_HEIGHT
        invariant
            k <= SNAKE_WIDTH * SNAKE_HEIGHT,
            candidates@ == free_upto(occupied@, k as nat),
        decreases SNAKE_WIDTH * SNAKE_HEIGHT - k,
    {
        let p = Pos { x: k % SNAKE_WIDTH, y: k / SNAKE_WIDTH };
        assert(p == cell(k as int));
        if !occupies(occupied, p) {
            candidates.push(p);
        }
        k += 1;
    }
    proof {
        lemma_free_upto(occupied@, (SNAKE_WIDTH * SNAKE_HEIGHT) as nat);
        if exists|p: Pos| on_board(p) && !occupied@.contains(p) {
            let p = choose|p: Pos| on_board(p) && !occupied@.contains(p);
            lemma_cell_of(p);
            lemma_free_has(occupied@, (SNAKE_WIDTH * SNAKE_HEIGHT) as nat, p);
        }
    }
    if candidates.len() == 0 {
        return Pos { x: 0, y: 0 };
    }
    let i = pick % candidates.len();
    candidates[i]
}

/// A free cell drawn from the clock; the corner when the board is full.
pub fn random_pos(occupied: &[Pos]) -> (r: Pos)
    ensures
        exists|pick: usize| r == placed(occupied@, pick),
        on_board(r),
        (exists|p: Pos| on_board(p) && !occupied@.contains(p)) ==> !occupied@.contains(r),
{
    let now = system_now();
    let pick = nanos_since_epoch(&now);
    random_pos_with(occupied, pick)
}

fn step_head(p: Pos, dir: Dir) -> (r: Pos)
    requires
        on_board(p),
    ensures
        r == next_head(p, dir),
        on_board(r),
{
    match dir {
        Dir::Up => Pos { x: p.x, y: (p.y + SNAKE_HEIGHT - 1) % SNAKE_HEIGHT },
        Dir::Down => Pos { x: p.x, y: (p.y + 1) % SNAKE_HEIGHT },
        Dir::Left => Pos { x: (p.x + SNAKE_WIDTH - 1) % SNAKE_WIDTH, y: p.y },
        Dir::Right => Pos { x: (p.x + 1) % SNAKE_WIDTH, y: p.y },
    }
}

impl Game {
    /// A fresh round: a three-cell snake in the middle heading right, and
    /// the food where `pick` puts it.
    pub fn new_with(best: u32, pick: usize) -> (g: Game)
        ensures
            g.wf(),
            g.snake@ == seq![Pos { x: 11, y: 7 }, Pos { x: 10, y: 7 }, Pos { x: 9, y: 7 }],
            g.dir == Dir::Right,
            g.food == placed(g.snake@, pick),
            !g.snake@.contains(g.food),
            g.score == 0 && g.best == best && g.phase == Phase::Running,
    {
        let mid_x = SNAKE_WIDTH / 2;
        let mid_y = SNAKE_HEIGHT / 2;
        let mut snake: Vec<Pos> = Vec::new();
        snake.push(Pos { x: mid_x, y: mid_y });
        snake.push(Pos { x: mid_x - 1, y: mid_y });
        snake.push(Pos { x: mid_x - 2, y: mid_y });
        let ghost corner = Pos { x: 0, y: 0 };
        assert(on_board(corner) && !snake@.contains(corner));
        let food = random_pos_with(snake.as_slice(), pick);
        Game { snake, dir: Dir::Right, food, score: 0, best, phase: Phase::Running }
    }

    /// A fresh round with the food drawn from the clock.
    pub fn new(best: u32) -> (g: Game)
        ensures
            g.wf(),
            g.snake@ == seq![Pos { x: 11, y: 7 }, Pos { x: 10, y: 7 }, Pos { x: 9, y: 7 }],
            g.dir == Dir::Right,
            !g.snake@.contains(g.food),
            g.score == 0 && g.best == best && g.phase == Phase::Running,
    {
        let now = system_now();
        let pick = nanos_since_epoch(&now);
        Game::new_with(best, pick)
    }

    /// Milliseconds until the next tick.
    pub fn tick_ms(&self) -> (r: u64)
        ensures
            r == tick_ms_of(self.score as int),
    {
        let t = START_TICK_MS.saturating_sub((self.score as u64) * 3);
        if t > MIN_TICK_MS {
            t
        } else {
            MIN_TICK_MS
        }
    }

    /// One tick with the food draw `pick`.
    #[verifier::spinoff_prover]
    pub fn tick_with(&mut self, pick: usize)
        requires
            old(self).wf(),
            eats(*old(self)) ==> old(self).score < u32::MAX,
        ensures
            final(self).wf(),
            ticked(*old(self), *final(self), pick),
    {
        if self.phase != Phase::Running {
            return;
        }
        let head = self.snake[0];
        let new_head = step_head(head, self.dir);
        if occupies(self.snake.as_slice(), new_head) {
            self.phase = Phase::Over;
            if self.score > self.best {
                self.best = self.score;
            }
            return;
        }
        let ghost before = self.snake@;
        self.snake.insert(0, new_head);
        assert(self.snake@ =~= seq![new_head] + before);
        assert(self.snake@.no_duplicates()) by {
            assert forall|i: int, j: int|
                0 <= i < self.snake@.len() && 0 <= j < self.snake@.len() && i != j implies
                self.snake@[i] != self.snake@[j] by {
                if i > 0 && j > 0 {
                    assert(self.snake@[i] == before[i - 1] && self.snake@[j] == before[j - 1]);
                } else if i == 0 {
                    assert(self.snake@[j] == before[j - 1]);
                } else {
                    assert(self.snake@[i] == before[i - 1]);
                }
            }
        }
        if new_head == self.food {
            self.score = self.score + 1;
            self.food = random_pos_with(self.snake.as_slice(), pick);
        } else {
            let ghost grown = self.snake@;
            self.snake.pop();
            assert(self.snake@ =~= grown.drop_last());
        }
    }

    /// One tick, with the food drawn from the clock.
    pub fn tick(&mut self)
        requires
            old(self).wf(),
            eats(*old(self)) ==> old(self).score < u32::MAX,
        ensures
            final(self).wf(),
            exists|pick: usize| ticked(*old(self), *final(self), pick),
    {
        let now = system_now();
        let pick = nanos_since_epoch(&now);
        self.tick_with(pick);
        assert(ticked(*old(self), *self, pick));
    }

    /// Whether the next tick eats the food.
    pub fn will_eat(&self) -> (r: bool)
        requires
            self.wf(),
        ensures
            r == eats(*self),
    {
        if self.phase != Phase::Running {
            return false;
        }
        let head = step_head(self.snake[0], self.dir);
        !occupies(self.snake.as_slice(), head) && head == self.food
    }

    /// Turns the snake, unless the turn would run it into its own neck.
    pub fn steer(&mut self, dir: Dir)
        ensures
            final(self).dir == steered(old(self).dir, dir),
            final(self).snake@ == old(self).snake@,
            final(self).food == old(self).food,
            final(self).score == old(self).score,
            final(self).best == old(self).best,
            final(self).phase == old(self).phase,
    {
        let current = self.dir;
        let opposite = (current == Dir::Up && dir == Dir::Down) || (current == Dir::Down && dir
            == Dir::Up) || (current == Dir::Left && dir == Dir::Right) || (current == Dir::Right
            && dir == Dir::Left);
        if !opposite {
            self.dir = dir;
        }
    }

    /// Applies a key press: steers, pauses or resumes, and says whether to
    /// go on, restart or quit.
    pub fn handle_key(&mut self, key: KeyInput) -> (r: KeyOutcome)
        ensures
            r == key_outcome(key, old(self).phase),
            final(self).phase == phase_after_key(key, old(self).phase),
            final(self).dir == dir_after_key(key, old(self).phase, old(self).dir),
            final(self).snake@ == old(self).snake@,
            final(self).food == old(self).food,
            final(self).score == old(self).score,
            final(self).best == old(self).best,
    {
        if key.release {
            return KeyOutcome::Continue;
        }
        let code = key.code;
        if code == KeyCodeInput::Char('q') || code == KeyCodeInput::Char('Q') || (code
            == KeyCodeInput::Char('c') && key.ctrl) {
            return KeyOutcome::Quit;
        }
        if code == KeyCodeInput::Char('p') || code == KeyCodeInput::Char('P') {
            if self.phase != Phase::Over {
                self.phase = if self.phase == Phase::Paused {
                    Phase::Running
                } else {
                    Phase::Paused
                };
            }
            return KeyOutcome::Continue;
        }
        if self.phase == Phase::Over && (code == KeyCodeInput::Char('r') || code
            == KeyCodeInput::Char('R') || code == KeyCodeInput::Enter) {
            return KeyOutcome::Restart;
        }
        if code == KeyCodeInput::Char('w') || code == KeyCodeInput::Char('W') || code
            == KeyCodeInput::Up {
            self.steer(Dir::Up);
        } else if code == KeyCodeInput::Char('s') || code == KeyCodeInput::Char('S') || code
            == KeyCodeInput::Down {
            self.steer(Dir::Down);
        } else if code == KeyCodeInput::Char('a') || code == KeyCodeInput::Char('A') || code
            == KeyCodeInput::Left {
            self.steer(Dir::Left);
        } else if code == KeyCodeInput::Char('d') || code == KeyCodeInput::Char('D') || code
            == KeyCodeInput::Right {
            self.steer(Dir::Right);
        }
        KeyOutcome::Continue
    }
}

/// Every tick keeps the snake on the board, free of repeated cells and at
/// least one cell long; the snake grows by exactly one cell when it eats and
/// keeps its length otherwise.
pub proof fn law_tick_keeps_snake_whole(old: Game, new: Game, pick: usize)
    requires
        old.wf(),
        ticked(old, new, pick),
        on_board(new.food),
    ensures
        new.wf(),
        new.score == old.score + 1 ==> new.snake@.len() == old.snake@.len() + 1,
        new.score == old.score ==> new.snake@.len() == old.snake@.len(),
{
    if old.phase == Phase::Running {
        let head = next_head(old.snake@[0], old.dir);
        assert(on_board(old.snake@[0]));
        assert(on_board(head));
        if !old.snake@.contains(head) {
            let grown = seq![head] + old.snake@;
            assert(grown.no_duplicates()) by {
                assert forall|i: int, j: int|
                    0 <= i < grown.len() && 0 <= j < grown.len() && i != j implies grown[i]
                    != grown[j] by {
                    if i > 0 && j > 0 {
                        assert(grown[i] == old.snake@[i - 1] && grown[j] == old.snake@[j - 1]);
                    } else if i == 0 {
                        assert(grown[j] == old.snake@[j - 1]);
                    } else {
                        assert(grown[i] == old.snake@[i - 1]);
                    }
                }
            }
            assert(all_on_board(grown)) by {
                assert forall|i: int| 0 <= i < grown.len() implies on_board(#[trigger] grown[i]) by {
                    if i > 0 {
                        assert(grown[i] == old.snake@[i - 1]);
                    }
                }
            }
        }
    }
}

/// How a cell of the board is drawn: the head, the body, the food, or empty.
pub open spec fn cell_text(g: Game, p: Pos) -> Seq<char> {
    if p == g.snake@[0] {
        "\x1b[1;92m@\x1b[0m"@
    } else if g.snake@.contains(p) {
        "\x1b[92mo\x1b[0m"@
    } else if p == g.food {
        "\x1b[1;91m*\x1b[0m"@
    } else {
        " "@
    }
}

/// The first `n` cells of row `y`.
pub open spec fn row_cells(g: Game, y: int, n: int) -> Seq<char>
    decreases n,
{
    if n <= 0 {
        Seq::empty()
    } else {
        row_cells(g, y, n - 1) + cell_text(g, Pos { x: (n - 1) as usize, y: y as usize })
    }
}

/// `s` left-aligned in five characters.
pub open spec fn left5(s: Seq<char>) -> Seq<char> {
    s + Seq::new((if s.len() < 5 { 5 - s.len() } else { 0 }) as nat, |i: int| ' ')
}

/// The horizontal bar of the border.
pub open spec fn hbar() -> Seq<char> {
    Seq::new((SNAKE_WIDTH + 2) as nat, |i: int| '─')
}

/// The lines of one frame, to print joined by line breaks: the title with
/// the best score, the score and the speed, a cleared line, the bordered
/// board, a cleared line, and the state's help, then a cleared line.
pub open spec fn frame_lines(g: Game) -> Seq<Seq<char>> {
    let best = if g.best > 0 { nat_text(g.best as nat) } else { "-"@ };
    let speed = START_TICK_MS * 100 / tick_ms_of(g.score as int);
    let header = "\x1b[1;96m~ niubash snake ~\x1b[0m  \x1b[1;93mHI "@ + left5(best) + "score "@ + left5(
        nat_text(g.score as nat),
    ) + "speed "@ + nat_text(speed as nat) + "%\x1b[0m\x1b[K"@;
    let board = Seq::new(
        SNAKE_HEIGHT as nat,
        |y: int| "  \x1b[90m│\x1b[0m "@ + row_cells(g, y, SNAKE_WIDTH as int) + " \x1b[90m│\x1b[0m\x1b[K"@,
    );
    let status = match g.phase {
        Phase::Over => "  \x1b[1;91mGAME OVER at "@ + nat_text(g.score as nat) + "!\x1b[0m \x1b[90mr restarts, q quits\x1b[0m\x1b[K"@,
        Phase::Paused => "  \x1b[1;93mpaused\x1b[0m \x1b[90mp resumes, q quits\x1b[0m\x1b[K"@,
        Phase::Running => "  \x1b[90mwasd/arrows move, p pause, q quit\x1b[0m\x1b[K"@,
    };
    seq![header, "\x1b[K"@, "  \x1b[90m┌"@ + hbar() + "┐\x1b[0m\x1b[K"@] + board + seq![
        "  \x1b[90m└"@ + hbar() + "┘\x1b[0m\x1b[K"@,
        "\x1b[K"@,
        status,
        "\x1b[K"@,
    ]
}

fn left_five(s: String) -> (r: String)
    ensures
        r@ == left5(s@),
{
    let n = s.as_str().unicode_len();
    let mut r = s;
    let mut k = n;
    while k < 5
        invariant
            n <= k <= 5 || (n > 5 && k == n),
            r@ == s@ + Seq::new((k - n) as nat, |i: int| ' '),
        decreases 5 - k,
    {
        crate::text::push_char(&mut r, ' ');
        assert(r@ =~= s@ + Seq::new((k + 1 - n) as nat, |i: int| ' '));
        k += 1;
    }
    assert(r@ =~= left5(s@));
    r
}

fn border_bar() -> (r: String)
    ensures
        r@ == hbar(),
{
    let mut r = String::new();
    let mut k: usize = 0;
    while k < SNAKE_WIDTH + 2
        invariant
            k <= SNAKE_WIDTH + 2,
            r@ == Seq::new(k as nat, |i: int| '─'),
        decreases SNAKE_WIDTH + 2 - k,
    {
        crate::text::push_char(&mut r, '─');
        assert(r@ =~= Seq::new((k + 1) as nat, |i: int| '─'));
        k += 1;
    }
    r
}

impl Game {
    /// The lines of the current frame, to print from the top of the screen
    /// joined by line breaks.
    #[verifier::spinoff_prover]
    #[verifier::rlimit(40)]
    pub fn frame(&self) -> (r: Vec<String>)
        requires
            self.wf(),
        ensures
            views(r@) == frame_lines(*self),
    {
        let best = if self.best > 0 {
            u64_text(self.best as u64)
        } else {
            owned("-")
        };
        let tick = self.tick_ms();
        let speed = START_TICK_MS * 100 / tick;
        let header = owned("\x1b[1;96m~ niubash snake ~\x1b[0m  \x1b[1;93mHI ").concat(left_five(best).as_str())
            .concat("score ").concat(left_five(u64_text(self.score as u64)).as_str()).concat("speed ").concat(
            u64_text(speed).as_str(),
        ).concat("%\x1b[0m\x1b[K");
        let bar = border_bar();
        let ghost best_v = if self.best > 0 { nat_text(self.best as nat) } else { "-"@ };
        assert(tick == tick_ms_of(self.score as int));
        assert(speed as int == START_TICK_MS * 100 / tick_ms_of(self.score as int));
        assert(header@ == "\x1b[1;96m~ niubash snake ~\x1b[0m  \x1b[1;93mHI "@ + left5(best_v) + "score "@ + left5(
            nat_text(self.score as nat),
        ) + "speed "@ + nat_text((START_TICK_MS * 100 / tick_ms_of(self.score as int)) as nat) + "%\x1b[0m\x1b[K"@);
        let mut out: Vec<String> = Vec::new();
        out.push(header);
        out.push(owned("\x1b[K"));
        out.push(owned("  \x1b[90m┌").concat(bar.as_str()).concat("┐\x1b[0m\x1b[K"));
        let ghost head = views(out@);
        let ghost board = Seq::new(
            SNAKE_HEIGHT as nat,
            |y: int| "  \x1b[90m│\x1b[0m "@ + row_cells(*self, y, SNAKE_WIDTH as int) + " \x1b[90m│\x1b[0m\x1b[K"@,
        );
        let mut y: usize = 0;
        while y < SNAKE_HEIGHT
            invariant
                y <= SNAKE_HEIGHT,
                self.wf(),
                board == Seq::new(
                    SNAKE_HEIGHT as nat,
                    |y: int| "  \x1b[90m│\x1b[0m "@ + row_cells(*self, y, SNAKE_WIDTH as int) + " \x1b[90m│\x1b[0m\x1b[K"@,
                ),
                views(out@) == head + board.subrange(0, y as int),
            decreases SNAKE_HEIGHT - y,
        {
            let mut cells = String::new();
            let mut x: usize = 0;
            while x < SNAKE_WIDTH
                invariant
                    x <= SNAKE_WIDTH,
                    y < SNAKE_HEIGHT,
                    self.wf(),
                    cells@ == row_cells(*self, y as int, x as int),
                decreases SNAKE_WIDTH - x,
            {
                let p = Pos { x, y };
                let piece = if p == self.snake[0] {
                    owned("\x1b[1;92m@\x1b[0m")
                } else if occupies(self.snake.as_slice(), p) {
                    owned("\x1b[92mo\x1b[0m")
                } else if p == self.food {
                    owned("\x1b[1;91m*\x1b[0m")
                } else {
                    owned(" ")
                };
                assert(piece@ == cell_text(*self, p));
                cells = cells.concat(piece.as_str());
                x += 1;
            }
            let line = owned("  \x1b[90m│\x1b[0m ").concat(cells.as_str()).concat(" \x1b[90m│\x1b[0m\x1b[K");
            let ghost before = views(out@);
            out.push(line);
            assert(views(out@) =~= before.push(line@));
            assert(views(out@) =~= head + board.subrange(0, y + 1));
            y += 1;
        }
        assert(board.subrange(0, SNAKE_HEIGHT as int) =~= board);
        let ghost mid = views(out@);
        let bottom = owned("  \x1b[90m└").concat(bar.as_str()).concat("┘\x1b[0m\x1b[K");
        let status = match self.phase {
            Phase::Over => owned("  \x1b[1;91mGAME OVER at ").concat(u64_text(self.score as u64).as_str()).concat(
                "!\x1b[0m \x1b[90mr restarts, q quits\x1b[0m\x1b[K",
            ),
            Phase::Paused => owned("  \x1b[1;93mpaused\x1b[0m \x1b[90mp resumes, q quits\x1b[0m\x1b[K"),
            Phase::Running => owned("  \x1b[90mwasd/arrows move, p pause, q quit\x1b[0m\x1b[K"),
        };
        out.push(bottom);
        out.push(owned("\x1b[K"));
        out.push(status);
        out.push(owned("\x1b[K"));
        assert(views(out@) =~= head + board + seq![bottom@, "\x1b[K"@, status@, "\x1b[K"@]);
        assert(views(out@) =~= frame_lines(*self));
        out
    }
}

} // verus!
