//! The game session and its state machine: lifecycle transitions, debounced
//! discrete inputs, the tick clock, snake movement, growth, and food
//! placement.

use vstd::prelude::*;

use crate::config::Config;
use crate::grid::{in_bounds, in_interior, is_opposite, opposite, step, step_spec, Cell, Direction};

verus! {

/// The coarse phase of a game session.
#[derive(Clone, Copy, PartialEq, Eq, Structural, Debug)]
pub enum State {
    Waiting,
    Ongoing,
    Paused,
    Dead,
}

/// What one `update` call did, for collaborators: whether the clock fired a
/// simulation step, whether the snake ate, and whether it died.
#[derive(Clone, Copy, PartialEq, Eq, Structural, Debug)]
pub struct TickEvents {
    pub moved: bool,
    pub ate: bool,
    pub died: bool,
}

/// A discrete key action (start, pause, restart) fires only when strictly
/// more than this many milliseconds have passed since the last accepted one,
/// so one held key fires a single transition.
pub const KEY_THRESHOLD_MS: u32 = 200;

/// A game session: the snake's body (tail first, head last), the food cell,
/// the pending direction, the lifecycle state, and the two time accumulators
/// (tick clock and key debounce). All mutation goes through the methods here;
/// renderers and audio read the snapshot getters.
pub struct GameState {
    cfg: Config,
    snake: Vec<Cell>,
    food: Cell,
    direction: Direction,
    acc_time: u32,
    state: State,
    key_interval: u32,
}

impl GameState {
    /// The session's configuration.
    pub closed spec fn cfg_spec(self) -> Config {
        self.cfg
    }

    /// The snake's body, tail first, head last.
    pub closed spec fn snake_spec(self) -> Seq<Cell> {
        self.snake@
    }

    /// The food cell.
    pub closed spec fn food_spec(self) -> Cell {
        self.food
    }

    /// The pending movement direction, applied at the next tick.
    pub closed spec fn direction_spec(self) -> Direction {
        self.direction
    }

    /// Milliseconds accumulated toward the next tick.
    pub closed spec fn acc_time_spec(self) -> u32 {
        self.acc_time
    }

    /// The lifecycle state.
    pub closed spec fn state_spec(self) -> State {
        self.state
    }

    /// Milliseconds since the last accepted discrete key action.
    pub closed spec fn key_interval_spec(self) -> u32 {
        self.key_interval
    }

    /// The snake's head cell.
    pub open spec fn head_spec(self) -> Cell {
        self.snake_spec().last()
    }

    /// The session invariant: a valid configuration, a nonempty snake whose
    /// cells all lie on the grid, and a food cell that lies strictly inside
    /// the outer ring and, as long as the session is not Dead, never
    /// coincides with any snake cell.
    pub open spec fn wf(self) -> bool {
        &&& self.cfg_spec().wf()
        &&& self.snake_spec().len() >= 1
        &&& forall|i: int|
            0 <= i < self.snake_spec().len() ==> in_bounds(
                #[trigger] self.snake_spec()[i],
                self.cfg_spec().tiles.0,
                self.cfg_spec().tiles.1,
            )
        &&& in_interior(self.food_spec(), self.cfg_spec().tiles.0, self.cfg_spec().tiles.1)
        &&& self.state_spec() != State::Dead ==> !self.snake_spec().contains(self.food_spec())
    }

    /// The spawn configuration for `cfg`: the fixed initial body on row 1,
    /// food on (5,5), direction Right, both accumulators at zero, Waiting.
    pub open spec fn is_spawn(self, cfg: Config) -> bool {
        &&& self.cfg_spec() == cfg
        &&& self.snake_spec() == seq![
            Cell { x: 1u16, y: 1u16 },
            Cell { x: 2u16, y: 1u16 },
            Cell { x: 3u16, y: 1u16 },
        ]
        &&& self.food_spec() == (Cell { x: 5u16, y: 5u16 })
        &&& self.direction_spec() == Direction::Right
        &&& self.acc_time_spec() == 0
        &&& self.state_spec() == State::Waiting
        &&& self.key_interval_spec() == 0
    }

    /// A fresh session in the spawn configuration.
    pub fn new(cfg: Config) -> (s: GameState)
        requires
            cfg.wf(),
        ensures
            s.is_spawn(cfg),
            s.wf(),
    {
        let mut snake: Vec<Cell> = Vec::new();
        snake.push(Cell { x: 1, y: 1 });
        snake.push(Cell { x: 2, y: 1 });
        snake.push(Cell { x: 3, y: 1 });
        let s = GameState {
            cfg,
            snake,
            food: Cell { x: 5, y: 5 },
            direction: Direction::Right,
            acc_time: 0,
            state: State::Waiting,
            key_interval: 0,
        };
        proof {
            assert(s.snake_spec() =~= seq![
                Cell { x: 1u16, y: 1u16 },
                Cell { x: 2u16, y: 1u16 },
                Cell { x: 3u16, y: 1u16 },
            ]);
            assert(!s.snake_spec().contains(s.food_spec()));
        }
        s
    }

    /// A direction intent. It only takes effect while the game is Ongoing,
    /// and the exact opposite of the pending direction is ignored, so the
    /// snake can never reverse into its own neck. Nothing else changes.
    pub fn handle_direction(&mut self, d: Direction)
        requires
            old(self).wf(),
        ensures
            final(self).wf(),
            final(self).direction_spec() == (
            if old(self).state_spec() == State::Ongoing && d != opposite(old(self).direction_spec()) {
                d
            } else {
                old(self).direction_spec()
            }),
            // Issuing the exact opposite direction never changes the pending
            // direction, in any state.
            d == opposite(old(self).direction_spec()) ==> final(self).direction_spec() == old(self).direction_spec(),
            final(self).cfg_spec() == old(self).cfg_spec(),
            final(self).snake_spec() == old(self).snake_spec(),
            final(self).food_spec() == old(self).food_spec(),
            final(self).acc_time_spec() == old(self).acc_time_spec(),
            final(self).state_spec() == old(self).state_spec(),
            final(self).key_interval_spec() == old(self).key_interval_spec(),
    {
        match self.state {
            State::Ongoing => {
                if !is_opposite(d, self.direction) {
                    self.direction = d;
                }
            },
            _ => {},
        }
    }

    /// Reinitializes every field to the spawn configuration in place.
    fn reset(&mut self)
        requires
            old(self).cfg_spec().wf(),
        ensures
            final(self).is_spawn(old(self).cfg_spec()),
            final(self).wf(),
    {
        self.snake.clear();
        self.snake.push(Cell { x: 1, y: 1 });
        self.snake.push(Cell { x: 2, y: 1 });
        self.snake.push(Cell { x: 3, y: 1 });
        self.food = Cell { x: 5, y: 5 };
        self.direction = Direction::Right;
        self.acc_time = 0;
        self.state = State::Waiting;
        self.key_interval = 0;
        proof {
            assert(self.snake_spec() =~= seq![
                Cell { x: 1u16, y: 1u16 },
                Cell { x: 2u16, y: 1u16 },
                Cell { x: 3u16, y: 1u16 },
            ]);
            assert(!self.snake_spec().contains(self.food_spec()));
        }
    }

    /// The debounced discrete key action. It fires only when more than
    /// `KEY_THRESHOLD_MS` have accumulated since the last accepted press;
    /// otherwise the session is left untouched. When it fires: Waiting and
    /// Paused start (or resume) the game, Ongoing pauses it, and Dead
    /// restarts the session at the spawn configuration. Returns whether a
    /// transition fired.
    pub fn handle_space(&mut self) -> (changed: bool)
        requires
            old(self).wf(),
        ensures
            final(self).wf(),
            final(self).cfg_spec() == old(self).cfg_spec(),
            changed == (old(self).key_interval_spec() > KEY_THRESHOLD_MS),
            !changed ==> *final(self) == *old(self),
            changed && (old(self).state_spec() == State::Waiting || old(self).state_spec() == State::Paused) ==> ({
                &&& final(self).state_spec() == State::Ongoing
                &&& final(self).key_interval_spec() == 0
                &&& final(self).snake_spec() == old(self).snake_spec()
                &&& final(self).food_spec() == old(self).food_spec()
                &&& final(self).direction_spec() == old(self).direction_spec()
                &&& final(self).acc_time_spec() == old(self).acc_time_spec()
            }),
            changed && old(self).state_spec() == State::Ongoing ==> ({
                &&& final(self).state_spec() == State::Paused
                &&& final(self).key_interval_spec() == 0
                &&& final(self).snake_spec() == old(self).snake_spec()
                &&& final(self).food_spec() == old(self).food_spec()
                &&& final(self).direction_spec() == old(self).direction_spec()
                &&& final(self).acc_time_spec() == old(self).acc_time_spec()
            }),
            changed && old(self).state_spec() == State::Dead ==> final(self).is_spawn(old(self).cfg_spec()),
    {
        if self.key_interval > KEY_THRESHOLD_MS {
            match self.state {
                State::Waiting | State::Paused => {
                    self.state = State::Ongoing;
                    self.key_interval = 0;
                },
                State::Ongoing => {
                    self.state = State::Paused;
                    self.key_interval = 0;
                },
                State::Dead => {
                    self.reset();
                },
            }
            true
        } else {
            false
        }
    }

    /// One frame of the session, given the milliseconds since the last frame.
    /// Both accumulators advance (saturating). When the tick clock reaches
    /// the configured interval it resets; if the session is Ongoing at that
    /// moment, one simulation step runs: the snake advances one wrap-step in
    /// the pending direction (tail first out, new head in), a move onto any
    /// remaining body cell ends the session, a move onto the food grows the
    /// body by one cell beyond the new head and relocates the food, and a
    /// session whose snake has outgrown the board's interior ends as well.
    /// Waiting, Paused and Dead sessions never move.
    pub fn update(&mut self, delta_ms: u32) -> (ev: TickEvents)
        requires
            old(self).wf(),
        ensures
            final(self).wf(),
            final(self).cfg_spec() == old(self).cfg_spec(),
            final(self).direction_spec() == old(self).direction_spec(),
            final(self).key_interval_spec() == old(self).key_interval_spec().saturating_add(delta_ms),
            ({
                let acc1 = old(self).acc_time_spec().saturating_add(delta_ms);
                let fired = acc1 >= old(self).cfg_spec().tick_ms;
                &&& final(self).acc_time_spec() == (if fired { 0u32 } else { acc1 })
                &&& ev.moved == (fired && old(self).state_spec() == State::Ongoing)
            }),
            !ev.moved ==> ({
                &&& final(self).snake_spec() == old(self).snake_spec()
                &&& final(self).food_spec() == old(self).food_spec()
                &&& final(self).state_spec() == old(self).state_spec()
                &&& ev.ate == false
                &&& ev.died == false
            }),
            ev.moved ==> ({
                let w = old(self).cfg_spec().tiles.0;
                let h = old(self).cfg_spec().tiles.1;
                let nh = step_spec(old(self).head_spec(), old(self).direction_spec(), w, h);
                let popped = old(self).snake_spec().drop_first();
                let collided = popped.contains(nh);
                let eats = !collided && nh == old(self).food_spec();
                &&& ev.died == (final(self).state_spec() == State::Dead)
                &&& ev.ate == eats
                &&& (collided ==> final(self).state_spec() == State::Dead
                    && final(self).snake_spec() == popped.push(nh)
                    && final(self).food_spec() == old(self).food_spec())
                &&& (eats ==> ({
                    let grown = popped.push(nh).push(step_spec(nh, old(self).direction_spec(), w, h));
                    &&& final(self).snake_spec() == grown
                    &&& ((exists|c: Cell| in_interior(c, w, h) && !grown.contains(c)) ==> ({
                        &&& final(self).state_spec() == State::Ongoing
                        &&& in_interior(final(self).food_spec(), w, h)
                        &&& !grown.contains(final(self).food_spec())
                    }))
                    &&& (!(exists|c: Cell| in_interior(c, w, h) && !grown.contains(c))
                        ==> final(self).state_spec() == State::Dead
                        && final(self).food_spec() == old(self).food_spec())
                }))
                &&& (!collided && !eats ==> final(self).state_spec() == State::Ongoing
                    && final(self).snake_spec() == popped.push(nh)
                    && final(self).food_spec() == old(self).food_spec())
                // A non-eating move never changes the body's length.
                &&& (!ev.ate ==> final(self).snake_spec().len() == old(self).snake_spec().len())
            }),
    {
        self.key_interval = self.key_interval.saturating_add(delta_ms);
        let acc1 = self.acc_time.saturating_add(delta_ms);
        let fired = acc1 >= self.cfg.tick_ms;
        if fired {
            self.acc_time = 0;
        } else {
            self.acc_time = acc1;
        }
        let is_ongoing = match self.state {
            State::Ongoing => true,
            _ => false,
        };
        if fired && is_ongoing {
            let ghost body0 = self.snake@;
            let head = self.snake[self.snake.len() - 1];
            let nh = step(head, self.direction, self.cfg.tiles.0, self.cfg.tiles.1);
            self.snake.remove(0);
            proof {
                assert(self.snake@ =~= body0.drop_first());
                assert forall|i: int| 0 <= i < self.snake@.len() implies in_bounds(
                    #[trigger] self.snake@[i],
                    self.cfg.tiles.0,
                    self.cfg.tiles.1,
                ) by {
                    assert(self.snake@[i] == body0[i + 1]);
                }
            }
            let collided = contains_cell(&self.snake, nh);
            self.snake.push(nh);
            if collided {
                self.state = State::Dead;
                TickEvents { moved: true, ate: false, died: true }
            } else if nh == self.food {
                self.grow_step();
                proof {
                    crate::grid::lemma_interior_step_no_wrap(
                        nh,
                        self.direction,
                        self.cfg.tiles.0,
                        self.cfg.tiles.1,
                    );
                }
                let placed = self.place_food();
                if placed {
                    TickEvents { moved: true, ate: true, died: false }
                } else {
                    self.state = State::Dead;
                    TickEvents { moved: true, ate: true, died: true }
                }
            } else {
                proof {
                    lemma_not_in_popped(body0, self.food);
                }
                TickEvents { moved: true, ate: false, died: false }
            }
        } else {
            TickEvents { moved: false, ate: false, died: false }
        }
    }

    /// Read-only snapshot: the snake's body, tail first, head last.
    pub fn snake_cells(&self) -> (r: &Vec<Cell>)
        ensures
            r@ == self.snake_spec(),
    {
        &self.snake
    }

    /// Read-only snapshot: the food cell.
    pub fn food(&self) -> (r: Cell)
        ensures
            r == self.food_spec(),
    {
        self.food
    }

    /// Read-only snapshot: the lifecycle state.
    pub fn lifecycle(&self) -> (r: State)
        ensures
            r == self.state_spec(),
    {
        self.state
    }

    /// Read-only snapshot: the pending direction.
    pub fn direction(&self) -> (r: Direction)
        ensures
            r == self.direction_spec(),
    {
        self.direction
    }

    /// Read-only snapshot: the session's configuration.
    pub fn config(&self) -> (r: Config)
        ensures
            r == self.cfg_spec(),
    {
        self.cfg
    }

    /// Appends one new head extending the body one step further in the
    /// pending direction. Invoked only right after the snake ate, so the old
    /// head sits on the food's interior cell and the extension cannot leave
    /// the grid.
    fn grow_step(&mut self)
        requires
            old(self).cfg_spec().wf(),
            old(self).snake_spec().len() >= 1,
            in_interior(old(self).head_spec(), old(self).cfg_spec().tiles.0, old(self).cfg_spec().tiles.1),
        ensures
            final(self).cfg_spec() == old(self).cfg_spec(),
            final(self).snake_spec() == old(self).snake_spec().push(
                step_spec(old(self).head_spec(), old(self).direction_spec(), old(self).cfg_spec().tiles.0, old(self).cfg_spec().tiles.1),
            ),
            final(self).food_spec() == old(self).food_spec(),
            final(self).direction_spec() == old(self).direction_spec(),
            final(self).acc_time_spec() == old(self).acc_time_spec(),
            final(self).state_spec() == old(self).state_spec(),
            final(self).key_interval_spec() == old(self).key_interval_spec(),
    {
        let head = self.snake[self.snake.len() - 1];
        let ext = match self.direction {
            Direction::Right => Cell { x: head.x + 1, y: head.y },
            Direction::Down => Cell { x: head.x, y: head.y + 1 },
            Direction::Left => Cell { x: head.x - 1, y: head.y },
            Direction::Up => Cell { x: head.x, y: head.y - 1 },
        };
        self.snake.push(ext);
    }

    /// Relocates the food onto a free interior cell, rejection-sampling
    /// uniformly random interior cells first and falling back to a scan of
    /// the whole interior, so the search always ends. Succeeds exactly when
    /// some interior cell is free of the snake; when none is (the snake has
    /// outgrown the board) the food is left where it was and the caller ends
    /// the session.
    fn place_food(&mut self) -> (placed: bool)
        requires
            old(self).cfg_spec().wf(),
        ensures
            final(self).cfg_spec() == old(self).cfg_spec(),
            final(self).snake_spec() == old(self).snake_spec(),
            final(self).direction_spec() == old(self).direction_spec(),
            final(self).acc_time_spec() == old(self).acc_time_spec(),
            final(self).state_spec() == old(self).state_spec(),
            final(self).key_interval_spec() == old(self).key_interval_spec(),
            placed == exists|c: Cell|
                in_interior(c, old(self).cfg_spec().tiles.0, old(self).cfg_spec().tiles.1)
                    && !old(self).snake_spec().contains(c),
            placed ==> in_interior(final(self).food_spec(), final(self).cfg_spec().tiles.0, final(self).cfg_spec().tiles.1)
                && !final(self).snake_spec().contains(final(self).food_spec()),
            !placed ==> final(self).food_spec() == old(self).food_spec(),
    {
        let width = self.cfg.tiles.0;
        let height = self.cfg.tiles.1;
        let mut tries: u32 = 0;
        while tries < 64
            invariant
                *self == *old(self),
                self.cfg_spec().wf(),
                width == self.cfg_spec().tiles.0,
                height == self.cfg_spec().tiles.1,
            decreases 64 - tries,
        {
            let x = rand_range_u16(1, width - 1);
            let y = rand_range_u16(1, height - 1);
            let sample = Cell { x, y };
            if !contains_cell(&self.snake, sample) {
                proof {
                    assert(in_interior(sample, width, height) && !old(self).snake_spec().contains(sample));
                }
                self.food = sample;
                return true;
            }
            tries = tries + 1;
        }
        let mut y: u16 = 1;
        while y < height - 1
            invariant
                *self == *old(self),
                self.cfg_spec().wf(),
                width == self.cfg_spec().tiles.0,
                height == self.cfg_spec().tiles.1,
                1 <= y <= height - 1,
                forall|c: Cell| in_interior(c, width, height) && c.y < y ==> self.snake@.contains(c),
            decreases height - 1 - y,
        {
            let mut x: u16 = 1;
            while x < width - 1
                invariant
                    *self == *old(self),
                    self.cfg_spec().wf(),
                    width == self.cfg_spec().tiles.0,
                    height == self.cfg_spec().tiles.1,
                    1 <= y < height - 1,
                    1 <= x <= width - 1,
                    forall|c: Cell| in_interior(c, width, height) && c.y < y ==> self.snake@.contains(c),
                    forall|c: Cell|
                        in_interior(c, width, height) && c.y == y && c.x < x
                            ==> self.snake@.contains(c),
                decreases width - 1 - x,
            {
                let sample = Cell { x, y };
                if !contains_cell(&self.snake, sample) {
                    proof {
                        assert(in_interior(sample, width, height) && !old(self).snake_spec().contains(sample));
                    }
                    self.food = sample;
                    return true;
                }
                x = x + 1;
            }
            y = y + 1;
        }
        proof {
            assert forall|c: Cell|
                in_interior(c, width, height) implies self.snake@.contains(c) by {
                assert(c.y < height - 1);
            }
        }
        false
    }
}

/// The session invariants, spelled out: in every reachable session the snake's
/// cells and the food all lie on the grid, and outside the Dead state the food
/// never coincides with any snake cell (so in particular never while Ongoing).
/// Every constructor and method of `GameState` establishes or preserves `wf`,
/// so this holds of every session the library hands out.
pub proof fn lemma_session_invariants(s: GameState)
    requires
        s.wf(),
    ensures
        forall|i: int|
            0 <= i < s.snake_spec().len() ==> in_bounds(
                #[trigger] s.snake_spec()[i],
                s.cfg_spec().tiles.0,
                s.cfg_spec().tiles.1,
            ),
        in_bounds(s.food_spec(), s.cfg_spec().tiles.0, s.cfg_spec().tiles.1),
        s.state_spec() != State::Dead ==> !s.snake_spec().contains(s.food_spec()),
{
}

/// Restarting lands in one fixed spawn configuration: any two sessions in the
/// spawn state for the same configuration agree on every observable part, no
/// matter how the games that preceded them went. Together with `handle_space`
/// on a Dead session ensuring `is_spawn`, a restart from Dead always yields
/// the identical spawn: body (1,1),(2,1),(3,1), food (5,5), direction Right.
pub proof fn lemma_spawn_deterministic(a: GameState, b: GameState, cfg: Config)
    requires
        a.is_spawn(cfg),
        b.is_spawn(cfg),
    ensures
        a.snake_spec() == b.snake_spec(),
        a.snake_spec() == seq![
            Cell { x: 1u16, y: 1u16 },
            Cell { x: 2u16, y: 1u16 },
            Cell { x: 3u16, y: 1u16 },
        ],
        a.food_spec() == b.food_spec() && a.food_spec() == (Cell { x: 5u16, y: 5u16 }),
        a.direction_spec() == b.direction_spec() && a.direction_spec() == Direction::Right,
        a.state_spec() == b.state_spec() && a.state_spec() == State::Waiting,
        a.acc_time_spec() == b.acc_time_spec(),
        a.key_interval_spec() == b.key_interval_spec(),
{
}

/// A cell that occurs nowhere in a body does not occur in the body with its
/// tail popped either.
proof fn lemma_not_in_popped(body: Seq<Cell>, c: Cell)
    requires
        body.len() >= 1,
        !body.contains(c),
    ensures
        !body.drop_first().contains(c),
{
    assert forall|i: int| 0 <= i < body.drop_first().len() implies body.drop_first()[i] != c by {
        assert(body.drop_first()[i] == body[i + 1]);
    }
}

/// Whether `c` occurs among the cells of `v`.
fn contains_cell(v: &Vec<Cell>, c: Cell) -> (r: bool)
    ensures
        r == v@.contains(c),
{
    let mut i: usize = 0;
    while i < v.len()
        invariant
            0 <= i <= v@.len(),
            forall|j: int| 0 <= j < i ==> v@[j] != c,
        decreases v@.len() - i,
    {
        if v[i] == c {
            return true;
        }
        i = i + 1;
    }
    false
}

/// Relies on rand::Rng::gen_range through rand::thread_rng, on a half-open
/// integer range: the sample always lies within the range, and the call
/// panics only on an empty range, which the precondition rules out. Nothing
/// more is assumed of the draw.
#[verifier::external_body]
fn rand_range_u16(lo: u16, hi: u16) -> (r: u16)
    requires
        lo < hi,
    ensures
        lo <= r < hi,
{
    rand::Rng::gen_range(&mut rand::thread_rng(), lo..hi)
}

} // verus!
