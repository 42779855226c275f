//! The snake game state machine: movement, collisions, growth and food
//! placement on a fixed grid.
use crate::ledger::{recorded, sorted_desc, DataConfig, MAX_ENTRIES};
use std::collections::VecDeque;
use vstd::prelude::*;
use vstd::set_lib::{lemma_int_range, lemma_len_subset, set_int_range};

verus! {

/// Columns of the grid.
pub const WIDTH: u16 = 30;

/// Rows of the grid.
pub const HEIGHT: u16 = 20;

/// Random draws that food placement tries before it scans the grid for a
/// free cell.
pub const FOOD_DRAWS: u32 = 64;

/// A cell of the grid, as (column, row).
pub type Pos = (u16, u16);

/// The way the chain's head moves on each tick.
#[derive(Clone, Copy, Debug, PartialEq, Eq, Structural)]
pub enum Direction {
    Up,
    Down,
    Left,
    Right,
}

/// `a` and `b` point in exactly opposite directions.
pub open spec fn opposite(a: Direction, b: Direction) -> bool {
    match (a, b) {
        (Direction::Up, Direction::Down) => true,
        (Direction::Down, Direction::Up) => true,
        (Direction::Left, Direction::Right) => true,
        (Direction::Right, Direction::Left) => true,
        _ => false,
    }
}

/// Tells whether `a` and `b` point in exactly opposite directions.
pub fn is_opposite(a: Direction, b: Direction) -> (r: bool)
    ensures
        r == opposite(a, b),
{
    match (a, b) {
        (Direction::Up, Direction::Down) | (Direction::Down, Direction::Up) | (
            Direction::Left,
            Direction::Right,
        ) | (Direction::Right, Direction::Left) => true,
        _ => false,
    }
}

/// `p` is a cell of the grid.
pub open spec fn in_bounds(p: Pos) -> bool {
    p.0 < WIDTH && p.1 < HEIGHT
}

/// The cell one step from `p` in direction `d`. A step up or left from
/// row or column 0 stays at 0; a step right or down may leave the grid.
pub open spec fn next_head(p: Pos, d: Direction) -> Pos {
    match d {
        Direction::Up => (p.0, if p.1 == 0 { 0u16 } else { (p.1 - 1) as u16 }),
        Direction::Down => (p.0, (p.1 + 1) as u16),
        Direction::Left => (if p.0 == 0 { 0u16 } else { (p.0 - 1) as u16 }, p.1),
        Direction::Right => ((p.0 + 1) as u16, p.1),
    }
}

/// Moves `p` one cell in direction `d`, clamping at 0.
pub fn step(p: Pos, d: Direction) -> (r: Pos)
    requires
        in_bounds(p),
    ensures
        r == next_head(p, d),
{
    match d {
        Direction::Up => (p.0, p.1.saturating_sub(1)),
        Direction::Down => (p.0, p.1 + 1),
        Direction::Left => (p.0.saturating_sub(1), p.1),
        Direction::Right => (p.0 + 1, p.1),
    }
}

/// Every cell of the grid is in `s`.
pub open spec fn covers_grid(s: Seq<Pos>) -> bool {
    forall|p: Pos| in_bounds(p) ==> s.contains(p)
}

/// A chain of distinct cells of the grid has at most `WIDTH * HEIGHT`
/// of them.
pub proof fn lemma_chain_fits(s: Seq<Pos>)
    requires
        s.no_duplicates(),
        forall|i: int| 0 <= i < s.len() ==> in_bounds(#[trigger] s[i]),
    ensures
        s.len() <= WIDTH * HEIGHT,
{
    let t = s.map_values(|p: Pos| p.1 as int * WIDTH as int + p.0 as int);
    assert forall|i: int, j: int| 0 <= i < t.len() && 0 <= j < t.len() && i != j implies t[i]
        != t[j] by {
        assert(in_bounds(s[i]) && in_bounds(s[j]));
        assert(s[i] != s[j]);
    }
    t.unique_seq_to_set();
    let r = set_int_range(0, WIDTH * HEIGHT);
    lemma_int_range(0, WIDTH * HEIGHT);
    assert forall|v: int| t.to_set().contains(v) implies r.contains(v) by {
        let i = choose|i: int| 0 <= i < t.len() && t[i] == v;
        assert(in_bounds(s[i]));
    }
    lemma_len_subset(t.to_set(), r);
}

/// Tells whether `p` is one of the cells of `snake`.
pub fn occupies(snake: &VecDeque<Pos>, p: Pos) -> (r: bool)
    ensures
        r == snake@.contains(p),
{
    let mut i: usize = 0;
    while i < snake.len()
        invariant
            i <= snake@.len(),
            forall|j: int| 0 <= j < i ==> snake@[j] != p,
        decreases snake@.len() - i,
    {
        if snake[i].0 == p.0 && snake[i].1 == p.1 {
            return true;
        }
        i = i + 1;
    }
    false
}

/// Relies on rand::rng and Rng::random_range: a value drawn from
/// `0..bound`; random_range panics on an empty range, hence `bound > 0`.
#[verifier::external_body]
fn random_below(bound: u16) -> (r: u16)
    requires
        bound > 0,
    ensures
        r < bound,
{
    rand::Rng::random_range(&mut rand::rng(), 0..bound)
}

/// Picks a free cell for the food: a few random draws, then a scan of the
/// grid, so that it ends even when almost every cell is taken. `None`
/// exactly when the chain covers the grid.
pub fn generate_food(snake: &VecDeque<Pos>) -> (r: Option<Pos>)
    ensures
        match r {
            Some(p) => in_bounds(p) && !snake@.contains(p),
            None => covers_grid(snake@),
        },
{
    let mut tries: u32 = 0;
    while tries < FOOD_DRAWS
        invariant
            tries <= FOOD_DRAWS,
        decreases FOOD_DRAWS - tries,
    {
        let p = (random_below(WIDTH), random_below(HEIGHT));
        if !occupies(snake, p) {
            return Some(p);
        }
        tries = tries + 1;
    }
    let mut y: u16 = 0;
    while y < HEIGHT
        invariant
            y <= HEIGHT,
            forall|p: Pos| in_bounds(p) && p.1 < y ==> snake@.contains(p),
        decreases HEIGHT - y,
    {
        let mut x: u16 = 0;
        while x < WIDTH
            invariant
                y < HEIGHT,
                x <= WIDTH,
                forall|p: Pos| in_bounds(p) && p.1 < y ==> snake@.contains(p),
                forall|p: Pos| p.1 == y && p.0 < x ==> snake@.contains(p),
            decreases WIDTH - x,
        {
            if !occupies(snake, (x, y)) {
                return Some((x, y));
            }
            x = x + 1;
        }
        y = y + 1;
    }
    None
}

/// What a game is: the chain (head first), the food, the direction, the
/// score, whether it is over, and the ledger's scores.
pub struct GameState {
    pub snake: Seq<Pos>,
    pub food: Pos,
    pub direction: Direction,
    pub score: u32,
    pub over: bool,
    pub scores: Seq<u32>,
}

impl GameState {
    /// The chain is non-empty, inside the grid and free of repeats; the
    /// score is below its length; while the game runs the food lies on a
    /// free cell of the grid; the ledger is descending and at most ten long.
    pub open spec fn wf(self) -> bool {
        &&& self.snake.len() >= 1
        &&& forall|i: int| 0 <= i < self.snake.len() ==> in_bounds(#[trigger] self.snake[i])
        &&& self.snake.no_duplicates()
        &&& (self.score as int) < self.snake.len()
        &&& !self.over ==> in_bounds(self.food) && !self.snake.contains(self.food)
        &&& sorted_desc(self.scores)
        &&& self.scores.len() <= MAX_ENTRIES
    }

    /// The cell the head moves to on the next tick.
    pub open spec fn candidate(self) -> Pos {
        next_head(self.snake[0], self.direction)
    }

    /// The next tick ends the game: the candidate head is off the grid or
    /// on the chain.
    pub open spec fn collides(self) -> bool {
        !in_bounds(self.candidate()) || self.snake.contains(self.candidate())
    }

    /// The next tick eats the food.
    pub open spec fn eats(self) -> bool {
        !self.over && !self.collides() && self.candidate() == self.food
    }

    /// The state after a request to turn to `d`: ignored when `d` is the
    /// reverse of the current direction.
    pub open spec fn turned(self, d: Direction) -> GameState {
        GameState {
            direction: if opposite(self.direction, d) { self.direction } else { d },
            ..self
        }
    }

    /// `t` may follow `self` by one tick. The new food cell is chosen at
    /// random, so any free cell of the grid may follow a meal.
    pub open spec fn ticked(self, t: GameState) -> bool {
        let h = self.candidate();
        if self.over {
            t == self
        } else if self.collides() {
            t == GameState { over: true, scores: recorded(self.scores, self.score), ..self }
        } else if h == self.food {
            &&& t.snake == seq![h] + self.snake
            &&& t.score == self.score + 1
            &&& t.direction == self.direction
            &&& if t.over {
                &&& covers_grid(t.snake)
                &&& t.food == self.food
                &&& t.scores == recorded(self.scores, t.score)
            } else {
                &&& in_bounds(t.food)
                &&& !t.snake.contains(t.food)
                &&& t.scores == self.scores
            }
        } else {
            t == GameState { snake: seq![h] + self.snake.drop_last(), ..self }
        }
    }
}

/// A game session.
pub struct Game {
    snake: VecDeque<Pos>,
    food: Pos,
    direction: Direction,
    score: u32,
    game_over: bool,
    data_config: DataConfig,
}

impl View for Game {
    type V = GameState;

    closed spec fn view(&self) -> GameState {
        GameState {
            snake: self.snake@,
            food: self.food,
            direction: self.direction,
            score: self.score,
            over: self.game_over,
            scores: self.data_config.scores@,
        }
    }
}

impl Game {
    /// See [`GameState::wf`].
    pub open spec fn wf(&self) -> bool {
        self@.wf()
    }

    /// A running game with a one-cell chain at the centre of the grid,
    /// heading right, score 0, food on another cell, and the given ledger.
    pub fn new(data_config: DataConfig) -> (r: Game)
        requires
            data_config.wf(),
        ensures
            r.wf(),
            r@.snake == seq![(WIDTH / 2, HEIGHT / 2)],
            r@.direction == Direction::Right,
            r@.score == 0,
            !r@.over,
            r@.scores == data_config.scores@,
    {
        let mut snake: VecDeque<Pos> = VecDeque::new();
        snake.push_back((WIDTH / 2, HEIGHT / 2));
        let food = match generate_food(&snake) {
            Some(f) => f,
            None => {
                proof {
                    assert(in_bounds((0u16, 0u16)));
                    assert(snake@.contains((0u16, 0u16)));
                    assert(snake@[0] == (WIDTH / 2, HEIGHT / 2));
                }
                (0, 0)
            },
        };
        let g = Game { snake, food, direction: Direction::Right, score: 0, game_over: false, data_config };
        proof {
            assert(g@.snake.contains(g@.food) ==> g@.snake[0] == g@.food);
        }
        g
    }

    /// Turns to `direction`, unless it is the reverse of the current one,
    /// in which case nothing changes.
    pub fn change_direction(&mut self, direction: Direction)
        ensures
            final(self)@ == old(self)@.turned(direction),
            old(self).wf() ==> final(self).wf(),
    {
        if !is_opposite(self.direction, direction) {
            self.direction = direction;
        }
    }

    /// Advances one tick. The game ends when the head would leave the grid
    /// or land on the chain (a step up or left from 0 stays on the head's
    /// own cell, so it lands on the chain), or when a meal leaves no free
    /// cell for the food. Returns whether this tick ended the game, in
    /// which case the score was recorded in the ledger and the ledger is to
    /// be stored.
    pub fn update(&mut self) -> (ended: bool)
        requires
            old(self).wf(),
        ensures
            final(self).wf(),
            old(self)@.ticked(final(self)@),
            ended == (final(self)@.over && !old(self)@.over),
    {
        if self.game_over {
            return false;
        }
        let ghost s = self@;
        let new_head = step(self.snake[0], self.direction);
        if new_head.0 >= WIDTH || new_head.1 >= HEIGHT || occupies(&self.snake, new_head) {
            self.game_over = true;
            self.data_config.record(self.score);
            proof {
                assert(self@ == GameState { over: true, scores: recorded(s.scores, s.score), ..s });
                lemma_tick_keeps_wf(s, self@);
            }
            return true;
        }
        self.snake.push_front(new_head);
        if new_head.0 == self.food.0 && new_head.1 == self.food.1 {
            proof {
                lemma_chain_fits(s.snake);
            }
            self.score = self.score + 1;
            match generate_food(&self.snake) {
                Some(f) => {
                    self.food = f;
                },
                None => {
                    self.game_over = true;
                    self.data_config.record(self.score);
                    proof {
                        lemma_tick_keeps_wf(s, self@);
                    }
                    return true;
                },
            }
        } else {
            self.snake.pop_back();
            proof {
                assert(self@.snake =~= seq![new_head] + s.snake.drop_last());
                assert(self@ == GameState { snake: seq![new_head] + s.snake.drop_last(), ..s });
            }
        }
        proof {
            lemma_tick_keeps_wf(s, self@);
        }
        false
    }

    /// A running game in the given position, with score 0; `None` unless
    /// the chain is non-empty, on the grid and free of repeats, the food is
    /// on a free cell of the grid, and the ledger is well formed.
    pub fn from_parts(snake: Vec<Pos>, food: Pos, direction: Direction, data_config: DataConfig) -> (r:
        Option<Game>)
        ensures
            r is Some <==> {
                &&& snake@.len() >= 1
                &&& forall|i: int| 0 <= i < snake@.len() ==> in_bounds(#[trigger] snake@[i])
                &&& snake@.no_duplicates()
                &&& in_bounds(food)
                &&& !snake@.contains(food)
                &&& data_config.wf()
            },
            r matches Some(g) ==> g.wf() && g@ == (GameState {
                snake: snake@,
                food,
                direction,
                score: 0,
                over: false,
                scores: data_config.scores@,
            }),
    {
        if snake.len() == 0 || food.0 >= WIDTH || food.1 >= HEIGHT || !data_config.is_wf() {
            return None;
        }
        let mut chain: VecDeque<Pos> = VecDeque::new();
        let mut i: usize = 0;
        while i < snake.len()
            invariant
                i <= snake@.len(),
                chain@ == snake@.take(i as int),
                forall|k: int| 0 <= k < i ==> in_bounds(#[trigger] snake@[k]),
                forall|k: int, j: int| 0 <= k < j < i ==> snake@[k] != snake@[j],
            decreases snake@.len() - i,
        {
            let p = snake[i];
            if p.0 >= WIDTH || p.1 >= HEIGHT || occupies(&chain, p) {
                proof {
                    if chain@.contains(p) {
                        let k = choose|k: int| 0 <= k < chain@.len() && chain@[k] == p;
                        assert(snake@[k] == snake@[i as int]);
                    }
                }
                return None;
            }
            chain.push_back(p);
            proof {
                assert(chain@ =~= snake@.take(i + 1));
                assert forall|k: int, j: int| 0 <= k < j < i + 1 implies snake@[k] != snake@[j] by {
                    if j == i {
                        assert(chain@[k] == snake@[k]);
                    }
                }
            }
            i = i + 1;
        }
        assert(chain@ =~= snake@);
        if occupies(&chain, food) {
            return None;
        }
        Some(Game { snake: chain, food, direction, score: 0, game_over: false, data_config })
    }

    /// The chain, head first.
    pub fn snake(&self) -> (r: &VecDeque<Pos>)
        ensures
            r@ == self@.snake,
    {
        &self.snake
    }

    /// The food's cell.
    pub fn food(&self) -> (r: Pos)
        ensures
            r == self@.food,
    {
        self.food
    }

    /// The current direction.
    pub fn direction(&self) -> (r: Direction)
        ensures
            r == self@.direction,
    {
        self.direction
    }

    /// Food eaten so far.
    pub fn score(&self) -> (r: u32)
        ensures
            r == self@.score,
    {
        self.score
    }

    /// Whether the game has ended: by a collision, or by a full grid.
    pub fn is_over(&self) -> (r: bool)
        ensures
            r == self@.over,
    {
        self.game_over
    }

    /// The high-score ledger.
    pub fn data_config(&self) -> (r: &DataConfig)
        ensures
            r.scores@ == self@.scores,
    {
        &self.data_config
    }
}

/// A tick keeps a game well formed: in particular the chain never holds a
/// cell twice, and the head stays on the grid.
pub proof fn lemma_tick_keeps_wf(s: GameState, t: GameState)
    requires
        s.wf(),
        s.ticked(t),
    ensures
        t.wf(),
{
    if !s.over && !s.collides() {
        let h = s.candidate();
        crate::ledger::lemma_recorded_wf(s.scores, (s.score + 1) as u32);
        if h == s.food {
            lemma_chain_fits(s.snake);
            assert forall|i: int| 0 <= i < t.snake.len() implies in_bounds(#[trigger] t.snake[i]) by {
                if i > 0 {
                    assert(t.snake[i] == s.snake[i - 1]);
                }
            }
            assert forall|i: int, j: int| 0 <= i < j < t.snake.len() implies t.snake[i] != t.snake[j] by {
                assert(t.snake[j] == s.snake[j - 1]);
                if i > 0 {
                    assert(t.snake[i] == s.snake[i - 1]);
                }
            }
        } else {
            let rest = s.snake.drop_last();
            assert forall|i: int| 0 <= i < t.snake.len() implies in_bounds(#[trigger] t.snake[i]) by {
                if i > 0 {
                    assert(t.snake[i] == s.snake[i - 1]);
                }
            }
            assert forall|i: int, j: int| 0 <= i < j < t.snake.len() implies t.snake[i] != t.snake[j] by {
                assert(t.snake[j] == s.snake[j - 1]);
                if i > 0 {
                    assert(t.snake[i] == s.snake[i - 1]);
                }
            }
            if t.snake.contains(t.food) {
                let i = choose|i: int| 0 <= i < t.snake.len() && t.snake[i] == t.food;
                if i > 0 {
                    assert(t.snake[i] == s.snake[i - 1]);
                }
            }
        }
    } else if !s.over {
        crate::ledger::lemma_recorded_wf(s.scores, s.score);
    }
}

/// `t` may follow `s` by one request: `Some(d)` asks to turn to `d`,
/// `None` is a tick.
pub open spec fn stepped(s: GameState, t: GameState, m: Option<Direction>) -> bool {
    match m {
        Some(d) => t == s.turned(d),
        None => s.ticked(t),
    }
}

/// `states` is a run of a game under `moves`: each state follows the one
/// before it by the move between them.
pub open spec fn is_run(states: Seq<GameState>, moves: Seq<Option<Direction>>) -> bool {
    &&& states.len() == moves.len() + 1
    &&& forall|i: int| 0 <= i < moves.len() ==> stepped(states[i], states[i + 1], moves[i])
}

/// How many of the first `n` moves of a run were ticks that ate the food.
pub open spec fn meals(states: Seq<GameState>, moves: Seq<Option<Direction>>, n: int) -> nat
    decreases n,
{
    if n <= 0 {
        0
    } else {
        meals(states, moves, n - 1) + if moves[n - 1] is None && states[n - 1].eats() {
            1nat
        } else {
            0nat
        }
    }
}

proof fn lemma_run_prefix(states: Seq<GameState>, moves: Seq<Option<Direction>>, n: int)
    requires
        is_run(states, moves),
        states[0].wf(),
        0 <= n <= moves.len(),
    ensures
        states[n].wf(),
        !states[n].over ==> states[n].snake.len() == states[0].snake.len() + meals(
            states,
            moves,
            n,
        ),
    decreases n,
{
    if n > 0 {
        lemma_run_prefix(states, moves, n - 1);
        let s = states[n - 1];
        let t = states[n];
        assert(stepped(s, t, moves[n - 1]));
        if moves[n - 1] is None {
            lemma_tick_keeps_wf(s, t);
        }
    }
}

/// Along any run of turns and ticks from a well-formed game, every state
/// is well formed: the chain never holds a cell twice, so the head never
/// meets another segment without a real collision.
pub proof fn lemma_run_keeps_wf(states: Seq<GameState>, moves: Seq<Option<Direction>>)
    requires
        is_run(states, moves),
        states[0].wf(),
    ensures
        forall|i: int| 0 <= i < states.len() ==> (#[trigger] states[i]).wf(),
{
    assert forall|i: int| 0 <= i < states.len() implies (#[trigger] states[i]).wf() by {
        lemma_run_prefix(states, moves, i);
    }
}

/// Along a run that has not ended, the chain has grown by exactly one
/// segment per food eaten.
pub proof fn lemma_run_growth(states: Seq<GameState>, moves: Seq<Option<Direction>>)
    requires
        is_run(states, moves),
        states[0].wf(),
        !states.last().over,
    ensures
        states.last().snake.len() == states[0].snake.len() + meals(
            states,
            moves,
            moves.len() as int,
        ),
{
    lemma_run_prefix(states, moves, moves.len() as int);
}

/// After a tick that leaves the game running, the food lies on the grid
/// and off the chain.
pub proof fn lemma_food_clear_after_tick(s: GameState, t: GameState)
    requires
        s.wf(),
        s.ticked(t),
        !t.over,
    ensures
        in_bounds(t.food),
        !t.snake.contains(t.food),
{
    lemma_tick_keeps_wf(s, t);
}

/// A request to reverse the current direction changes nothing.
pub proof fn lemma_reversal_ignored(s: GameState, d: Direction)
    requires
        opposite(s.direction, d),
    ensures
        s.turned(d) == s,
{
}

/// Tick pacing: the interval at score 0, in milliseconds.
pub const BASE_INTERVAL_MS: u64 = 150;

/// Tick pacing: how much shorter the interval gets per point scored.
pub const SPEED_STEP_MS: u64 = 5;

/// Tick pacing: the shortest interval.
pub const MIN_INTERVAL_MS: u64 = 50;

/// Milliseconds between ticks at `score`: 150, less 5 per point, and never
/// below 50.
pub fn tick_interval_ms(score: u32) -> (ms: u64)
    ensures
        ms as int == if BASE_INTERVAL_MS - SPEED_STEP_MS * score > MIN_INTERVAL_MS {
            BASE_INTERVAL_MS - SPEED_STEP_MS * score
        } else {
            MIN_INTERVAL_MS as int
        },
{
    if score as u64 >= (BASE_INTERVAL_MS - MIN_INTERVAL_MS) / SPEED_STEP_MS {
        MIN_INTERVAL_MS
    } else {
        BASE_INTERVAL_MS - SPEED_STEP_MS * score as u64
    }
}

} // verus!
