//! The Snake game on a square board: starting a game, placing food, moving
//! the snake one cell per step, and what the snake senses from its head.
use vstd::prelude::*;

use crate::grid::{
    Cell, DIRECTIONS, SENSORS, along, contains_cell, free_cells, free_cells_of, in_grid,
    lemma_free_cells_of, move_col, move_delta, move_row, occupies, opposite, opposite_direction,
    sensor_col, sensor_delta, sensor_row,
};
use crate::random::random_below;

verus! {

broadcast use {vstd::seq_lib::lemma_seq_contains_after_push, vstd::seq_lib::lemma_seq_concat_contains_all_elements};

/// Largest coordinate, in absolute value, of any cell of the snake: the board
/// side is below it, and the starting body lies within two cells of the board's middle.
pub const COORD_BOUND: i32 = 16384;

/// What the snake senses, in whole numbers.
///
/// For each of the eight rays cast from the head (N, NE, E, SE, S, SW, W, NW),
/// `wall` holds the number of steps to the first cell off the board and `body`
/// the number of steps to the first cell of the snake met on the board, if
/// any. `food` holds how many rows the food lies above the head, below it,
/// and how many columns to its left and to its right, each at least zero.
pub struct Observation {
    pub wall: Vec<i32>,
    pub body: Vec<Option<i32>>,
    pub food: Vec<i64>,
}

/// One game of Snake.
pub struct SnakeEnv {
    /// The board has `grid_size` rows and `grid_size` columns.
    pub grid_size: i32,
    /// The snake's cells, head first.
    pub snake: Vec<Cell>,
    /// The direction of the last move: 0 up, 1 right, 2 down, 3 left.
    pub direction: usize,
    pub food: Cell,
    /// Moves made since the game began.
    pub steps: usize,
    /// Food eaten since the game began.
    pub score: usize,
    /// Moves made since the snake last ate.
    pub hunger: usize,
    /// The snake starves when `hunger` reaches this.
    pub hunger_limit: usize,
    /// The game ends when `steps` reaches this.
    pub max_steps: usize,
    /// Food positions to hand out before random ones.
    pub food_sequence: Vec<Cell>,
    /// Index of the next entry of `food_sequence` to consider.
    pub food_idx: usize,
}

/// `g / 2` rounded toward zero.
pub open spec fn half_toward_zero(g: int) -> int {
    if g >= 0 {
        g / 2
    } else {
        -((-g) / 2)
    }
}

/// The snake a game starts with: three cells in the middle row, heading right.
pub open spec fn initial_snake(g: int) -> Seq<Cell> {
    let m = half_toward_zero(g);
    seq![(m as i32, m as i32), (m as i32, (m - 1) as i32), (m as i32, (m - 2) as i32)]
}

/// Whether an entry of `list` from index `from` on is not covered by `snake`.
pub open spec fn listed_food_left(snake: Seq<Cell>, list: Seq<Cell>, from: int) -> bool {
    exists|j: int|
        #![trigger list[j]]
        from <= j < list.len() && !occupies(snake, list[j].0 as int, list[j].1 as int)
}

/// Whether some cell of the `g` by `g` board is not covered by `snake`.
pub open spec fn board_has_room(snake: Seq<Cell>, g: int) -> bool {
    exists|r: int, c: int| #[trigger] in_grid(g, r, c) && !occupies(snake, r, c)
}

/// Whether food can be placed for `snake`: either the list still holds an
/// uncovered entry, or the board has an uncovered cell.
pub open spec fn food_available(snake: Seq<Cell>, list: Seq<Cell>, from: int, g: int) -> bool {
    listed_food_left(snake, list, from) || board_has_room(snake, g)
}

/// `food` is where food goes next for `snake`, and `next` the list index after it:
/// the first uncovered entry of `list` from `from` on, or, when there is none,
/// one of the uncovered cells of the board, drawn at random.
pub open spec fn food_placement(
    snake: Seq<Cell>,
    list: Seq<Cell>,
    from: int,
    g: int,
    food: Cell,
    next: int,
) -> bool {
    if listed_food_left(snake, list, from) {
        &&& from < next <= list.len()
        &&& food == list[next - 1]
        &&& !occupies(snake, food.0 as int, food.1 as int)
        &&& forall|j: int|
            #![trigger list[j]]
            from <= j < next - 1 ==> occupies(snake, list[j].0 as int, list[j].1 as int)
    } else {
        &&& next == list.len()
        &&& free_cells_of(snake, g).contains(food)
        &&& in_grid(g, food.0 as int, food.1 as int)
        &&& !occupies(snake, food.0 as int, food.1 as int)
    }
}

/// The direction after asking for `action` while heading `dir`: a request to
/// reverse is ignored.
pub open spec fn turned(dir: int, action: int) -> int {
    if action != opposite(dir) {
        action
    } else {
        dir
    }
}

/// Whether no two cells of `cells` are the same.
pub open spec fn distinct_cells(cells: Seq<Cell>) -> bool {
    forall|i: int, j: int| 0 <= i < j < cells.len() ==> #[trigger] cells[i] != #[trigger] cells[j]
}

/// Row of the `k`-th cell along sensor ray `i` from `head`.
pub open spec fn ray_row(head: Cell, i: int, k: int) -> int {
    along(head.0 as int, sensor_row(i), k)
}

/// Column of the `k`-th cell along sensor ray `i` from `head`.
pub open spec fn ray_col(head: Cell, i: int, k: int) -> int {
    along(head.1 as int, sensor_col(i), k)
}

/// Whether the `k`-th cell along ray `i` is on the board.
pub open spec fn ray_inside(g: int, head: Cell, i: int, k: int) -> bool {
    in_grid(g, ray_row(head, i, k), ray_col(head, i, k))
}

/// Whether the `k`-th cell along ray `i` is a cell of `snake`.
pub open spec fn ray_hits(snake: Seq<Cell>, head: Cell, i: int, k: int) -> bool {
    occupies(snake, ray_row(head, i, k), ray_col(head, i, k))
}

/// `k` is the number of steps along ray `i` to the first cell off the board.
pub open spec fn wall_reading(g: int, head: Cell, i: int, k: int) -> bool {
    &&& k >= 1
    &&& !ray_inside(g, head, i, k)
    &&& forall|j: int| 1 <= j < k ==> #[trigger] ray_inside(g, head, i, j)
}

/// `seen` is the number of steps along ray `i` to the first snake cell before the
/// wall at step `wall`, or `None` when there is none.
pub open spec fn body_reading(snake: Seq<Cell>, head: Cell, i: int, wall: int, seen: Option<i32>) -> bool {
    match seen {
        Some(k) => {
            &&& 1 <= k < wall
            &&& ray_hits(snake, head, i, k as int)
            &&& forall|j: int| 1 <= j < k ==> !#[trigger] ray_hits(snake, head, i, j)
        },
        None => forall|j: int| 1 <= j < wall ==> !#[trigger] ray_hits(snake, head, i, j),
    }
}

/// The larger of `x` and zero.
pub open spec fn nonneg(x: int) -> int {
    if x > 0 {
        x
    } else {
        0
    }
}

impl SnakeEnv {
    /// The state invariant that every game keeps.
    pub open spec fn wf(&self) -> bool {
        let g = self.grid_size as int;
        &&& g * g * 10 <= i32::MAX
        &&& self.hunger_limit == g * g / 2
        &&& self.max_steps == g * g * 10
        &&& self.direction < DIRECTIONS
        &&& self.snake@.len() == self.score + 3
        &&& distinct_cells(self.snake@)
        &&& forall|k: int|
            #![trigger self.snake@[k]]
            0 <= k < self.snake@.len() ==> -COORD_BOUND <= self.snake@[k].0 <= COORD_BOUND
                && -COORD_BOUND <= self.snake@[k].1 <= COORD_BOUND
        &&& !occupies(self.snake@, self.food.0 as int, self.food.1 as int)
        &&& self.food_idx <= self.food_sequence@.len()
    }

    /// The head of the snake.
    pub open spec fn head(&self) -> Cell {
        self.snake@[0]
    }

    /// `self` is a game that has just begun on a `g` by `g` board with food list `list`.
    pub open spec fn is_fresh(&self, g: i32, list: Seq<Cell>) -> bool {
        &&& self.wf()
        &&& self.grid_size == g
        &&& self.snake@ == initial_snake(g as int)
        &&& self.direction == 1
        &&& self.steps == 0
        &&& self.score == 0
        &&& self.hunger == 0
        &&& self.food_sequence@ == list
        &&& food_placement(
            initial_snake(g as int),
            list,
            0,
            g as int,
            self.food,
            self.food_idx as int,
        )
    }

    /// `obs` is what the snake senses in state `self`.
    pub open spec fn observed_by(&self, obs: Observation) -> bool {
        let g = self.grid_size as int;
        let head = self.head();
        &&& obs.wall@.len() == SENSORS
        &&& obs.body@.len() == SENSORS
        &&& forall|i: int|
            0 <= i < SENSORS ==> wall_reading(g, head, i, #[trigger] obs.wall@[i] as int)
                && body_reading(self.snake@, head, i, obs.wall@[i] as int, obs.body@[i])
        &&& obs.food@.len() == 4
        &&& obs.food@[0] == nonneg(head.0 - self.food.0)
        &&& obs.food@[1] == nonneg(self.food.0 - head.0)
        &&& obs.food@[2] == nonneg(head.1 - self.food.1)
        &&& obs.food@[3] == nonneg(self.food.1 - head.1)
    }
}

/// The grid bound of a game keeps every board coordinate well inside `COORD_BOUND`.
pub proof fn lemma_grid_bound(g: int)
    by (nonlinear_arith)
    requires
        g * g * 10 <= i32::MAX,
    ensures
        -14656 < g < 14656,
        0 <= g * g,
        g * g * 10 <= i32::MAX,
{
}

/// The snake a game starts with, as cells.
pub fn initial_snake_cells(grid_size: i32) -> (cells: Vec<Cell>)
    ensures
        cells@ == initial_snake(grid_size as int),
{
    let mid = grid_size / 2;
    vec![(mid, mid), (mid, mid - 1), (mid, mid - 2)]
}

/// Whether food can be placed for `snake` from entry `from` of `list` on a
/// `grid_size` by `grid_size` board; a game can start, and a snake can grow,
/// only where it can.
pub fn food_spot_exists(snake: &Vec<Cell>, list: &Vec<Cell>, from: usize, grid_size: i32) -> (ok:
    bool)
    ensures
        ok == food_available(snake@, list@, from as int, grid_size as int),
{
    let mut j = from;
    while j < list.len()
        invariant
            from <= j,
            forall|k: int|
                #![trigger list@[k]]
                from <= k < j && k < list@.len() ==> occupies(snake@, list@[k].0 as int, list@[k].1 as int),
        decreases list.len() - j,
    {
        let (r, c) = list[j];
        let covered = contains_cell(snake, snake.len(), r, c);
        assert(snake@.take(snake@.len() as int) =~= snake@);
        if !covered {
            return true;
        }
        j += 1;
    }
    let free = free_cells(snake, grid_size);
    proof {
        lemma_free_cells_of(snake@, grid_size as int);
    }
    if free.len() > 0 {
        let ghost x = free@[0];
        assert(free@.contains(x));
        assert(in_grid(grid_size as int, x.0 as int, x.1 as int));
        true
    } else {
        assert forall|r: int, c: int| #[trigger] in_grid(grid_size as int, r, c) implies occupies(
            snake@,
            r,
            c,
        ) by {
            let x: Cell = (r as i32, c as i32);
            if !occupies(snake@, r, c) {
                assert(free@.contains(x));
            }
        }
        false
    }
}

impl SnakeEnv {
    /// Chooses where food goes next: the first entry of the food list, from
    /// `food_idx` on, that the snake does not cover (moving `food_idx` past
    /// it), or else one of the board's free cells, picked by an index drawn
    /// uniformly at random, so that every free cell is equally likely.
    fn place_food(&mut self) -> (food: Cell)
        requires
            old(self).food_idx <= old(self).food_sequence@.len(),
            old(self).grid_size * old(self).grid_size * 10 <= i32::MAX,
            food_available(
                old(self).snake@,
                old(self).food_sequence@,
                old(self).food_idx as int,
                old(self).grid_size as int,
            ),
        ensures
            food_placement(
                old(self).snake@,
                old(self).food_sequence@,
                old(self).food_idx as int,
                old(self).grid_size as int,
                food,
                final(self).food_idx as int,
            ),
            final(self).grid_size == old(self).grid_size,
            final(self).snake == old(self).snake,
            final(self).direction == old(self).direction,
            final(self).food == old(self).food,
            final(self).steps == old(self).steps,
            final(self).score == old(self).score,
            final(self).hunger == old(self).hunger,
            final(self).hunger_limit == old(self).hunger_limit,
            final(self).max_steps == old(self).max_steps,
            final(self).food_sequence == old(self).food_sequence,
    {
        let ghost from = self.food_idx as int;
        assert(self.snake@.take(self.snake@.len() as int) =~= self.snake@);
        while self.food_idx < self.food_sequence.len()
            invariant
                from == old(self).food_idx,
                from <= self.food_idx <= self.food_sequence@.len(),
                self.snake@.take(self.snake@.len() as int) =~= self.snake@,
                forall|k: int|
                    #![trigger self.food_sequence@[k]]
                    from <= k < self.food_idx ==> occupies(
                        self.snake@,
                        self.food_sequence@[k].0 as int,
                        self.food_sequence@[k].1 as int,
                    ),
                self.grid_size == old(self).grid_size,
                self.snake == old(self).snake,
                self.direction == old(self).direction,
                self.food == old(self).food,
                self.steps == old(self).steps,
                self.score == old(self).score,
                self.hunger == old(self).hunger,
                self.hunger_limit == old(self).hunger_limit,
                self.max_steps == old(self).max_steps,
                self.food_sequence == old(self).food_sequence,
            decreases self.food_sequence@.len() - self.food_idx,
        {
            let pos = self.food_sequence[self.food_idx];
            let ghost j = self.food_idx as int;
            self.food_idx += 1;
            if !contains_cell(&self.snake, self.snake.len(), pos.0, pos.1) {
                assert(self.food_sequence@[j] == pos);
                assert(listed_food_left(self.snake@, self.food_sequence@, from));
                return pos;
            }
        }
        proof {
            lemma_free_cells_of(self.snake@, self.grid_size as int);
            lemma_grid_bound(self.grid_size as int);
        }
        let free = free_cells(&self.snake, self.grid_size);
        proof {
            if free@.len() == 0 {
                let (r, c) = choose|r: int, c: int|
                    #[trigger] in_grid(self.grid_size as int, r, c) && !occupies(self.snake@, r, c);
                assert(free@.contains((r as i32, c as i32)));
            }
        }
        let k = random_below(free.len());
        assert(free@.contains(free@[k as int]));
        free[k]
    }

    /// Starts a game on a `grid_size` by `grid_size` board that hands out food
    /// from `food_sequence` first.
    pub fn new(grid_size: i32, food_sequence: Vec<Cell>) -> (env: Self)
        requires
            grid_size * grid_size * 10 <= i32::MAX,
            food_available(initial_snake(grid_size as int), food_sequence@, 0, grid_size as int),
        ensures
            env.is_fresh(grid_size, food_sequence@),
            env.hunger_limit == grid_size * grid_size / 2,
            env.max_steps == grid_size * grid_size * 10,
    {
        proof {
            lemma_grid_bound(grid_size as int);
        }
        let mut env = SnakeEnv {
            grid_size,
            snake: initial_snake_cells(grid_size),
            direction: 1,
            food: (0, 0),
            steps: 0,
            score: 0,
            hunger: 0,
            hunger_limit: (grid_size * grid_size / 2) as usize,
            max_steps: (grid_size * grid_size * 10) as usize,
            food_sequence,
            food_idx: 0,
        };
        env.food = env.place_food();
        env
    }
}

/// Steps a ray from `(r, c)` may still take in direction `(dr, dc)` before
/// it leaves a `g` by `g` board.
pub open spec fn ray_budget(g: int, r: int, c: int, dr: int, dc: int) -> int {
    (if dr > 0 {
        g - r
    } else if dr < 0 {
        r + 1
    } else {
        0
    }) + (if dc > 0 {
        g - c
    } else if dc < 0 {
        c + 1
    } else {
        0
    })
}

impl SnakeEnv {
    /// What the snake senses now: for each of the eight rays from the head,
    /// the distance to the edge of the board and to the first body cell on
    /// the board, and where the food lies relative to the head.
    pub fn get_obs(&self) -> (obs: Observation)
        requires
            self.wf(),
        ensures
            self.observed_by(obs),
    {
        proof {
            lemma_grid_bound(self.grid_size as int);
        }
        let g = self.grid_size;
        let head = self.snake[0];
        let (hr, hc) = head;
        assert(self.snake@.take(self.snake@.len() as int) =~= self.snake@);
        let mut wall: Vec<i32> = Vec::new();
        let mut body: Vec<Option<i32>> = Vec::new();
        let mut i: usize = 0;
        while i < SENSORS
            invariant
                self.wf(),
                -14656 < g < 14656,
                g == self.grid_size,
                head == self.head(),
                hr == head.0,
                hc == head.1,
                -COORD_BOUND <= hr <= COORD_BOUND,
                -COORD_BOUND <= hc <= COORD_BOUND,
                self.snake@.take(self.snake@.len() as int) =~= self.snake@,
                i <= SENSORS,
                wall@.len() == i,
                body@.len() == i,
                forall|k: int|
                    0 <= k < i ==> wall_reading(g as int, head, k, #[trigger] wall@[k] as int)
                        && body_reading(self.snake@, head, k, wall@[k] as int, body@[k]),
            decreases SENSORS - i,
        {
            let (dr, dc) = sensor_delta(i);
            let mut r = hr + dr;
            let mut c = hc + dc;
            let mut dist: i32 = 1;
            let mut seen: Option<i32> = None;
            while 0 <= r && r < g && 0 <= c && c < g
                invariant
                    -14656 < g < 14656,
                    -COORD_BOUND <= hr <= COORD_BOUND,
                    -COORD_BOUND <= hc <= COORD_BOUND,
                    i < SENSORS,
                    dr == sensor_row(i as int),
                    dc == sensor_col(i as int),
                    1 <= dist <= 2 * COORD_BOUND + 2,
                    r == ray_row(head, i as int, dist as int),
                    c == ray_col(head, i as int, dist as int),
                    hr == head.0,
                    hc == head.1,
                    self.snake@.take(self.snake@.len() as int) =~= self.snake@,
                    forall|j: int| 1 <= j < dist ==> #[trigger] ray_inside(g as int, head, i as int, j),
                    body_reading(self.snake@, head, i as int, dist as int, seen),
                decreases ray_budget(g as int, r as int, c as int, dr as int, dc as int),
            {
                if seen.is_none() && contains_cell(&self.snake, self.snake.len(), r, c) {
                    seen = Some(dist);
                }
                r = r + dr;
                c = c + dc;
                dist = dist + 1;
            }
            wall.push(dist);
            body.push(seen);
            i += 1;
        }
        let (fr, fc) = self.food;
        let up = hr as i64 - fr as i64;
        let left = hc as i64 - fc as i64;
        let above: i64 = if up > 0 { up } else { 0 };
        let below: i64 = if up < 0 { 0 - up } else { 0 };
        let to_left: i64 = if left > 0 { left } else { 0 };
        let to_right: i64 = if left < 0 { 0 - left } else { 0 };
        let food = vec![above, below, to_left, to_right];
        Observation { wall, body, food }
    }
}

/// The cell the head moves to when `pre` asks for `action`.
pub open spec fn next_head(pre: SnakeEnv, action: int) -> (int, int) {
    let d = turned(pre.direction as int, action);
    (pre.head().0 + move_row(d), pre.head().1 + move_col(d))
}

/// Whether asking for `action` in `pre` moves the head onto the food.
pub open spec fn eats(pre: SnakeEnv, action: int) -> bool {
    let (nr, nc) = next_head(pre, action);
    &&& in_grid(pre.grid_size as int, nr, nc)
    &&& !occupies(pre.snake@.drop_last(), nr, nc)
    &&& nr == pre.food.0 && nc == pre.food.1
}

/// Whether the board can take new food should the snake eat on this move.
pub open spec fn room_to_grow(pre: SnakeEnv, action: int) -> bool {
    eats(pre, action) ==> food_available(
        seq![pre.food] + pre.snake@,
        pre.food_sequence@,
        pre.food_idx as int,
        pre.grid_size as int,
    )
}

/// One move of the game from `pre` to `post` when the player asks for
/// `action`, ending the game when `done`.
///
/// The snake turns unless asked to reverse, and its head moves one cell.
/// Moving off the board or into the body (the tail cell excepted, as it moves
/// away) ends the game with nothing else changed. Moving onto the food grows
/// the snake by one cell, scores, resets hunger and places new food. Any
/// other move drags the tail along and makes the snake hungrier; it starves
/// when hunger reaches its limit. A move that does not starve the snake
/// counts as a step, and the game ends when the steps reach their limit.
pub open spec fn stepped(pre: SnakeEnv, post: SnakeEnv, action: int, done: bool) -> bool {
    let (nr, nc) = next_head(pre, action);
    let cell: Cell = (nr as i32, nc as i32);
    &&& post.direction == turned(pre.direction as int, action)
    &&& post.grid_size == pre.grid_size
    &&& post.food_sequence@ == pre.food_sequence@
    &&& post.hunger_limit == pre.hunger_limit
    &&& post.max_steps == pre.max_steps
    &&& if !in_grid(pre.grid_size as int, nr, nc) || occupies(pre.snake@.drop_last(), nr, nc) {
        &&& done
        &&& post.snake@ == pre.snake@
        &&& post.food == pre.food
        &&& post.food_idx == pre.food_idx
        &&& post.steps == pre.steps
        &&& post.score == pre.score
        &&& post.hunger == pre.hunger
    } else if nr == pre.food.0 && nc == pre.food.1 {
        &&& post.snake@ == seq![cell] + pre.snake@
        &&& post.score == pre.score + 1
        &&& post.hunger == 0
        &&& food_placement(
            post.snake@,
            pre.food_sequence@,
            pre.food_idx as int,
            pre.grid_size as int,
            post.food,
            post.food_idx as int,
        )
        &&& post.steps == pre.steps + 1
        &&& done == (post.steps >= post.max_steps)
    } else {
        &&& post.snake@ == seq![cell] + pre.snake@.drop_last()
        &&& post.food == pre.food
        &&& post.food_idx == pre.food_idx
        &&& post.score == pre.score
        &&& post.hunger == pre.hunger + 1
        &&& if post.hunger >= pre.hunger_limit {
            done && post.steps == pre.steps
        } else {
            &&& post.steps == pre.steps + 1
            &&& done == (post.steps >= post.max_steps)
        }
    }
}

impl SnakeEnv {
    /// Starts the game over on the same board with the same food list.
    /// Returns what the snake senses.
    pub fn reset(&mut self) -> (obs: Observation)
        requires
            old(self).wf(),
            food_available(
                initial_snake(old(self).grid_size as int),
                old(self).food_sequence@,
                0,
                old(self).grid_size as int,
            ),
        ensures
            final(self).is_fresh(old(self).grid_size, old(self).food_sequence@),
            final(self).hunger_limit == old(self).hunger_limit,
            final(self).max_steps == old(self).max_steps,
            final(self).observed_by(obs),
    {
        proof {
            lemma_grid_bound(self.grid_size as int);
        }
        self.snake = initial_snake_cells(self.grid_size);
        self.direction = 1;
        self.food_idx = 0;
        self.steps = 0;
        self.score = 0;
        self.hunger = 0;
        self.food = self.place_food();
        self.get_obs()
    }

    /// Whether the board can take new food should the snake eat when asked
    /// for `action`; a move is only made where it can.
    pub fn can_step(&self, action: usize) -> (ok: bool)
        requires
            self.wf(),
            action < DIRECTIONS,
        ensures
            ok == room_to_grow(*self, action as int),
    {
        let d = if action != opposite_direction(self.direction) {
            action
        } else {
            self.direction
        };
        let (dr, dc) = move_delta(d);
        let (hr, hc) = self.snake[0];
        let nr = hr + dr;
        let nc = hc + dc;
        if nr < 0 || nr >= self.grid_size || nc < 0 || nc >= self.grid_size {
            return true;
        }
        if contains_cell(&self.snake, self.snake.len() - 1, nr, nc) {
            assert(self.snake@.take(self.snake@.len() - 1) =~= self.snake@.drop_last());
            return true;
        }
        assert(self.snake@.take(self.snake@.len() - 1) =~= self.snake@.drop_last());
        if nr != self.food.0 || nc != self.food.1 {
            return true;
        }
        let mut grown: Vec<Cell> = Vec::new();
        grown.push(self.food);
        let mut k: usize = 0;
        while k < self.snake.len()
            invariant
                k <= self.snake@.len(),
                grown@ == seq![self.food] + self.snake@.take(k as int),
            decreases self.snake@.len() - k,
        {
            grown.push(self.snake[k]);
            assert(self.snake@.take(k + 1) =~= self.snake@.take(k as int).push(self.snake@[k as int]));
            k += 1;
        }
        assert(self.snake@.take(self.snake@.len() as int) =~= self.snake@);
        food_spot_exists(&grown, &self.food_sequence, self.food_idx, self.grid_size)
    }

    /// Moves the snake one cell, turning to `action` unless that would reverse
    /// it. Returns what the snake senses afterwards and whether the game is over.
    pub fn step(&mut self, action: usize) -> (result: (Observation, bool))
        requires
            old(self).wf(),
            action < DIRECTIONS,
            old(self).steps < usize::MAX,
            old(self).hunger < usize::MAX,
            room_to_grow(*old(self), action as int),
        ensures
            final(self).wf(),
            stepped(*old(self), *final(self), action as int, result.1),
            final(self).observed_by(result.0),
    {
        proof {
            lemma_grid_bound(self.grid_size as int);
        }
        let ghost pre = *self;
        if action != opposite_direction(self.direction) {
            self.direction = action;
        }
        let (dr, dc) = move_delta(self.direction);
        let (hr, hc) = self.snake[0];
        let nr = hr + dr;
        let nc = hc + dc;
        if nr < 0 || nr >= self.grid_size || nc < 0 || nc >= self.grid_size {
            return (self.get_obs(), true);
        }
        let len = self.snake.len();
        assert(self.snake@.take(len - 1) =~= self.snake@.drop_last());
        if contains_cell(&self.snake, len - 1, nr, nc) {
            return (self.get_obs(), true);
        }
        self.snake.insert(0, (nr, nc));
        assert(self.snake@ =~= seq![(nr, nc)] + pre.snake@);
        if nr == self.food.0 && nc == self.food.1 {
            self.score += 1;
            self.hunger = 0;
            let food = self.place_food();
            self.food = food;
        } else {
            self.snake.pop();
            assert(self.snake@ =~= seq![(nr, nc)] + pre.snake@.drop_last());
            self.hunger += 1;
            if self.hunger >= self.hunger_limit {
                return (self.get_obs(), true);
            }
        }
        self.steps += 1;
        if self.steps >= self.max_steps {
            return (self.get_obs(), true);
        }
        (self.get_obs(), false)
    }
}

/// The absolute value of `x`.
pub open spec fn abs(x: int) -> int {
    if x < 0 {
        -x
    } else {
        x
    }
}

impl SnakeEnv {
    /// Number of rows plus number of columns between the head and the food.
    pub fn food_distance(&self) -> (d: i64)
        requires
            self.wf(),
        ensures
            d == abs(self.head().0 - self.food.0) + abs(self.head().1 - self.food.1),
    {
        let (hr, hc) = self.snake[0];
        let (fr, fc) = self.food;
        let dr = hr as i64 - fr as i64;
        let dc = hc as i64 - fc as i64;
        let ar: i64 = if dr < 0 { 0 - dr } else { dr };
        let ac: i64 = if dc < 0 { 0 - dc } else { dc };
        ar + ac
    }
}

/// Two games that have just begun on the same board with the same food list
/// are in the same state, food included whenever the list supplies it; only
/// food drawn at random may differ.
pub proof fn lemma_fresh_games_agree(a: SnakeEnv, b: SnakeEnv, g: i32, list: Seq<Cell>)
    requires
        a.is_fresh(g, list),
        b.is_fresh(g, list),
    ensures
        a.snake@ == b.snake@,
        a.direction == b.direction,
        a.steps == b.steps,
        a.score == b.score,
        a.hunger == b.hunger,
        a.hunger_limit == b.hunger_limit,
        a.max_steps == b.max_steps,
        a.food_idx == b.food_idx,
        listed_food_left(initial_snake(g as int), list, 0) ==> a.food == b.food,
{
    lemma_placement_determined(
        initial_snake(g as int),
        list,
        0,
        g as int,
        a.food,
        a.food_idx as int,
        b.food,
        b.food_idx as int,
    );
}

/// A move never reverses the snake: the new direction is never the
/// opposite of the old one.
pub proof fn lemma_no_reversal(pre: SnakeEnv, post: SnakeEnv, action: int, done: bool)
    requires
        pre.wf(),
        0 <= action < DIRECTIONS,
        stepped(pre, post, action, done),
    ensures
        post.direction != opposite(pre.direction as int),
        post.direction < DIRECTIONS,
{
}

/// Food from the list is handed out in list order: a move never moves the
/// list position back.
pub proof fn lemma_food_list_in_order(pre: SnakeEnv, post: SnakeEnv, action: int, done: bool)
    requires
        pre.wf(),
        stepped(pre, post, action, done),
    ensures
        pre.food_idx <= post.food_idx <= post.food_sequence@.len(),
{
}

/// A game that goes on after a move has used fewer steps than its limit and
/// has a snake that has not starved.
pub proof fn lemma_running_game_within_limits(pre: SnakeEnv, post: SnakeEnv, action: int)
    requires
        pre.wf(),
        pre.hunger < pre.hunger_limit,
        stepped(pre, post, action, false),
    ensures
        post.steps < post.max_steps,
        post.hunger < post.hunger_limit,
        post.steps == pre.steps + 1,
{
}

/// With the head on the board, the straight rays reach the edge after as
/// many steps as there are cells to it, the head's own cell included: north
/// after `row + 1`, east after `grid_size - col`, south after
/// `grid_size - row`, west after `col + 1`.
pub proof fn lemma_wall_distances(env: SnakeEnv, obs: Observation)
    requires
        env.wf(),
        env.observed_by(obs),
        in_grid(env.grid_size as int, env.head().0 as int, env.head().1 as int),
    ensures
        obs.wall@[0] == env.head().0 + 1,
        obs.wall@[2] == env.grid_size - env.head().1,
        obs.wall@[4] == env.grid_size - env.head().0,
        obs.wall@[6] == env.head().1 + 1,
{
    let g = env.grid_size as int;
    let h = env.head();
    assert(wall_reading(g, h, 0, obs.wall@[0] as int));
    assert(wall_reading(g, h, 2, obs.wall@[2] as int));
    assert(wall_reading(g, h, 4, obs.wall@[4] as int));
    assert(wall_reading(g, h, 6, obs.wall@[6] as int));
    if obs.wall@[0] > h.0 + 1 {
        assert(ray_inside(g, h, 0, h.0 + 1));
    }
    if obs.wall@[2] > g - h.1 {
        assert(ray_inside(g, h, 2, g - h.1));
    }
    if obs.wall@[4] > g - h.0 {
        assert(ray_inside(g, h, 4, g - h.0));
    }
    if obs.wall@[6] > h.1 + 1 {
        assert(ray_inside(g, h, 6, h.1 + 1));
    }
}

/// Food placement is determined whenever the list supplies the food: the
/// same snake, list and starting index give the same food and the same next
/// index; when the food is drawn at random, only the next index is determined.
pub proof fn lemma_placement_determined(
    snake: Seq<Cell>,
    list: Seq<Cell>,
    from: int,
    g: int,
    food1: Cell,
    next1: int,
    food2: Cell,
    next2: int,
)
    requires
        food_placement(snake, list, from, g, food1, next1),
        food_placement(snake, list, from, g, food2, next2),
    ensures
        next1 == next2,
        listed_food_left(snake, list, from) ==> food1 == food2,
{
    if listed_food_left(snake, list, from) {
        if next1 < next2 {
            assert(occupies(snake, list[next1 - 1].0 as int, list[next1 - 1].1 as int));
        } else if next2 < next1 {
            assert(occupies(snake, list[next2 - 1].0 as int, list[next2 - 1].1 as int));
        }
    }
}

/// Games in the same state that are asked for the same move end in the same
/// state, as long as any food they place comes from the list: games that
/// share a food list are compared on equal terms.
pub proof fn lemma_step_determined(
    pre: SnakeEnv,
    post1: SnakeEnv,
    done1: bool,
    post2: SnakeEnv,
    done2: bool,
    action: int,
)
    requires
        pre.wf(),
        stepped(pre, post1, action, done1),
        stepped(pre, post2, action, done2),
        eats(pre, action) ==> listed_food_left(
            seq![pre.food] + pre.snake@,
            pre.food_sequence@,
            pre.food_idx as int,
        ),
    ensures
        done1 == done2,
        post1.snake@ == post2.snake@,
        post1.food == post2.food,
        post1.food_idx == post2.food_idx,
        post1.direction == post2.direction,
        post1.steps == post2.steps,
        post1.score == post2.score,
        post1.hunger == post2.hunger,
{
    let (nr, nc) = next_head(pre, action);
    if eats(pre, action) {
        let cell: Cell = (nr as i32, nc as i32);
        assert(cell == pre.food);
        lemma_placement_determined(
            post1.snake@,
            pre.food_sequence@,
            pre.food_idx as int,
            pre.grid_size as int,
            post1.food,
            post1.food_idx as int,
            post2.food,
            post2.food_idx as int,
        );
    }
}

/// Whether two cells are side by side: one row or one column apart, not both.
pub open spec fn adjacent(a: Cell, b: Cell) -> bool {
    abs(a.0 - b.0) + abs(a.1 - b.1) == 1
}

/// Whether every cell of `list` is on the `g` by `g` board.
pub open spec fn cells_on_board(list: Seq<Cell>, g: int) -> bool {
    forall|k: int| 0 <= k < list.len() ==> in_grid(g, #[trigger] list[k].0 as int, list[k].1 as int)
}

impl SnakeEnv {
    /// The snake lies on the board, each cell side by side with the next.
    pub open spec fn snake_on_board(&self) -> bool {
        &&& cells_on_board(self.snake@, self.grid_size as int)
        &&& forall|k: int|
            0 <= k < self.snake@.len() - 1 ==> adjacent(#[trigger] self.snake@[k], self.snake@[k + 1])
    }
}

/// On a board at least four cells wide a new game's snake lies on the
/// board in a line, and its food is on the board when every listed food cell is.
pub proof fn lemma_fresh_game_on_board(env: SnakeEnv, g: i32, list: Seq<Cell>)
    requires
        env.is_fresh(g, list),
        g >= 4,
    ensures
        env.snake_on_board(),
        cells_on_board(list, g as int) ==> in_grid(g as int, env.food.0 as int, env.food.1 as int),
{
    lemma_grid_bound(g as int);
    let s = env.snake@;
    assert(s[0] == (half_toward_zero(g as int) as i32, half_toward_zero(g as int) as i32));
    assert forall|k: int| 0 <= k < s.len() - 1 implies adjacent(#[trigger] s[k], s[k + 1]) by {
        if k == 0 {
            assert(adjacent(s[0], s[1]));
        } else {
            assert(adjacent(s[1], s[2]));
        }
    }
    if cells_on_board(list, g as int) && listed_food_left(initial_snake(g as int), list, 0) {
        assert(env.food == list[env.food_idx - 1]);
    }
}

/// A move keeps the snake on the board with its cells side by side, and
/// keeps the food on the board when every listed food cell is on it.
pub proof fn lemma_step_keeps_board(pre: SnakeEnv, post: SnakeEnv, action: int, done: bool)
    requires
        pre.wf(),
        pre.snake_on_board(),
        0 <= action < DIRECTIONS,
        stepped(pre, post, action, done),
    ensures
        post.snake_on_board(),
        cells_on_board(pre.food_sequence@, pre.grid_size as int) && in_grid(
            pre.grid_size as int,
            pre.food.0 as int,
            pre.food.1 as int,
        ) ==> in_grid(post.grid_size as int, post.food.0 as int, post.food.1 as int),
{
    let g = pre.grid_size as int;
    let (nr, nc) = next_head(pre, action);
    let cell: Cell = (nr as i32, nc as i32);
    let old_snake = pre.snake@;
    let s = post.snake@;
    if in_grid(g, nr, nc) && !occupies(old_snake.drop_last(), nr, nc) {
        lemma_grid_bound(g);
        assert(cell.0 == nr && cell.1 == nc);
        assert(adjacent(cell, old_snake[0]));
        let body = if nr == pre.food.0 && nc == pre.food.1 {
            old_snake
        } else {
            old_snake.drop_last()
        };
        assert(s == seq![cell] + body);
        assert(body.len() >= 1);
        assert forall|k: int| 0 <= k < s.len() implies in_grid(
            g,
            #[trigger] s[k].0 as int,
            s[k].1 as int,
        ) by {
            if k > 0 {
                assert(s[k] == body[k - 1]);
                assert(s[k] == old_snake[k - 1]);
            }
        }
        assert forall|k: int| 0 <= k < s.len() - 1 implies adjacent(#[trigger] s[k], s[k + 1]) by {
            if k > 0 {
                assert(s[k] == old_snake[k - 1]);
                assert(s[k + 1] == old_snake[k]);
                assert(adjacent(old_snake[k - 1], old_snake[k]));
            }
        }
        if nr == pre.food.0 && nc == pre.food.1 && cells_on_board(pre.food_sequence@, g) {
            if listed_food_left(s, pre.food_sequence@, pre.food_idx as int) {
                assert(post.food == pre.food_sequence@[post.food_idx - 1]);
            }
        }
    }
}

/// Whether no move of the first `n` moves of `run` scores.
pub open spec fn eats_nothing(run: Seq<SnakeEnv>, n: int) -> bool {
    forall|k: int| 0 <= k < n ==> #[trigger] run[k + 1].score == run[k].score
}

/// Over a run of moves none of which ends the game, each move counts one
/// step, so the run is shorter than the step limit; and when no move of the
/// run eats, each move adds one to the hunger, so the run is also shorter
/// than the hunger limit. A game that has just begun (no steps, no hunger)
/// therefore ends within `max_steps` moves, and within `hunger_limit` moves
/// if it never eats.
pub proof fn lemma_run_within_limits(run: Seq<SnakeEnv>, actions: Seq<int>)
    requires
        run.len() == actions.len() + 1,
        forall|k: int|
            #![trigger actions[k]]
            0 <= k < actions.len() ==> stepped(run[k], run[k + 1], actions[k], false),
    ensures
        run.last().steps == run[0].steps + actions.len(),
        run.last().max_steps == run[0].max_steps,
        run.last().hunger_limit == run[0].hunger_limit,
        actions.len() > 0 ==> run[0].steps + actions.len() < run[0].max_steps,
        eats_nothing(run, actions.len() as int) ==> {
            &&& run.last().hunger == run[0].hunger + actions.len()
            &&& actions.len() > 0 ==> run[0].hunger + actions.len() < run[0].hunger_limit
        },
    decreases actions.len(),
{
    let n = actions.len() as int;
    if n > 0 {
        let head_run = run.drop_last();
        let head_actions = actions.drop_last();
        assert forall|k: int|
            #![trigger head_actions[k]]
            0 <= k < head_actions.len() implies stepped(
            head_run[k],
            head_run[k + 1],
            head_actions[k],
            false,
        ) by {
            assert(actions[k] == head_actions[k]);
        }
        lemma_run_within_limits(head_run, head_actions);
        assert(actions[n - 1] == actions[n - 1]);
        let pre = run[n - 1];
        let post = run[n];
        assert(stepped(pre, post, actions[n - 1], false));
        if eats_nothing(run, n) {
            assert forall|k: int| 0 <= k < n - 1 implies #[trigger] head_run[k + 1].score
                == head_run[k].score by {
                assert(head_run[k + 1] == run[k + 1]);
                assert(head_run[k] == run[k]);
            }
            assert(eats_nothing(head_run, n - 1));
            assert(post.score == pre.score);
            assert(head_run.last() == pre);
            assert(head_run[0] == run[0]);
            assert(pre.hunger == run[0].hunger + (n - 1));
            assert(post.hunger == pre.hunger + 1);
            assert(post.hunger < pre.hunger_limit);
        }
    }
}

/// Hunger counts the moves since the last meal: a move that scores leaves
/// the snake with no hunger, whatever its hunger before, and a move that goes
/// on without scoring adds exactly one to it.
pub proof fn lemma_meal_resets_hunger(pre: SnakeEnv, post: SnakeEnv, action: int, done: bool)
    requires
        pre.wf(),
        stepped(pre, post, action, done),
    ensures
        post.score == pre.score + 1 ==> post.hunger == 0,
        eats(pre, action) ==> post.hunger == 0 && post.score == pre.score + 1,
        !done && post.score == pre.score ==> post.hunger == pre.hunger + 1,
{
}

/// Over a run of moves that do not end the game, the hunger at the end is the
/// number of moves made since the last move that scored.
pub proof fn lemma_hunger_since_last_meal(run: Seq<SnakeEnv>, actions: Seq<int>, meal: int)
    requires
        run.len() == actions.len() + 1,
        forall|k: int|
            #![trigger actions[k]]
            0 <= k < actions.len() ==> stepped(run[k], run[k + 1], actions[k], false),
        0 <= meal < actions.len(),
        run[meal + 1].score == run[meal].score + 1,
        forall|k: int| meal < k < actions.len() ==> #[trigger] run[k + 1].score == run[k].score,
    ensures
        run.last().hunger == actions.len() - 1 - meal,
{
    let n = actions.len() as int;
    assert(actions[meal] == actions[meal]);
    assert(stepped(run[meal], run[meal + 1], actions[meal], false));
    let tail = run.subrange(meal + 1, n + 1);
    let tail_actions = actions.subrange(meal + 1, n);
    assert forall|k: int|
        #![trigger tail_actions[k]]
        0 <= k < tail_actions.len() implies stepped(tail[k], tail[k + 1], tail_actions[k], false) by {
        assert(tail[k] == run[k + meal + 1]);
        assert(tail[k + 1] == run[k + 1 + meal + 1]);
        assert(tail_actions[k] == actions[k + meal + 1]);
    }
    assert forall|k: int| 0 <= k < tail_actions.len() implies #[trigger] tail[k + 1].score
        == tail[k].score by {
        assert(tail[k] == run[k + meal + 1]);
        assert(tail[k + 1] == run[k + 1 + meal + 1]);
    }
    assert(eats_nothing(tail, tail_actions.len() as int));
    lemma_run_within_limits(tail, tail_actions);
    assert(tail.last() == run.last());
    assert(tail[0] == run[meal + 1]);
}

/// A body reading comes from the snake itself: when a ray reports a body cell
/// `k` steps away, that cell is one of the snake's cells and is on the board,
/// and no nearer cell of the ray is; when it reports none, no cell of the
/// snake lies on the ray before the edge of the board.
pub proof fn lemma_body_reading_is_snake(env: SnakeEnv, obs: Observation, i: int)
    requires
        env.wf(),
        env.observed_by(obs),
        0 <= i < SENSORS,
    ensures
        obs.body@[i] matches Some(k) ==> {
            &&& exists|j: int|
                0 <= j < env.snake@.len() && #[trigger] env.snake@[j].0 == ray_row(env.head(), i, k as int)
                    && env.snake@[j].1 == ray_col(env.head(), i, k as int)
            &&& ray_inside(env.grid_size as int, env.head(), i, k as int)
        },
        obs.body@[i] is None ==> forall|j: int, k: int|
            #![trigger env.snake@[j], ray_row(env.head(), i, k)]
            0 <= j < env.snake@.len() && 1 <= k < obs.wall@[i] ==> !(env.snake@[j].0
                == ray_row(env.head(), i, k) && env.snake@[j].1 == ray_col(env.head(), i, k)),
{
    assert(wall_reading(env.grid_size as int, env.head(), i, obs.wall@[i] as int));
    if obs.body@[i] is None {
        assert forall|j: int, k: int|
            #![trigger env.snake@[j], ray_row(env.head(), i, k)]
            0 <= j < env.snake@.len() && 1 <= k < obs.wall@[i] implies !(env.snake@[j].0
                == ray_row(env.head(), i, k) && env.snake@[j].1 == ray_col(env.head(), i, k)) by {
            assert(!ray_hits(env.snake@, env.head(), i, k));
        }
    }
}

/// The food is not a body cell: a ray never reports the food's cell as the
/// body it sees.
pub proof fn lemma_food_is_not_body(env: SnakeEnv, obs: Observation, i: int, k: int)
    requires
        env.wf(),
        env.observed_by(obs),
        0 <= i < SENSORS,
        1 <= k <= i32::MAX,
        ray_row(env.head(), i, k) == env.food.0,
        ray_col(env.head(), i, k) == env.food.1,
    ensures
        obs.body@[i] != Some(k as i32),
{
    if obs.body@[i] == Some(k as i32) {
        assert(body_reading(env.snake@, env.head(), i, obs.wall@[i] as int, obs.body@[i]));
        assert(ray_hits(env.snake@, env.head(), i, k));
    }
}

} // verus!
