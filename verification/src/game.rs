//! The game-state model and its per-tick update: direction handling,
//! movement, growth, food respawn avoiding occupied cells, scoring, and
//! terminal conditions (wall hit, self-collision, full board).

use vstd::prelude::*;
use crate::rng::rand_below;

verus! {

/// A cell of the grid. The origin is the top-left corner: `x` grows to the
/// right, `y` grows downward. A position is inside a grid when both
/// coordinates are below the grid's extent (see `in_grid`).
#[derive(Clone, Copy, PartialEq, Eq, Structural, Debug)]
pub struct Position {
    pub x: usize,
    pub y: usize,
}

impl Position {
    /// Whether the cell lies inside a `width` by `height` grid.
    pub open spec fn in_grid(self, width: usize, height: usize) -> bool {
        self.x < width && self.y < height
    }
}

/// The Manhattan distance between two cells.
pub open spec fn manhattan(a: Position, b: Position) -> int {
    let dx = if a.x >= b.x { a.x - b.x } else { b.x - a.x };
    let dy = if a.y >= b.y { a.y - b.y } else { b.y - a.y };
    dx + dy
}

/// One of the four headings a snake can move in; no diagonal movement.
/// `Up` decreases `y`, `Down` increases it.
#[derive(Clone, Copy, PartialEq, Eq, Structural, Debug)]
pub enum Direction {
    Up,
    Down,
    Left,
    Right,
}

impl Direction {
    /// The exact reverse of this heading.
    pub open spec fn opposite(self) -> Direction {
        match self {
            Direction::Up => Direction::Down,
            Direction::Down => Direction::Up,
            Direction::Left => Direction::Right,
            Direction::Right => Direction::Left,
        }
    }
}

/// The heading a tick commits to: a requested direction wins unless it is
/// the exact reverse of the current heading (a snake can never turn straight
/// back into its own neck); no request keeps the current heading.
pub open spec fn effective_heading(cur: Direction, request: Option<Direction>) -> Direction {
    match request {
        None => cur,
        Some(d) => if d == cur.opposite() {
            cur
        } else {
            d
        },
    }
}

/// Whether one step from `head` in direction `d` leaves the grid.
pub open spec fn moves_off_grid(head: Position, d: Direction, width: usize, height: usize) -> bool {
    match d {
        Direction::Up => head.y == 0,
        Direction::Down => head.y + 1 >= height,
        Direction::Left => head.x == 0,
        Direction::Right => head.x + 1 >= width,
    }
}

/// The cell one step from `head` in direction `d`; meaningful only when the
/// step stays on the grid.
pub open spec fn head_after(head: Position, d: Direction) -> Position
    recommends
        head.y > 0 || d != Direction::Up,
        head.x > 0 || d != Direction::Left,
{
    match d {
        Direction::Up => Position { x: head.x, y: (head.y - 1) as usize },
        Direction::Down => Position { x: head.x, y: (head.y + 1) as usize },
        Direction::Left => Position { x: (head.x - 1) as usize, y: head.y },
        Direction::Right => Position { x: (head.x + 1) as usize, y: head.y },
    }
}

/// Why a call was rejected: the grid cannot host the initial snake, or the
/// game had already reached its terminal state.
#[derive(Clone, Copy, PartialEq, Eq, Structural, Debug)]
pub enum GameError {
    InvalidDimensions,
    InvalidState,
}

/// The whole state of one game: the grid extent (fixed at construction),
/// the snake body with its head at index 0, the current food cell, the
/// score, the last committed heading, and whether the game is still live.
#[derive(Debug)]
pub struct GameState {
    pub width: usize,
    pub height: usize,
    pub snake: Vec<Position>,
    pub food: Position,
    pub score: usize,
    pub heading: Direction,
    pub alive: bool,
}

impl GameState {
    /// Well-formedness of a game state: the grid can host the initial
    /// three-cell snake and its cell count fits the machine word; the body
    /// is never empty, lies on the grid, holds no duplicate cell, and each
    /// pair of consecutive cells is adjacent; the food lies on the grid and,
    /// while the game is live, on no snake cell. The score never exceeds
    /// the body length (it starts at 0 with length 3 and each consumption
    /// raises both by one), which bounds it away from overflow.
    pub open spec fn wf(self) -> bool {
        &&& 3 <= self.width
        &&& 1 <= self.height
        &&& self.width * self.height <= usize::MAX
        &&& 1 <= self.snake@.len()
        &&& (forall|i: int|
            0 <= i < self.snake@.len() ==> (#[trigger] self.snake@[i]).in_grid(
                self.width,
                self.height,
            ))
        &&& (forall|i: int, j: int|
            #![trigger self.snake@[i], self.snake@[j]]
            0 <= i < j < self.snake@.len() ==> self.snake@[i] != self.snake@[j])
        &&& (forall|i: int|
            0 <= i < self.snake@.len() - 1 ==> manhattan(
                #[trigger] self.snake@[i],
                self.snake@[i + 1],
            ) == 1)
        &&& self.food.in_grid(self.width, self.height)
        &&& (self.alive ==> !self.snake@.contains(self.food))
        &&& self.score <= self.snake@.len()
    }
}

/// Whether `p` equals some element of `cells`.
fn contains_position(cells: &Vec<Position>, p: Position) -> (b: bool)
    ensures
        b == cells@.contains(p),
{
    let mut i: usize = 0;
    while i < cells.len()
        invariant
            i <= cells@.len(),
            forall|k: int| 0 <= k < i ==> cells@[k] != p,
        decreases cells@.len() - i,
    {
        if cells[i] == p {
            assert(cells@.contains(p)) by {
                assert(cells@[i as int] == p);
            }
            return true;
        }
        i += 1;
    }
    false
}

/// How many random draws food placement makes before it falls back to a
/// deterministic scan. Rejection sampling alone admits no termination bound,
/// so the draws are capped; on a non-full board the fallback always finds a
/// cell.
pub const DRAW_ATTEMPTS: usize = 64;

/// All cells whose `x` lies below `width` and whose `y` equals `y`.
pub open spec fn grid_row(width: usize, y: usize) -> Set<Position> {
    Set::new(|p: Position| p.x < width && p.y == y)
}

/// All cells of a `width` by `height` grid.
pub open spec fn grid_cells(width: usize, height: usize) -> Set<Position> {
    Set::new(|p: Position| p.in_grid(width, height))
}

proof fn lemma_grid_row_cardinality(width: usize, y: usize)
    ensures
        grid_row(width, y).finite(),
        grid_row(width, y).len() == width,
    decreases width,
{
    if width == 0 {
        assert(grid_row(width, y) =~= Set::empty());
    } else {
        let w1 = (width - 1) as usize;
        lemma_grid_row_cardinality(w1, y);
        assert(grid_row(width, y) =~= grid_row(w1, y).insert(Position { x: w1, y }));
        assert(!grid_row(w1, y).contains(Position { x: w1, y }));
    }
}

proof fn lemma_grid_cells_cardinality(width: usize, height: usize)
    ensures
        grid_cells(width, height).finite(),
        grid_cells(width, height).len() == width * height,
    decreases height,
{
    if height == 0 {
        assert(grid_cells(width, height) =~= Set::empty());
    } else {
        let h1 = (height - 1) as usize;
        lemma_grid_cells_cardinality(width, h1);
        lemma_grid_row_cardinality(width, h1);
        let below = grid_cells(width, h1);
        let row = grid_row(width, h1);
        assert(grid_cells(width, height) =~= below + row);
        assert(below.disjoint(row));
        vstd::set_lib::lemma_set_disjoint_lens(below, row);
        assert(width * height == width * h1 + width) by (nonlinear_arith)
            requires h1 == height - 1;
    }
}

/// Law: fewer occupied cells than the grid's capacity leave a free cell;
/// no sequence of fewer than `width * height` positions covers all
/// `width * height` cells of the grid.
pub proof fn lemma_free_cell_exists(width: usize, height: usize, occupied: Seq<Position>)
    requires
        occupied.len() < width * height,
    ensures
        exists|p: Position| p.in_grid(width, height) && !occupied.contains(p),
{
    if forall|p: Position| p.in_grid(width, height) ==> occupied.contains(p) {
        let grid = grid_cells(width, height);
        let occ = occupied.to_set();
        assert(grid.subset_of(occ));
        lemma_grid_cells_cardinality(width, height);
        occupied.lemma_cardinality_of_set();
        vstd::set_lib::lemma_len_subset(grid, occ);
        assert(false);
    }
}

/// The first cell in row-major order that misses every cell of `occupied`;
/// on a non-full board one always exists.
fn first_free_cell(width: usize, height: usize, occupied: &Vec<Position>) -> (p: Position)
    requires
        0 < width,
        0 < height,
        occupied@.len() < width * height,
    ensures
        p.in_grid(width, height),
        !occupied@.contains(p),
{
    let mut y: usize = 0;
    while y < height
        invariant
            y <= height,
            forall|q: Position|
                q.in_grid(width, height) && q.y < y ==> occupied@.contains(q),
        decreases height - y,
    {
        let mut x: usize = 0;
        while x < width
            invariant
                x <= width,
                y < height,
                forall|q: Position|
                    q.in_grid(width, height) && q.y < y ==> occupied@.contains(q),
                forall|q: Position|
                    q.in_grid(width, height) && q.y == y && q.x < x ==> occupied@.contains(q),
            decreases width - x,
        {
            let candidate = Position { x, y };
            if !contains_position(occupied, candidate) {
                return candidate;
            }
            x += 1;
        }
        y += 1;
    }
    proof {
        lemma_free_cell_exists(width, height, occupied@);
        let w = choose|p: Position| p.in_grid(width, height) && !occupied@.contains(p);
        assert(occupied@.contains(w));
        assert(false);
    }
    Position { x: 0, y: 0 }
}

/// A tick that ends the game leaves everything but the live flag as it
/// was: the body, the food, the score and the heading of `post` are those
/// of `pre`, and `post` is terminal.
pub open spec fn ended_unchanged(pre: GameState, post: GameState) -> bool {
    &&& !post.alive
    &&& post.snake@ == pre.snake@
    &&& post.food == pre.food
    &&& post.score == pre.score
    &&& post.heading == pre.heading
}

/// One tick of a live game, relating the state before (`pre`) to the state
/// after (`post`). The effective heading resolves the request against the
/// reversal rule. A step off the grid or onto a body cell ends the game
/// with the body, food, score and heading untouched. A step onto the food
/// grows the body by the new head, raises the score by exactly one, and
/// commits the heading; it then either ends the game when the body covers
/// the whole grid, leaving the food in place, or places new food on a free
/// cell. Any other step moves the body — new head in front, tail dropped —
/// and changes nothing else but the committed heading.
pub open spec fn live_step(pre: GameState, request: Option<Direction>, post: GameState) -> bool {
    let h = effective_heading(pre.heading, request);
    let head = pre.snake@[0];
    if moves_off_grid(head, h, pre.width, pre.height) {
        ended_unchanged(pre, post)
    } else {
        let nh = head_after(head, h);
        if pre.snake@.contains(nh) {
            ended_unchanged(pre, post)
        } else if nh == pre.food {
            &&& post.snake@ == seq![nh] + pre.snake@
            &&& post.score == pre.score + 1
            &&& post.heading == h
            &&& (post.alive <==> post.snake@.len() < pre.width * pre.height)
            &&& (post.alive ==> post.food.in_grid(pre.width, pre.height)
                && !post.snake@.contains(post.food))
            &&& (!post.alive ==> post.food == pre.food)
        } else {
            &&& post.snake@ == seq![nh] + pre.snake@.drop_last()
            &&& post.score == pre.score
            &&& post.food == pre.food
            &&& post.heading == h
            &&& post.alive
        }
    }
}

proof fn lemma_wf_after_move(pre: GameState, nh: Position, post: GameState)
    requires
        pre.wf(),
        pre.alive,
        nh.in_grid(pre.width, pre.height),
        !pre.snake@.contains(nh),
        manhattan(nh, pre.snake@[0]) == 1,
        nh != pre.food,
        post.width == pre.width,
        post.height == pre.height,
        post.snake@ == seq![nh] + pre.snake@.drop_last(),
        post.food == pre.food,
        post.score == pre.score,
        post.alive,
    ensures
        post.wf(),
{
    let s0 = pre.snake@;
    let s2 = post.snake@;
    let n = s0.len() as int;
    assert(s2.len() == n);
    assert(s2[0] == nh);
    assert(forall|i: int| 1 <= i < n ==> s2[i] == s0[i - 1]);
    assert(forall|k: int| 0 <= k < n ==> s0[k] != nh);
    assert forall|i: int| 0 <= i < n implies (#[trigger] s2[i]).in_grid(post.width, post.height) by {
        if i > 0 {
            assert(s0[i - 1].in_grid(pre.width, pre.height));
        }
    }
    assert forall|i: int, j: int|
        #![trigger s2[i], s2[j]]
        0 <= i < j < n implies s2[i] != s2[j] by {
        if i == 0 {
            assert(s2[j] == s0[j - 1]);
        } else {
            assert(s2[i] == s0[i - 1]);
            assert(s2[j] == s0[j - 1]);
        }
    }
    assert forall|i: int| 0 <= i < n - 1 implies manhattan(#[trigger] s2[i], s2[i + 1]) == 1 by {
        if i == 0 {
            assert(s2[1] == s0[0]);
        } else {
            assert(s2[i] == s0[i - 1]);
            assert(s2[i + 1] == s0[i]);
            assert(manhattan(s0[i - 1], s0[i]) == 1);
        }
    }
    assert(forall|k: int| 0 <= k < n ==> s0[k] != pre.food);
    assert(forall|k: int| 0 <= k < n ==> s2[k] != post.food);
    assert(!s2.contains(post.food));
}

proof fn lemma_wf_after_growth(pre: GameState, nh: Position, post: GameState)
    requires
        pre.wf(),
        pre.alive,
        nh.in_grid(pre.width, pre.height),
        !pre.snake@.contains(nh),
        manhattan(nh, pre.snake@[0]) == 1,
        post.width == pre.width,
        post.height == pre.height,
        post.snake@ == seq![nh] + pre.snake@,
        post.score == pre.score + 1,
        post.food.in_grid(post.width, post.height),
        post.alive ==> !post.snake@.contains(post.food),
    ensures
        post.wf(),
{
    let s0 = pre.snake@;
    let s2 = post.snake@;
    let n = s0.len() as int;
    assert(s2.len() == n + 1);
    assert(s2[0] == nh);
    assert(forall|i: int| 1 <= i < n + 1 ==> s2[i] == s0[i - 1]);
    assert(forall|k: int| 0 <= k < n ==> s0[k] != nh);
    assert forall|i: int| 0 <= i < n + 1 implies (#[trigger] s2[i]).in_grid(
        post.width,
        post.height,
    ) by {
        if i > 0 {
            assert(s0[i - 1].in_grid(pre.width, pre.height));
        }
    }
    assert forall|i: int, j: int|
        #![trigger s2[i], s2[j]]
        0 <= i < j < n + 1 implies s2[i] != s2[j] by {
        if i == 0 {
            assert(s2[j] == s0[j - 1]);
        } else {
            assert(s2[i] == s0[i - 1]);
            assert(s2[j] == s0[j - 1]);
        }
    }
    assert forall|i: int| 0 <= i < n implies manhattan(#[trigger] s2[i], s2[i + 1]) == 1 by {
        if i == 0 {
            assert(s2[1] == s0[0]);
        } else {
            assert(s2[i] == s0[i - 1]);
            assert(s2[i + 1] == s0[i]);
            assert(manhattan(s0[i - 1], s0[i]) == 1);
        }
    }
}

/// The effective heading of a tick, as `effective_heading` states it.
fn resolve_heading(cur: Direction, request: Option<Direction>) -> (r: Direction)
    ensures
        r == effective_heading(cur, request),
{
    match request {
        None => cur,
        Some(d) => {
            let opp = match cur {
                Direction::Up => Direction::Down,
                Direction::Down => Direction::Up,
                Direction::Left => Direction::Right,
                Direction::Right => Direction::Left,
            };
            if d == opp {
                cur
            } else {
                d
            }
        },
    }
}

impl GameState {
    /// Advances the game by one tick. A request to move, `None` standing
    /// for "keep the current heading", is resolved against the reversal
    /// rule and the snake takes one step: see `live_step` for what one
    /// step does. A terminal game rejects the call and stays exactly as
    /// it was; a live tick always succeeds.
    #[verifier::rlimit(100)]
    pub fn update(&mut self, request: Option<Direction>) -> (r: Result<(), GameError>)
        requires
            old(self).wf(),
        ensures
            final(self).wf(),
            final(self).width == old(self).width,
            final(self).height == old(self).height,
            (!old(self).alive ==> r == Err::<(), GameError>(GameError::InvalidState)
                && *final(self) == *old(self)),
            (old(self).alive ==> r == Ok::<(), GameError>(())
                && live_step(*old(self), request, *final(self))),
    {
        if !self.alive {
            return Err(GameError::InvalidState);
        }
        let h = resolve_heading(self.heading, request);
        let head = self.snake[0];
        let off = match h {
            Direction::Up => head.y == 0,
            Direction::Down => head.y + 1 >= self.height,
            Direction::Left => head.x == 0,
            Direction::Right => head.x + 1 >= self.width,
        };
        if off {
            self.alive = false;
            return Ok(());
        }
        let nh = match h {
            Direction::Up => Position { x: head.x, y: head.y - 1 },
            Direction::Down => Position { x: head.x, y: head.y + 1 },
            Direction::Left => Position { x: head.x - 1, y: head.y },
            Direction::Right => Position { x: head.x + 1, y: head.y },
        };
        assert(nh == head_after(head, h));
        assert(manhattan(nh, head) == 1);
        if contains_position(&self.snake, nh) {
            self.alive = false;
            return Ok(());
        }
        self.snake.insert(0, nh);
        proof {
            assert(self.snake@ =~= seq![nh] + old(self).snake@);
        }
        if nh == self.food {
            let n = self.snake.len();
            assert(self.score < n);
            self.score = self.score + 1;
            let cap = self.width * self.height;
            if n >= cap {
                self.alive = false;
            } else {
                let f = place_food(self.width, self.height, &self.snake);
                self.food = f;
            }
            self.heading = h;
            proof {
                lemma_wf_after_growth(*old(self), nh, *self);
            }
        } else {
            self.snake.pop();
            proof {
                assert(self.snake@ =~= seq![nh] + old(self).snake@.drop_last());
            }
            self.heading = h;
            proof {
                lemma_wf_after_move(*old(self), nh, *self);
            }
        }
        Ok(())
    }
}

/// The row the initial snake is seeded on: vertically centered, rounding
/// toward zero.
pub open spec fn start_row(height: usize) -> usize {
    (height as int / 2) as usize
}

impl GameState {
    /// Starts a game on a `width` by `height` grid: a three-cell snake
    /// vertically centered with its head at the rightmost cell, one food
    /// cell on no snake cell, score zero, heading right. A grid too small
    /// to host the snake is rejected. On the one grid the snake fills
    /// completely (three cells in all) the game starts terminal: no food
    /// cell exists there.
    pub fn new(width: usize, height: usize) -> (r: Result<GameState, GameError>)
        requires
            width * height <= usize::MAX,
        ensures
            (3 <= width && 1 <= height) <==> r is Ok,
            !(3 <= width && 1 <= height) ==> r == Err::<GameState, GameError>(
                GameError::InvalidDimensions,
            ),
            (r is Ok ==> {
                let g = r->Ok_0;
                &&& g.wf()
                &&& g.width == width
                &&& g.height == height
                &&& g.score == 0
                &&& g.heading == Direction::Right
                &&& g.snake@ =~= seq![
                    Position { x: 2, y: start_row(height) },
                    Position { x: 1, y: start_row(height) },
                    Position { x: 0, y: start_row(height) },
                ]
                &&& (g.alive <==> width * height > 3)
                &&& (g.alive ==> g.food.in_grid(width, height) && !g.snake@.contains(g.food))
            }),
    {
        if width < 3 || height < 1 {
            return Err(GameError::InvalidDimensions);
        }
        let y = height / 2;
        assert(y < height);
        let mut snake: Vec<Position> = Vec::new();
        snake.push(Position { x: 2, y });
        snake.push(Position { x: 1, y });
        snake.push(Position { x: 0, y });
        assert(width * height >= 3) by (nonlinear_arith)
            requires width >= 3, height >= 1;
        let full = width * height == 3;
        let mut g = GameState {
            width,
            height,
            snake,
            food: Position { x: 0, y: 0 },
            score: 0,
            heading: Direction::Right,
            alive: !full,
        };
        if !full {
            let f = place_food(width, height, &g.snake);
            g.food = f;
        }
        Ok(g)
    }
}

/// A read-only copy of everything a renderer needs: the body cells in
/// order (head first), the food cell, the score, and whether the game is
/// still live.
#[derive(Debug)]
pub struct Snapshot {
    pub snake: Vec<Position>,
    pub food: Position,
    pub score: usize,
    pub alive: bool,
}

impl GameState {
    /// A copy of the renderable state; the game itself is left untouched.
    pub fn snapshot(&self) -> (s: Snapshot)
        ensures
            s.snake@ == self.snake@,
            s.food == self.food,
            s.score == self.score,
            s.alive == self.alive,
    {
        let mut cells: Vec<Position> = Vec::new();
        let mut i: usize = 0;
        while i < self.snake.len()
            invariant
                i <= self.snake@.len(),
                cells@ == self.snake@.subrange(0, i as int),
            decreases self.snake@.len() - i,
        {
            cells.push(self.snake[i]);
            proof {
                assert(cells@ =~= self.snake@.subrange(0, i + 1 as int));
            }
            i += 1;
        }
        proof {
            assert(cells@ =~= self.snake@);
        }
        Snapshot { snake: cells, food: self.food, score: self.score, alive: self.alive }
    }
}

/// Law: every pair of consecutive cells of a well-formed snake body is
/// adjacent — their Manhattan distance is exactly one.
pub proof fn lemma_snake_adjacent(g: GameState, i: int)
    requires
        g.wf(),
        0 <= i,
        i + 1 < g.snake@.len(),
    ensures
        manhattan(g.snake@[i], g.snake@[i + 1]) == 1,
{
}

/// Law: a live well-formed game holds no duplicate cell in its body.
pub proof fn lemma_snake_distinct(g: GameState, i: int, j: int)
    requires
        g.wf(),
        g.alive,
        0 <= i < j < g.snake@.len(),
    ensures
        g.snake@[i] != g.snake@[j],
{
}

/// Law: a request to reverse straight into the neck — the exact opposite
/// of the current heading — never changes the heading.
pub proof fn lemma_reversal_ignored(cur: Direction, request: Direction)
    requires
        request == cur.opposite(),
    ensures
        effective_heading(cur, Some(request)) == cur,
{
}

/// Law: over one live tick the body grows by exactly one cell when the new
/// head lands on the food and keeps its length otherwise, and the score
/// rises by exactly one on a food tick and never otherwise; in particular
/// the score never decreases.
pub proof fn lemma_tick_length_and_score(
    pre: GameState,
    request: Option<Direction>,
    post: GameState,
)
    requires
        pre.wf(),
        pre.alive,
        live_step(pre, request, post),
    ensures
        ({
            let h = effective_heading(pre.heading, request);
            let head = pre.snake@[0];
            let ate = !moves_off_grid(head, h, pre.width, pre.height)
                && !pre.snake@.contains(head_after(head, h))
                && head_after(head, h) == pre.food;
            &&& post.snake@.len() == pre.snake@.len() + (if ate { 1int } else { 0int })
            &&& post.score == pre.score + (if ate { 1int } else { 0int })
            &&& post.score >= pre.score
        }),
{
}

/// Produces a grid cell that misses every cell of `occupied`: rejection
/// sampling draws uniformly random cells and redraws on a collision; after
/// `DRAW_ATTEMPTS` rejected draws it falls back to the first free cell in
/// row order, so the call always returns. A full board has no free cell,
/// so callers rule it out; on any non-full board the result never equals
/// an occupied cell at the moment of placement.
pub fn place_food(width: usize, height: usize, occupied: &Vec<Position>) -> (p: Position)
    requires
        0 < width,
        0 < height,
        occupied@.len() < width * height,
    ensures
        p.in_grid(width, height),
        !occupied@.contains(p),
{
    let mut attempts: usize = 0;
    while attempts < DRAW_ATTEMPTS
        invariant
            0 < width,
            0 < height,
        decreases DRAW_ATTEMPTS - attempts,
    {
        let x = rand_below(width);
        let y = rand_below(height);
        let candidate = Position { x, y };
        if !contains_position(occupied, candidate) {
            return candidate;
        }
        attempts += 1;
    }
    first_free_cell(width, height, occupied)
}

} // verus!
