//! The path engine: shortest routes over the board, around everything that
//! stands on it.
//!
//! The search itself is the A* of the `pathfinding` crate. What it is asked,
//! and what is made of its answer, is stated and proved here.

use crate::grid::{
    is_obstacle, lemma_contains_add, lemma_points_add, manhattan, on_board, points, snake_views, step, without_tail,
    Board, BoardView, Coord, Direction, Point, SnakeView,
};
use crate::safety::{counts, snake_at};
use pathfinding::prelude::astar;
use vstd::prelude::*;

verus! {

/// What a search sees of a board: its size, and the cells that it has to go
/// around.
pub struct Terrain {
    pub width: int,
    pub height: int,
    pub blocked: Seq<Point>,
}

/// Whether `b` is one step from `a`.
pub open spec fn adjacent(a: Point, b: Point) -> bool {
    ||| b == step(a, Direction::Up)
    ||| b == step(a, Direction::Down)
    ||| b == step(a, Direction::Left)
    ||| b == step(a, Direction::Right)
}

impl Terrain {
    /// Whether a route may enter `p`: it lies on the board and nothing
    /// blocks it.
    pub open spec fn passable(self, p: Point) -> bool {
        on_board(self.width, self.height, p) && !self.blocked.contains(p)
    }

    /// Whether no cell of the board is blocked.
    pub open spec fn is_open(self) -> bool {
        forall|p: Point| on_board(self.width, self.height, p) ==> !self.blocked.contains(p)
    }

    /// Whether `path` leads from `start` to `goal` step by step, entering
    /// only passable cells. The start is where the walker stands, so nothing
    /// is asked of it.
    pub open spec fn is_route(self, start: Point, goal: Point, path: Seq<Point>) -> bool {
        &&& path.len() >= 1
        &&& path[0] == start
        &&& path[path.len() - 1] == goal
        &&& forall|i: int| 0 < i < path.len() ==> adjacent(path[i - 1], #[trigger] path[i]) && self.passable(path[i])
    }

    /// Whether `path` is a route from `start` to `goal` and no route between
    /// the two is shorter.
    pub open spec fn is_shortest_route(self, start: Point, goal: Point, path: Seq<Point>) -> bool {
        &&& self.is_route(start, goal, path)
        &&& forall|other: Seq<Point>| #[trigger] self.is_route(start, goal, other) ==> path.len() <= other.len()
    }

    /// The cell one step from `p` in direction `d` if a route may enter it,
    /// and nothing if not.
    pub open spec fn open_step(self, p: Point, d: Direction) -> Seq<Point> {
        if self.passable(step(p, d)) {
            seq![step(p, d)]
        } else {
            Seq::empty()
        }
    }

    /// The cells next to `p` that a route may enter, in the order left,
    /// right, down, up.
    pub open spec fn open_steps(self, p: Point) -> Seq<Point> {
        self.open_step(p, Direction::Left) + self.open_step(p, Direction::Right) + self.open_step(p, Direction::Down)
            + self.open_step(p, Direction::Up)
    }

    /// Whether `path` is a route from `head` to one of `goals` and no route
    /// from `head` to any of them is shorter.
    pub open spec fn leads_to_nearest(self, head: Point, goals: Seq<Point>, path: Seq<Point>) -> bool {
        &&& path.len() >= 1
        &&& goals.contains(path[path.len() - 1])
        &&& self.is_route(head, path[path.len() - 1], path)
        &&& forall|goal: Point, other: Seq<Point>|
            goals.contains(goal) && #[trigger] self.is_route(head, goal, other) ==> path.len() <= other.len()
    }

    /// Whether no route leads from `head` to any of `goals`.
    pub open spec fn out_of_reach(self, head: Point, goals: Seq<Point>) -> bool {
        forall|goal: Point, other: Seq<Point>| goals.contains(goal) ==> !#[trigger] self.is_route(head, goal, other)
    }

    /// Whether `found` answers a search from `start` to `goal`: a shortest
    /// route with its number of steps, or nothing where no route exists.
    pub open spec fn answered_by(self, start: Point, goal: Point, found: Option<(Vec<Coord>, u64)>) -> bool {
        match found {
            Some((path, cost)) => self.is_shortest_route(start, goal, points(path@)) && cost == path@.len() - 1,
            None => forall|any: Seq<Point>| !#[trigger] self.is_route(start, goal, any),
        }
    }

    /// Whether `nearest` answers the search for the nearest of `goals`: a
    /// shortest route to the nearest of them, or nothing where none can be
    /// reached.
    pub open spec fn nearest_answered_by(self, head: Point, goals: Seq<Point>, nearest: Option<Seq<Point>>) -> bool {
        match nearest {
            Some(path) => self.leads_to_nearest(head, goals, path),
            None => self.out_of_reach(head, goals),
        }
    }

    /// The route that a search from `start` to `goal` returns here.
    pub open spec fn searched(self, start: Point, goal: Point) -> Option<Seq<Point>> {
        astar_route(self.width, self.height, self.blocked, start, goal)
    }

    /// The routes that the searches from `head` to each of `goals` return.
    pub open spec fn searched_each(self, head: Point, goals: Seq<Point>) -> Seq<Option<Seq<Point>>> {
        Seq::new(goals.len(), |i: int| self.searched(head, goals[i]))
    }
}

/// The cells of all `snakes` but their tails, snake after snake.
pub open spec fn trunks(snakes: Seq<SnakeView>) -> Seq<Point>
    decreases snakes.len(),
{
    if snakes.len() == 0 {
        Seq::empty()
    } else {
        trunks(snakes.drop_last()) + snakes.last().trunk()
    }
}

/// What a search on `board` has to go around: the hazards, every snake but
/// its tail, and the cells of `own`.
pub open spec fn obstacle_cells(board: BoardView, own: Seq<Point>) -> Seq<Point> {
    board.hazards + trunks(board.snakes) + own
}

/// The board with `blocked` as the cells to go around.
pub open spec fn laid_out(board: BoardView, blocked: Seq<Point>) -> Terrain {
    Terrain { width: board.width, height: board.height, blocked: blocked }
}

/// What a search on `board` sees when it also goes around the cells of
/// `own`.
pub open spec fn terrain(board: BoardView, own: Seq<Point>) -> Terrain {
    laid_out(board, obstacle_cells(board, own))
}

/// The cells that a list of costed steps leads to.
pub open spec fn targets(moves: Seq<(Coord, u64)>) -> Seq<Point> {
    Seq::new(moves.len(), |i: int| moves[i].0@)
}

/// The route of a search result, as points.
pub open spec fn route_of(found: Option<(Vec<Coord>, u64)>) -> Option<Seq<Point>> {
    match found {
        Some((path, _)) => Some(points(path@)),
        None => None,
    }
}

/// The cells of a path that may be absent, as points.
pub open spec fn path_points(path: Option<Vec<Coord>>) -> Option<Seq<Point>> {
    match path {
        Some(cells) => Some(points(cells@)),
        None => None,
    }
}

impl Coord {
    /// Whether this is the cell `other`.
    pub fn is_at(&self, other: &Coord) -> (same: bool)
        ensures
            same == (self@ == other@),
    {
        self.x == other.x && self.y == other.y
    }
}

/// Adds the step from `cell` in direction `d` to `moves`, at cost 1, if a
/// route may take it.
fn push_open_step(cell: &Coord, d: Direction, board: &Board, blocked: &Vec<Coord>, moves: &mut Vec<(Coord, u64)>)
    requires
        forall|i: int| 0 <= i < old(moves)@.len() ==> (#[trigger] old(moves)@[i]).1 == 1,
    ensures
        targets(final(moves)@) == targets(old(moves)@) + laid_out(board@, points(blocked@)).open_step(cell@, d),
        forall|i: int| 0 <= i < final(moves)@.len() ==> (#[trigger] final(moves)@[i]).1 == 1,
{
    match cell.toward(d) {
        Some(next) => {
            if board.in_bounds(&next) && !is_obstacle(&next, blocked) {
                moves.push((next, 1));
            }
        },
        None => {},
    }
}

/// The cells next to `cell` that a route may enter, in the order left,
/// right, down, up, each with the cost of the step, which is 1.
pub fn open_neighbours(cell: &Coord, board: &Board, blocked: &Vec<Coord>) -> (moves: Vec<(Coord, u64)>)
    ensures
        targets(moves@) == laid_out(board@, points(blocked@)).open_steps(cell@),
        forall|i: int| 0 <= i < moves@.len() ==> (#[trigger] moves@[i]).1 == 1,
{
    let mut moves: Vec<(Coord, u64)> = Vec::new();
    push_open_step(cell, Direction::Left, board, blocked, &mut moves);
    push_open_step(cell, Direction::Right, board, blocked, &mut moves);
    push_open_step(cell, Direction::Down, board, blocked, &mut moves);
    push_open_step(cell, Direction::Up, board, blocked, &mut moves);
    moves
}

/// The route that `pathfinding`'s `astar` returns when it is asked for a way
/// from `start` to `goal` over a board of the given size, with a step of cost
/// 1 to each cell of `open_steps` and the Manhattan distance to the goal as
/// the estimate of what is left.
pub uninterp spec fn astar_route(width: int, height: int, blocked: Seq<Point>, start: Point, goal: Point) -> Option<
    Seq<Point>,
>;

/// `pathfinding::prelude::astar`, asked for a way from `start` to `goal`: a
/// step leads to each cell of `open_neighbours` at cost 1, the estimate of
/// what is left is `distance` to the goal, and the search ends on the goal.
///
/// The contract is taken from the crate and not proved here. The search
/// keeps its cells in the order in which it met them and its queue ordered
/// by cost, and draws on no chance, clock or seeded hasher: its route is
/// named as a function of the arguments. Its documentation promises a
/// shortest path with its total cost, start and end included, provided that
/// the estimate never exceeds the real cost, which is
/// `lemma_route_covers_distance`; and `None` where no path is found, which
/// the search says only when no cell is left to try. Every step ends on the
/// board, so the search runs out of cells and returns, and no cost leaves
/// the range of `u64`.
#[verifier::external_body]
fn astar_search(board: &Board, blocked: &Vec<Coord>, start: &Coord, goal: &Coord) -> (found: Option<
    (Vec<Coord>, u64),
>)
    ensures
        route_of(found) == astar_route(board.width as int, board.height as int, points(blocked@), start@, goal@),
        laid_out(board@, points(blocked@)).answered_by(start@, goal@, found),
{
    astar(start, |c| open_neighbours(c, board, blocked), |c| c.distance(goal), |c| c.is_at(goal))
}

/// A route is at least as long as the Manhattan distance between its ends:
/// the distance never overestimates what is left to walk.
pub proof fn lemma_route_covers_distance(terrain: Terrain, start: Point, goal: Point, path: Seq<Point>)
    requires
        terrain.is_route(start, goal, path),
    ensures
        path.len() - 1 >= manhattan(start, goal),
    decreases path.len(),
{
    if path.len() > 1 {
        lemma_route_prefix(terrain, start, goal, path);
        lemma_route_covers_distance(terrain, start, path[path.len() - 2], path.drop_last());
    }
}

/// A route of more than one cell, short of its last cell, is a route to the
/// cell before the last.
proof fn lemma_route_prefix(terrain: Terrain, start: Point, goal: Point, path: Seq<Point>)
    requires
        terrain.is_route(start, goal, path),
        path.len() >= 2,
    ensures
        terrain.is_route(start, path[path.len() - 2], path.drop_last()),
{
    let before = path.drop_last();
    assert forall|i: int| 0 < i < before.len() implies adjacent(before[i - 1], #[trigger] before[i])
        && terrain.passable(before[i]) by {
        assert(before[i] == path[i]);
    }
}

/// The point one step from `p` toward `toward`, along x first.
pub open spec fn approach(p: Point, toward: Point) -> Point {
    if p.x < toward.x {
        step(p, Direction::Right)
    } else if p.x > toward.x {
        step(p, Direction::Left)
    } else if p.y < toward.y {
        step(p, Direction::Up)
    } else if p.y > toward.y {
        step(p, Direction::Down)
    } else {
        p
    }
}

/// A walk from `start` to `goal` that never turns away from the goal.
pub open spec fn direct_walk(start: Point, goal: Point) -> Seq<Point>
    decreases manhattan(start, goal),
{
    if start == goal {
        seq![start]
    } else {
        direct_walk(start, approach(goal, start)).push(goal)
    }
}

/// On a board where nothing is blocked, the direct walk between two of its
/// cells is a route, and it has as many steps as the Manhattan distance.
pub proof fn lemma_direct_walk_is_route(terrain: Terrain, start: Point, goal: Point)
    requires
        on_board(terrain.width, terrain.height, start),
        on_board(terrain.width, terrain.height, goal),
        terrain.is_open(),
    ensures
        terrain.is_route(start, goal, direct_walk(start, goal)),
        direct_walk(start, goal).len() == manhattan(start, goal) + 1,
    decreases manhattan(start, goal),
{
    if start != goal {
        let via = approach(goal, start);
        lemma_direct_walk_is_route(terrain, start, via);
        let shorter = direct_walk(start, via);
        let walk = shorter.push(goal);
        assert forall|i: int| 0 < i < walk.len() implies adjacent(walk[i - 1], #[trigger] walk[i])
            && terrain.passable(walk[i]) by {
            if i < shorter.len() {
                assert(walk[i] == shorter[i]);
            }
        }
    }
}

/// A route with a step put before it is a route from where the step
/// starts.
proof fn lemma_route_after_step(terrain: Terrain, start: Point, next: Point, goal: Point, path: Seq<Point>)
    requires
        adjacent(start, next),
        terrain.passable(next),
        terrain.is_route(next, goal, path),
    ensures
        terrain.is_route(start, goal, seq![start] + path),
{
    let longer = seq![start] + path;
    assert forall|i: int| 0 < i < longer.len() implies adjacent(longer[i - 1], #[trigger] longer[i])
        && terrain.passable(longer[i]) by {
        assert(longer[i] == path[i - 1]);
    }
}

/// On a board where nothing is blocked, a shortest route has exactly as many
/// steps as the Manhattan distance between its ends.
pub proof fn lemma_open_grid_distance(terrain: Terrain, start: Point, goal: Point, path: Seq<Point>)
    requires
        terrain.is_open(),
        terrain.is_shortest_route(start, goal, path),
    ensures
        path.len() - 1 == manhattan(start, goal),
{
    lemma_route_covers_distance(terrain, start, goal, path);
    if path.len() >= 2 {
        // The route enters the board with its second cell and ends on it.
        let next = path[1];
        assert(adjacent(start, next) && terrain.passable(next));
        if on_board(terrain.width, terrain.height, start) {
            lemma_direct_walk_is_route(terrain, start, goal);
        } else {
            // From outside, the one step onto the board leads toward the goal.
            assert(manhattan(next, goal) + 1 == manhattan(start, goal));
            lemma_direct_walk_is_route(terrain, next, goal);
            lemma_route_after_step(terrain, start, next, goal, direct_walk(next, goal));
        }
    }
}

/// On a board where nothing is blocked, every cell of the board can be
/// reached from every other.
pub proof fn lemma_open_grid_is_connected(terrain: Terrain, start: Point, goal: Point)
    requires
        terrain.is_open(),
        on_board(terrain.width, terrain.height, start),
        on_board(terrain.width, terrain.height, goal),
    ensures
        exists|path: Seq<Point>| terrain.is_route(start, goal, path),
{
    lemma_direct_walk_is_route(terrain, start, goal);
}

/// A point is among the trunks of a list of snakes exactly when one of the
/// snakes covers it with a cell other than its tail.
pub proof fn lemma_trunks(snakes: Seq<SnakeView>, p: Point)
    ensures
        trunks(snakes).contains(p) <==> snake_at(snakes, p),
    decreases snakes.len(),
{
    if snakes.len() > 0 {
        let rest = snakes.drop_last();
        let last = snakes.last().trunk();
        lemma_trunks(rest, p);
        lemma_contains_add(trunks(rest), last, p);
        if snake_at(rest, p) {
            let i = choose|i: int|
                0 <= i < rest.len() && counts(rest[i], None) && #[trigger] rest[i].trunk().contains(p);
            assert(snakes[i].trunk().contains(p));
        }
        if last.contains(p) {
            assert(snakes[snakes.len() - 1].trunk().contains(p));
        }
        if snake_at(snakes, p) {
            let i = choose|i: int|
                0 <= i < snakes.len() && counts(snakes[i], None) && #[trigger] snakes[i].trunk().contains(p);
            if i < rest.len() {
                assert(rest[i].trunk().contains(p));
            }
        }
    }
}

/// A cell is among the obstacles of a search exactly when a hazard lies on
/// it, a snake covers it with a cell other than its tail, or it is one of
/// the own cells handed in.
pub proof fn lemma_obstacle_cells(board: BoardView, own: Seq<Point>, p: Point)
    ensures
        obstacle_cells(board, own).contains(p) <==> (board.hazards.contains(p) || snake_at(board.snakes, p)
            || own.contains(p)),
{
    lemma_trunks(board.snakes, p);
    lemma_contains_add(board.hazards, trunks(board.snakes), p);
    lemma_contains_add(board.hazards + trunks(board.snakes), own, p);
}

/// Adds the cells of `more` to `cells`, in order.
fn append_cells(cells: &mut Vec<Coord>, more: &Vec<Coord>)
    ensures
        final(cells)@ == old(cells)@ + more@,
{
    let mut i: usize = 0;
    while i < more.len()
        invariant
            i <= more.len(),
            cells@ == old(cells)@ + more@.take(i as int),
        decreases more.len() - i,
    {
        cells.push(more[i]);
        i += 1;
    }
}

/// What a search on `board` has to go around: the hazards, every snake but
/// its tail, and the cells of `you`, which the caller chooses: the own body
/// with its tail taken off, or nothing.
pub fn obstacles(board: &Board, you: &Vec<Coord>) -> (blocked: Vec<Coord>)
    ensures
        points(blocked@) == obstacle_cells(board@, points(you@)),
{
    let ghost all = snake_views(board.snakes@);
    let mut blocked: Vec<Coord> = Vec::new();
    append_cells(&mut blocked, &board.hazards);
    let mut i: usize = 0;
    while i < board.snakes.len()
        invariant
            i <= board.snakes.len(),
            all == snake_views(board.snakes@),
            points(blocked@) == board@.hazards + trunks(all.take(i as int)),
        decreases board.snakes.len() - i,
    {
        let ghost before = blocked@;
        let trunk = without_tail(&board.snakes[i].body);
        append_cells(&mut blocked, &trunk);
        proof {
            assert(all.take(i + 1).drop_last() =~= all.take(i as int));
            lemma_points_add(before, trunk@);
        }
        i += 1;
    }
    assert(all.take(board.snakes.len() as int) == all);
    proof {
        lemma_points_add(blocked@, you@);
    }
    append_cells(&mut blocked, you);
    blocked
}

/// A shortest route from `start` to `goal` with its number of steps, or
/// `None` where the goal cannot be reached. The route goes around the
/// hazards, every snake but its tail, and the cells of `you`. Where nothing
/// is in the way on the board, it has as many steps as the Manhattan
/// distance between its ends, and it exists where both ends are on the
/// board.
pub fn find_path(board: &Board, start: &Coord, goal: &Coord, you: &Vec<Coord>) -> (found: Option<(Vec<Coord>, u64)>)
    ensures
        route_of(found) == terrain(board@, points(you@)).searched(start@, goal@),
        terrain(board@, points(you@)).answered_by(start@, goal@, found),
        terrain(board@, points(you@)).is_open() ==> (found matches Some((_, cost)) ==> cost == manhattan(
            start@,
            goal@,
        )),
        terrain(board@, points(you@)).is_open() && board@.holds(start@) && board@.holds(goal@) ==> found is Some,
{
    let blocked = obstacles(board, you);
    let found = astar_search(board, &blocked, start, goal);
    proof {
        let seen = terrain(board@, points(you@));
        if seen.is_open() {
            if let Some(route) = route_of(found) {
                lemma_open_grid_distance(seen, start@, goal@, route);
            }
            if board@.holds(start@) && board@.holds(goal@) {
                lemma_open_grid_is_connected(seen, start@, goal@);
            }
        }
    }
    found
}

/// Of the best route so far and the next one found, the one to keep: the
/// next one only where it is strictly shorter, so that of two routes of one
/// length the earlier stays.
pub open spec fn keep_nearer(best: Option<Seq<Point>>, next: Option<Seq<Point>>) -> Option<Seq<Point>> {
    match (best, next) {
        (Some(b), Some(n)) => if n.len() < b.len() {
            next
        } else {
            best
        },
        (None, Some(_)) => next,
        (_, None) => best,
    }
}

/// The first of the shortest among the routes found, `None` where none was
/// found.
pub open spec fn nearest_route(routes: Seq<Option<Seq<Point>>>) -> Option<Seq<Point>>
    decreases routes.len(),
{
    if routes.len() == 0 {
        None
    } else {
        keep_nearer(nearest_route(routes.drop_last()), routes.last())
    }
}

/// The number of cells of a route found, and 0 where none was found.
pub open spec fn cells_of(route: Option<Seq<Point>>) -> nat {
    match route {
        Some(path) => path.len(),
        None => 0,
    }
}

/// Whether `routes[i]` is a route found, none found is shorter, and every
/// one found before it is longer.
pub open spec fn is_nearest(routes: Seq<Option<Seq<Point>>>, i: int) -> bool {
    &&& 0 <= i < routes.len()
    &&& routes[i] is Some
    &&& forall|j: int|
        0 <= j < routes.len() && routes[j] is Some ==> cells_of(routes[i]) <= cells_of(#[trigger] routes[j])
    &&& forall|j: int| 0 <= j < i && routes[j] is Some ==> cells_of(routes[i]) < cells_of(#[trigger] routes[j])
}

/// The nearest route is the first of the shortest: where two goals are
/// equally far, the one that comes first in the list wins. It is absent only
/// where no route was found at all.
pub proof fn lemma_nearest_route(routes: Seq<Option<Seq<Point>>>)
    ensures
        nearest_route(routes) is None <==> forall|j: int| 0 <= j < routes.len() ==> (#[trigger] routes[j]) is None,
        nearest_route(routes) is Some ==> exists|i: int| #[trigger]
            is_nearest(routes, i) && routes[i] == nearest_route(routes),
    decreases routes.len(),
{
    if routes.len() > 0 {
        let rest = routes.drop_last();
        let last = routes.len() - 1;
        lemma_nearest_route(rest);
        assert forall|j: int| 0 <= j < rest.len() implies rest[j] == routes[j] by {}
        let best = nearest_route(rest);
        if nearest_route(routes) is Some {
            if best is Some && nearest_route(routes) == best {
                // The best of the routes before the last stays the best.
                let i = choose|i: int| #[trigger] is_nearest(rest, i) && rest[i] == best;
                assert(is_nearest(routes, i));
            } else {
                // The last route is strictly shorter than all before it.
                assert forall|j: int| 0 <= j < last && routes[j] is Some implies cells_of(routes[last]) < cells_of(
                    #[trigger] routes[j],
                ) by {
                    let i = choose|i: int| #[trigger] is_nearest(rest, i) && rest[i] == best;
                    assert(cells_of(rest[i]) <= cells_of(rest[j]));
                }
                assert(is_nearest(routes, last));
            }
        }
    }
}

/// Of the best path so far and the answer of the next search, the path to
/// keep: the new one only where it is strictly shorter.
pub fn nearer(best: Option<Vec<Coord>>, found: Option<(Vec<Coord>, u64)>) -> (kept: Option<Vec<Coord>>)
    ensures
        path_points(kept) == keep_nearer(path_points(best), route_of(found)),
{
    match found {
        Some((path, _)) => match best {
            Some(b) => if path.len() < b.len() {
                Some(path)
            } else {
                Some(b)
            },
            None => Some(path),
        },
        None => best,
    }
}

/// The cells to head for: every food cell where there is food and no order
/// to hunt the tail, else the own tail, the last cell of `you`.
pub open spec fn goals_of(food: Seq<Point>, hunt_tail: bool, you: Seq<Point>) -> Seq<Point> {
    if food.len() == 0 || hunt_tail {
        if you.len() == 0 {
            Seq::empty()
        } else {
            seq![you.last()]
        }
    } else {
        food
    }
}

/// The route to follow from `head`: the nearest of the routes that the
/// searches toward each of the goals return, the earlier goal winning a tie.
/// `body` is what of the own body stands in the way, and `you` the whole
/// body.
pub open spec fn wanted_route(
    board: BoardView,
    head: Point,
    food: Seq<Point>,
    body: Seq<Point>,
    hunt_tail: bool,
    you: Seq<Point>,
) -> Option<Seq<Point>> {
    nearest_route(terrain(board, body).searched_each(head, goals_of(food, hunt_tail, you)))
}

/// The path to the nearest of `goals` from `head`, the earlier goal winning
/// a tie, or `None` where none can be reached. The search goes around the
/// hazards, every snake but its tail, and the cells of `body`.
pub fn nearest_of(head: &Coord, goals: &Vec<Coord>, body: &Vec<Coord>, board: &Board) -> (nearest: Option<
    Vec<Coord>,
>)
    ensures
        path_points(nearest) == nearest_route(terrain(board@, points(body@)).searched_each(head@, points(goals@))),
        terrain(board@, points(body@)).nearest_answered_by(head@, points(goals@), path_points(nearest)),
{
    let ghost seen = terrain(board@, points(body@));
    let ghost aims = points(goals@);
    let ghost routes = seen.searched_each(head@, aims);
    let mut best: Option<Vec<Coord>> = None;
    let mut i: usize = 0;
    while i < goals.len()
        invariant
            i <= goals.len(),
            seen == terrain(board@, points(body@)),
            aims == points(goals@),
            routes == seen.searched_each(head@, aims),
            path_points(best) == nearest_route(routes.take(i as int)),
            seen.nearest_answered_by(head@, aims.take(i as int), path_points(best)),
        decreases goals.len() - i,
    {
        let found = find_path(board, head, &goals[i], body);
        best = nearer(best, found);
        proof {
            assert(routes.take(i + 1).drop_last() =~= routes.take(i as int));
            // The goals tried so far are those tried before and this one.
            let so_far = aims.take(i as int);
            let now = aims.take(i + 1);
            let aim = aims[i as int];
            assert(now =~= so_far + seq![aim]);
            assert forall|goal: Point| now.contains(goal) <==> (so_far.contains(goal) || goal == aim) by {
                lemma_contains_add(so_far, seq![aim], goal);
                if goal == aim {
                    assert(seq![aim][0] == goal);
                }
            }
        }
        i += 1;
    }
    assert(routes.take(goals.len() as int) =~= routes);
    assert(aims.take(goals.len() as int) =~= aims);
    best
}

/// The path to follow from `head`: to the nearest food, or to the own tail
/// where there is no food or `hunt_tail` is set. `None` where no goal can be
/// reached. `body` is the own body with its tail taken off, which the search
/// goes around, and `you` the whole body, whose last cell is the tail.
pub fn find_nearest_food_astar(
    head: &Coord,
    food: &Vec<Coord>,
    body: &Vec<Coord>,
    board: &Board,
    hunt_tail: bool,
    you: &Vec<Coord>,
) -> (nearest: Option<Vec<Coord>>)
    ensures
        path_points(nearest) == wanted_route(board@, head@, points(food@), points(body@), hunt_tail, points(you@)),
        terrain(board@, points(body@)).nearest_answered_by(
            head@,
            goals_of(points(food@), hunt_tail, points(you@)),
            path_points(nearest),
        ),
{
    if food.len() == 0 || hunt_tail {
        let mut tail: Vec<Coord> = Vec::new();
        if you.len() > 0 {
            tail.push(you[you.len() - 1]);
        }
        assert(points(tail@) =~= goals_of(points(food@), hunt_tail, points(you@)));
        nearest_of(head, &tail, body, board)
    } else {
        nearest_of(head, food, body, board)
    }
}

/// The move that leads from `from` to `to`, if the two are one step apart.
pub open spec fn heading(from: Point, to: Point) -> Option<Direction> {
    if to == step(from, Direction::Up) {
        Some(Direction::Up)
    } else if to == step(from, Direction::Down) {
        Some(Direction::Down)
    } else if to == step(from, Direction::Right) {
        Some(Direction::Right)
    } else if to == step(from, Direction::Left) {
        Some(Direction::Left)
    } else {
        None
    }
}

/// The moves that lead along `path`, one for each pair of consecutive cells
/// that are one step apart.
pub open spec fn headings(path: Seq<Point>) -> Seq<Direction>
    decreases path.len(),
{
    if path.len() < 2 {
        Seq::empty()
    } else {
        let so_far = headings(path.drop_last());
        match heading(path[path.len() - 2], path[path.len() - 1]) {
            Some(d) => so_far.push(d),
            None => so_far,
        }
    }
}

/// Along a route every pair of consecutive cells is one step apart: there is
/// one move for each step, and it leads from its cell to the next.
pub proof fn lemma_headings_of_route(terrain: Terrain, start: Point, goal: Point, path: Seq<Point>)
    requires
        terrain.is_route(start, goal, path),
    ensures
        headings(path).len() == path.len() - 1,
        forall|i: int| 0 <= i < path.len() - 1 ==> step(path[i], #[trigger] headings(path)[i]) == path[i + 1],
    decreases path.len(),
{
    if path.len() >= 2 {
        let before = path.drop_last();
        lemma_route_prefix(terrain, start, goal, path);
        lemma_headings_of_route(terrain, start, path[path.len() - 2], before);
        assert forall|i: int| 0 <= i < path.len() - 1 implies step(path[i], #[trigger] headings(path)[i]) == path[i
            + 1] by {
            if i < path.len() - 2 {
                assert(headings(path)[i] == headings(before)[i]);
                assert(before[i] == path[i] && before[i + 1] == path[i + 1]);
            }
        }
    }
}

/// The move that leads from `from` to `to`, if the two are one step apart.
pub fn heading_between(from: &Coord, to: &Coord) -> (d: Option<Direction>)
    ensures
        d == heading(from@, to@),
{
    if to.x == from.x {
        if from.y < i32::MAX && to.y == from.y + 1 {
            return Some(Direction::Up);
        }
        if from.y > i32::MIN && to.y == from.y - 1 {
            return Some(Direction::Down);
        }
    }
    if to.y == from.y {
        if from.x < i32::MAX && to.x == from.x + 1 {
            return Some(Direction::Right);
        }
        if from.x > i32::MIN && to.x == from.x - 1 {
            return Some(Direction::Left);
        }
    }
    None
}

/// The moves that lead along `path`, found by comparing each cell with the
/// next: one move for each pair that is one step apart.
pub fn directions_along(path: &Vec<Coord>) -> (moves: Vec<Direction>)
    ensures
        moves@ == headings(points(path@)),
{
    let mut moves: Vec<Direction> = Vec::new();
    if path.len() < 2 {
        return moves;
    }
    let ghost cells = points(path@);
    let mut i: usize = 1;
    while i < path.len()
        invariant
            1 <= i <= path.len(),
            cells == points(path@),
            moves@ == headings(cells.take(i as int)),
        decreases path.len() - i,
    {
        let d = heading_between(&path[i - 1], &path[i]);
        proof {
            assert(cells.take(i + 1).drop_last() =~= cells.take(i as int));
        }
        match d {
            Some(m) => {
                moves.push(m);
            },
            None => {},
        }
        i += 1;
    }
    assert(cells.take(path.len() as int) =~= cells);
    moves
}

/// The moves of a plan that may be absent.
pub open spec fn plan_moves(plan: Option<Vec<Direction>>) -> Option<Seq<Direction>> {
    match plan {
        Some(moves) => Some(moves@),
        None => None,
    }
}

/// The plan that a route gives: its moves in order, and no plan where there
/// is no route or the route has no move.
pub open spec fn plan_of(route: Option<Seq<Point>>) -> Option<Seq<Direction>> {
    match route {
        Some(path) => if headings(path).len() > 0 {
            Some(headings(path))
        } else {
            None
        },
        None => None,
    }
}

/// The moves to suggest from `head`: those along the path that
/// `find_nearest_food_astar` finds, in order, or `None` where it finds none
/// or the path has no move. The route behind the plan is a shortest one to
/// the nearest goal.
pub fn suggested_best_move(
    head: &Coord,
    food: &Vec<Coord>,
    body: &Vec<Coord>,
    board: &Board,
    hunt_tail: bool,
    you: &Vec<Coord>,
) -> (plan: Option<Vec<Direction>>)
    ensures
        plan_moves(plan) == plan_of(
            wanted_route(board@, head@, points(food@), points(body@), hunt_tail, points(you@)),
        ),
        terrain(board@, points(body@)).nearest_answered_by(
            head@,
            goals_of(points(food@), hunt_tail, points(you@)),
            wanted_route(board@, head@, points(food@), points(body@), hunt_tail, points(you@)),
        ),
{
    match find_nearest_food_astar(head, food, body, board, hunt_tail, you) {
        Some(path) => {
            let moves = directions_along(&path);
            if moves.len() > 0 {
                Some(moves)
            } else {
                None
            }
        },
        None => None,
    }
}

} // verus!
