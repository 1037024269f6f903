//! The safety filter: which of the four moves do not kill the snake at once.
//!
//! A decision starts from a mapping that allows every move, and each filter
//! only ever takes moves away. Hazards count as deadly here, and the path
//! search treats them as walls, so that the two agree on what is occupied.

use crate::grid::{
    is_cell, is_obstacle, points, snake_views, step, without_tail, Battlesnake, Board, BoardView, Coord, Direction,
    Point, SnakeView,
};
use vstd::prelude::*;

verus! {

/// For each of the four moves, whether it is legal now.
#[derive(Debug, Clone, Copy, PartialEq, Eq, Structural)]
pub struct MoveSafety {
    pub up: bool,
    pub down: bool,
    pub left: bool,
    pub right: bool,
}

impl MoveSafety {
    /// The mapping that allows every move.
    pub open spec fn all_safe() -> MoveSafety {
        MoveSafety { up: true, down: true, left: true, right: true }
    }

    /// Whether move `d` is flagged safe.
    pub open spec fn allows(self, d: Direction) -> bool {
        match d {
            Direction::Up => self.up,
            Direction::Down => self.down,
            Direction::Left => self.left,
            Direction::Right => self.right,
        }
    }

    /// This mapping narrowed by a test: a move stays safe where it was safe
    /// and `ok` holds of it. No move becomes safe.
    pub open spec fn keeping(self, ok: spec_fn(Direction) -> bool) -> MoveSafety {
        MoveSafety {
            up: self.up && ok(Direction::Up),
            down: self.down && ok(Direction::Down),
            left: self.left && ok(Direction::Left),
            right: self.right && ok(Direction::Right),
        }
    }

    /// Whether any move is flagged safe.
    pub open spec fn any(self) -> bool {
        self.up || self.down || self.left || self.right
    }

    /// The moves flagged safe, in the order up, down, left, right.
    pub open spec fn safe_list(self) -> Seq<Direction> {
        (if self.up {
            seq![Direction::Up]
        } else {
            seq![]
        }) + (if self.down {
            seq![Direction::Down]
        } else {
            seq![]
        }) + (if self.left {
            seq![Direction::Left]
        } else {
            seq![]
        }) + (if self.right {
            seq![Direction::Right]
        } else {
            seq![]
        })
    }

    /// The mapping a decision starts from: every move safe.
    pub fn new() -> (all: MoveSafety)
        ensures
            all == MoveSafety::all_safe(),
    {
        MoveSafety { up: true, down: true, left: true, right: true }
    }

    /// Whether move `d` is flagged safe.
    pub fn is_safe(&self, d: Direction) -> (safe: bool)
        ensures
            safe == self.allows(d),
    {
        match d {
            Direction::Up => self.up,
            Direction::Down => self.down,
            Direction::Left => self.left,
            Direction::Right => self.right,
        }
    }

    /// Flags move `d` unsafe and leaves the other three as they are.
    pub fn forbid(&mut self, d: Direction)
        ensures
            *final(self) == old(self).keeping(|e: Direction| e != d),
    {
        match d {
            Direction::Up => {
                self.up = false;
            },
            Direction::Down => {
                self.down = false;
            },
            Direction::Left => {
                self.left = false;
            },
            Direction::Right => {
                self.right = false;
            },
        }
    }

    /// The moves flagged safe, in the order up, down, left, right.
    pub fn safe_moves(&self) -> (list: Vec<Direction>)
        ensures
            list@ == self.safe_list(),
            list@.len() > 0 <==> self.any(),
            list@.len() <= 4,
            forall|d: Direction| list@.contains(d) <==> self.allows(d),
    {
        let mut list: Vec<Direction> = Vec::new();
        if self.up {
            list.push(Direction::Up);
        }
        if self.down {
            list.push(Direction::Down);
        }
        if self.left {
            list.push(Direction::Left);
        }
        if self.right {
            list.push(Direction::Right);
        }
        proof {
            self.lemma_safe_list();
        }
        list
    }

    /// A narrowed mapping allows a move exactly where the mapping before
    /// allowed it and the test holds of it: narrowing never makes a move
    /// safe again.
    pub proof fn lemma_keeping(self, ok: spec_fn(Direction) -> bool, d: Direction)
        ensures
            self.keeping(ok).allows(d) == (self.allows(d) && ok(d)),
            self.keeping(ok).allows(d) ==> self.allows(d),
    {
    }

    /// The list of safe moves holds a move exactly when the move is flagged
    /// safe, and is empty exactly when none is.
    pub proof fn lemma_safe_list(self)
        ensures
            self.safe_list().len() > 0 <==> self.any(),
            self.safe_list().len() <= 4,
            forall|d: Direction| self.safe_list().contains(d) <==> self.allows(d),
    {
        let list = self.safe_list();
        assert forall|d: Direction| self.allows(d) implies list.contains(d) by {
            let before: int = match d {
                Direction::Up => 0,
                Direction::Down => if self.up {
                    1
                } else {
                    0
                },
                Direction::Left => (if self.up {
                    1int
                } else {
                    0
                }) + (if self.down {
                    1int
                } else {
                    0
                }),
                Direction::Right => (if self.up {
                    1int
                } else {
                    0
                }) + (if self.down {
                    1int
                } else {
                    0
                }) + (if self.left {
                    1int
                } else {
                    0
                }),
            };
            assert(list[before] == d);
        }
    }
}

/// The move that leads from the head back toward the neck, if the two differ:
/// left or right where the neck lies to a side, else down or up.
pub open spec fn neck_heading(head: Point, neck: Point) -> Option<Direction> {
    if neck.x < head.x {
        Some(Direction::Left)
    } else if neck.x > head.x {
        Some(Direction::Right)
    } else if neck.y < head.y {
        Some(Direction::Down)
    } else if neck.y > head.y {
        Some(Direction::Up)
    } else {
        None
    }
}

/// Whether `snake` counts as being in the way: every snake does, but the one
/// with the identifier `skip`, if one is given.
pub open spec fn counts(snake: SnakeView, skip: Option<Seq<char>>) -> bool {
    skip matches Some(id) ==> snake.id != id
}

/// Whether one of `snakes` that count covers `p` with a cell other than its
/// tail.
pub open spec fn rival_at(snakes: Seq<SnakeView>, skip: Option<Seq<char>>, p: Point) -> bool {
    exists|i: int| 0 <= i < snakes.len() && counts(snakes[i], skip) && #[trigger] snakes[i].trunk().contains(p)
}

/// Whether one of `snakes` covers `p` with a cell other than its tail.
pub open spec fn snake_at(snakes: Seq<SnakeView>, p: Point) -> bool {
    rival_at(snakes, None, p)
}

/// Whether one of `snakes` other than the one identified by `own_id` covers
/// `p` with a cell other than its tail.
pub open spec fn opponent_at(snakes: Seq<SnakeView>, own_id: Seq<char>, p: Point) -> bool {
    rival_at(snakes, Some(own_id), p)
}

/// Whether the neck of `you` forbids move `d`: there is a neck, and `d`
/// leads back toward it.
pub open spec fn neck_forbids(you: SnakeView, d: Direction) -> bool {
    you.neck() matches Some(neck) && neck_heading(you.head, neck) == Some(d)
}

/// Whether `you` survives move `d` on `board`: the move does not turn back
/// toward the neck, and it ends on the board, off the own body, off every
/// other snake and off every hazard. Tails move away and are free.
pub open spec fn safe_now(board: BoardView, you: SnakeView, d: Direction) -> bool {
    let target = step(you.head, d);
    &&& !neck_forbids(you, d)
    &&& board.holds(target)
    &&& !you.trunk().contains(target)
    &&& !opponent_at(board.snakes, you.id, target)
    &&& !board.hazards.contains(target)
}

/// The mapping that the safety filter gives for `you` on `board`.
pub open spec fn safe_flags(board: BoardView, you: SnakeView) -> MoveSafety {
    MoveSafety::all_safe().keeping(|d: Direction| safe_now(board, you, d))
}

/// Takes away the move that turns back toward the neck.
pub fn prevent_backwards(head: &Coord, neck: &Coord, is_move_safe: &mut MoveSafety)
    ensures
        *final(is_move_safe) == old(is_move_safe).keeping(|d: Direction| neck_heading(head@, neck@) != Some(d)),
{
    if neck.x < head.x {
        is_move_safe.forbid(Direction::Left);
    } else if neck.x > head.x {
        is_move_safe.forbid(Direction::Right);
    } else if neck.y < head.y {
        is_move_safe.forbid(Direction::Down);
    } else if neck.y > head.y {
        is_move_safe.forbid(Direction::Up);
    }
}

impl Coord {
    /// Whether the step in direction `d` ends on one of `cells`.
    pub fn steps_onto(&self, d: Direction, cells: &Vec<Coord>) -> (hit: bool)
        ensures
            hit == points(cells@).contains(step(self@, d)),
    {
        match self.toward(d) {
            Some(target) => is_obstacle(&target, cells),
            None => false,
        }
    }

    /// Whether the step in direction `d` ends on the board.
    pub fn stays_on(&self, d: Direction, board: &Board) -> (inside: bool)
        ensures
            inside == board@.holds(step(self@, d)),
    {
        match self.toward(d) {
            Some(target) => board.in_bounds(&target),
            None => false,
        }
    }

    /// Takes away every move that ends off the board.
    pub fn prevent_walls(&self, board: &Board, is_move_safe: &mut MoveSafety)
        ensures
            *final(is_move_safe) == old(is_move_safe).keeping(|d: Direction| board@.holds(step(self@, d))),
    {
        if !self.stays_on(Direction::Up, board) {
            is_move_safe.forbid(Direction::Up);
        }
        if !self.stays_on(Direction::Down, board) {
            is_move_safe.forbid(Direction::Down);
        }
        if !self.stays_on(Direction::Left, board) {
            is_move_safe.forbid(Direction::Left);
        }
        if !self.stays_on(Direction::Right, board) {
            is_move_safe.forbid(Direction::Right);
        }
    }

    /// Takes away every move that ends on one of `cells`.
    fn prevent_cells(&self, cells: &Vec<Coord>, is_move_safe: &mut MoveSafety)
        ensures
            *final(is_move_safe) == old(is_move_safe).keeping(
                |d: Direction| !points(cells@).contains(step(self@, d)),
            ),
    {
        if self.steps_onto(Direction::Up, cells) {
            is_move_safe.forbid(Direction::Up);
        }
        if self.steps_onto(Direction::Down, cells) {
            is_move_safe.forbid(Direction::Down);
        }
        if self.steps_onto(Direction::Left, cells) {
            is_move_safe.forbid(Direction::Left);
        }
        if self.steps_onto(Direction::Right, cells) {
            is_move_safe.forbid(Direction::Right);
        }
    }

    /// Takes away every move that ends on the snake's own body. `body` is the
    /// body as it stands in the way: the caller has taken the tail off.
    pub fn prevent_self_destruction(&self, body: &Vec<Coord>, is_move_safe: &mut MoveSafety)
        ensures
            *final(is_move_safe) == old(is_move_safe).keeping(
                |d: Direction| !points(body@).contains(step(self@, d)),
            ),
    {
        self.prevent_cells(body, is_move_safe);
    }

    /// Takes away every move that ends on a hazard.
    pub fn prevent_hazards(&self, hazards: &Vec<Coord>, is_move_safe: &mut MoveSafety)
        ensures
            *final(is_move_safe) == old(is_move_safe).keeping(
                |d: Direction| !points(hazards@).contains(step(self@, d)),
            ),
    {
        self.prevent_cells(hazards, is_move_safe);
    }

    /// Takes away every move that ends on `snake`, whose tail moves away and
    /// does not count.
    pub fn prevent_snake(&self, snake: &Battlesnake, is_move_safe: &mut MoveSafety)
        ensures
            *final(is_move_safe) == old(is_move_safe).keeping(
                |d: Direction| !snake@.trunk().contains(step(self@, d)),
            ),
    {
        let trunk = without_tail(&snake.body);
        self.prevent_cells(&trunk, is_move_safe);
    }

    /// Takes away every move that ends on one of `snakes`, but for the snake
    /// identified by `skip`, if one is given.
    fn prevent_rivals(&self, snakes: &Vec<Battlesnake>, skip: Option<&String>, is_move_safe: &mut MoveSafety)
        ensures
            *final(is_move_safe) == old(is_move_safe).keeping(
                |d: Direction| !rival_at(snake_views(snakes@), identifier(skip), step(self@, d)),
            ),
    {
        let ghost skipped = identifier(skip);
        let ghost all = snake_views(snakes@);
        let mut i: usize = 0;
        while i < snakes.len()
            invariant
                i <= snakes.len(),
                skipped == identifier(skip),
                all == snake_views(snakes@),
                *is_move_safe == old(is_move_safe).keeping(
                    |d: Direction| !rival_at(all.take(i as int), skipped, step(self@, d)),
                ),
            decreases snakes.len() - i,
        {
            let taken = match skip {
                Some(id) => snakes[i].id != *id,
                None => true,
            };
            if taken {
                self.prevent_snake(&snakes[i], is_move_safe);
            }
            proof {
                lemma_rival_at_next(all, skipped, i as int, step(self@, Direction::Up));
                lemma_rival_at_next(all, skipped, i as int, step(self@, Direction::Down));
                lemma_rival_at_next(all, skipped, i as int, step(self@, Direction::Left));
                lemma_rival_at_next(all, skipped, i as int, step(self@, Direction::Right));
            }
            i += 1;
        }
        assert(all.take(snakes.len() as int) == all);
    }

    /// Takes away every move that ends on one of `snakes`. Their tails move
    /// away as the turn is played and do not count.
    pub fn prevent_other_snakes(&self, snakes: &Vec<Battlesnake>, is_move_safe: &mut MoveSafety)
        ensures
            *final(is_move_safe) == old(is_move_safe).keeping(
                |d: Direction| !snake_at(snake_views(snakes@), step(self@, d)),
            ),
    {
        self.prevent_rivals(snakes, None, is_move_safe);
    }
}

/// The four moves in the order in which they are listed: up, down, left,
/// right.
pub open spec fn all_moves() -> Seq<Direction> {
    seq![Direction::Up, Direction::Down, Direction::Left, Direction::Right]
}

/// The points that `moves` lead to from `from`, one for each move.
pub open spec fn reached(from: Point, moves: Seq<Direction>) -> Seq<Point> {
    Seq::new(moves.len(), |i: int| step(from, moves[i]))
}

/// Whether the step from `from` in direction `d` ends on a free cell: on
/// the board, off every snake but its tail, off the hazards and off `body`.
pub open spec fn is_free(
    from: Point,
    hazards: Seq<Point>,
    snakes: Seq<SnakeView>,
    body: Seq<Point>,
    board: BoardView,
    d: Direction,
) -> bool {
    let target = step(from, d);
    &&& board.holds(target)
    &&& !snake_at(snakes, target)
    &&& !hazards.contains(target)
    &&& !body.contains(target)
}

/// For each move from `from`, whether it ends on a free cell.
pub open spec fn free_flags(
    from: Point,
    hazards: Seq<Point>,
    snakes: Seq<SnakeView>,
    body: Seq<Point>,
    board: BoardView,
) -> MoveSafety {
    MoveSafety::all_safe().keeping(|d: Direction| is_free(from, hazards, snakes, body, board, d))
}

/// The cost of entering a cell: 1 where it is free, 999 where it is not.
pub open spec fn entry_cost(free: bool) -> usize {
    if free {
        1
    } else {
        999
    }
}

/// The move that a text names, and left where it names none.
pub open spec fn move_named(text: Seq<char>) -> Direction {
    match Direction::named_by(text) {
        Some(d) => d,
        None => Direction::Left,
    }
}

impl Coord {
    /// For each move from this cell, whether it ends on a free cell.
    fn free_moves(
        &self,
        hazards: &Vec<Coord>,
        battlesnakes: &Vec<Battlesnake>,
        body: &Vec<Coord>,
        board: &Board,
    ) -> (flags: MoveSafety)
        ensures
            flags == free_flags(self@, points(hazards@), snake_views(battlesnakes@), points(body@), board@),
    {
        let mut flags = MoveSafety::new();
        self.prevent_walls(board, &mut flags);
        self.prevent_other_snakes(battlesnakes, &mut flags);
        self.prevent_hazards(hazards, &mut flags);
        self.prevent_self_destruction(body, &mut flags);
        flags
    }

    /// The free cells next to this one, in the order up, down, left, right.
    pub fn successors(
        &self,
        hazards: &Vec<Coord>,
        battlesnakes: &Vec<Battlesnake>,
        body: &Vec<Coord>,
        board: &Board,
    ) -> (cells: Vec<Coord>)
        ensures
            points(cells@) == reached(
                self@,
                free_flags(self@, points(hazards@), snake_views(battlesnakes@), points(body@), board@).safe_list(),
            ),
    {
        let flags = self.free_moves(hazards, battlesnakes, body, board);
        let moves = flags.safe_moves();
        let mut cells: Vec<Coord> = Vec::new();
        let mut i: usize = 0;
        while i < moves.len()
            invariant
                i <= moves.len(),
                flags == free_flags(self@, points(hazards@), snake_views(battlesnakes@), points(body@), board@),
                forall|d: Direction| moves@.contains(d) <==> flags.allows(d),
                cells@.len() == i,
                points(cells@) == reached(self@, moves@.take(i as int)),
            decreases moves.len() - i,
        {
            let d = moves[i];
            let ghost before = cells@;
            proof {
                assert(flags.allows(d));
            }
            match self.toward(d) {
                Some(cell) => {
                    cells.push(cell);
                },
                None => {},
            }
            proof {
                assert forall|k: int| 0 <= k < i + 1 implies points(cells@)[k] == reached(
                    self@,
                    moves@.take(i + 1),
                )[k] by {
                    if k < i {
                        assert(points(before)[k] == reached(self@, moves@.take(i as int))[k]);
                    }
                }
            }
            i += 1;
        }
        cells
    }

    /// The four cells next to this one, in the order up, down, left, right,
    /// each with the cost of entering it: 1 where it is free, 999 where it
    /// is not. The cell does not lie on the rim of the machine range.
    pub fn neighbours(
        &self,
        hazards: &Vec<Coord>,
        battlesnakes: &Vec<Battlesnake>,
        body: &Vec<Coord>,
        board: &Board,
    ) -> (moves: Vec<(Coord, usize)>)
        requires
            i32::MIN < self.x < i32::MAX,
            i32::MIN < self.y < i32::MAX,
        ensures
            moves@.len() == 4,
            forall|k: int|
                0 <= k < 4 ==> (#[trigger] moves@[k]).0@ == step(self@, all_moves()[k]) && moves@[k].1 == entry_cost(
                    is_free(
                        self@,
                        points(hazards@),
                        snake_views(battlesnakes@),
                        points(body@),
                        board@,
                        all_moves()[k],
                    ),
                ),
    {
        let flags = self.free_moves(hazards, battlesnakes, body, board);
        let mut moves: Vec<(Coord, usize)> = Vec::new();
        moves.push((Coord { x: self.x, y: self.y + 1 }, if flags.up { 1 } else { 999 }));
        moves.push((Coord { x: self.x, y: self.y - 1 }, if flags.down { 1 } else { 999 }));
        moves.push((Coord { x: self.x - 1, y: self.y }, if flags.left { 1 } else { 999 }));
        moves.push((Coord { x: self.x + 1, y: self.y }, if flags.right { 1 } else { 999 }));
        moves
    }

    /// The cell one step away in the direction that `name` names: `"up"`,
    /// `"down"`, `"left"` or `"right"`. Any other text stands for left. The
    /// step stays in the machine range.
    pub fn get_coord_from_string(&self, name: &str) -> (cell: Coord)
        requires
            is_cell(step(self@, move_named(name@))),
        ensures
            cell@ == step(self@, move_named(name@)),
    {
        let d = match Direction::from_label(name) {
            Some(d) => d,
            None => Direction::Left,
        };
        match d {
            Direction::Up => Coord { x: self.x, y: self.y + 1 },
            Direction::Down => Coord { x: self.x, y: self.y - 1 },
            Direction::Left => Coord { x: self.x - 1, y: self.y },
            Direction::Right => Coord { x: self.x + 1, y: self.y },
        }
    }
}

/// The identifier to skip, as text.
pub open spec fn identifier(skip: Option<&String>) -> Option<Seq<char>> {
    match skip {
        Some(id) => Some(id@),
        None => None,
    }
}

/// A rival is among the first `i + 1` snakes exactly when it is among the
/// first `i` or is the next one.
proof fn lemma_rival_at_next(snakes: Seq<SnakeView>, skip: Option<Seq<char>>, i: int, p: Point)
    requires
        0 <= i < snakes.len(),
    ensures
        rival_at(snakes.take(i + 1), skip, p) <==> (rival_at(snakes.take(i), skip, p) || (counts(snakes[i], skip)
            && snakes[i].trunk().contains(p))),
{
    let seen = snakes.take(i);
    let more = snakes.take(i + 1);
    if rival_at(more, skip, p) {
        let j = choose|j: int| 0 <= j < more.len() && counts(more[j], skip) && #[trigger] more[j].trunk().contains(p);
        if j < i {
            assert(seen[j].trunk().contains(p));
        }
    }
    if rival_at(seen, skip, p) {
        let j = choose|j: int| 0 <= j < seen.len() && counts(seen[j], skip) && #[trigger] seen[j].trunk().contains(p);
        assert(more[j].trunk().contains(p));
    }
    if counts(snakes[i], skip) && snakes[i].trunk().contains(p) {
        assert(more[i].trunk().contains(p));
    }
}

/// The safety filter: for each move, whether `you` survives it on `board`.
/// The filters run in a fixed order, the neck first, then the walls, the own
/// body, the other snakes and the hazards, and each only takes moves away.
/// The other snakes are those of the board whose identifier is not the own.
pub fn safety_filter(board: &Board, you: &Battlesnake) -> (safety: MoveSafety)
    ensures
        safety == safe_flags(board@, you@),
        forall|d: Direction| safety.allows(d) ==> board@.holds(step(you@.head, d)),
        forall|d: Direction| neck_forbids(you@, d) ==> !safety.allows(d),
{
    let mut safety = MoveSafety::new();
    let head = you.head_cell();
    if you.body.len() >= 2 {
        prevent_backwards(&head, &you.body[1], &mut safety);
    }
    head.prevent_walls(board, &mut safety);
    let body = without_tail(&you.body);
    head.prevent_self_destruction(&body, &mut safety);
    head.prevent_rivals(&board.snakes, Some(&you.id), &mut safety);
    head.prevent_hazards(&board.hazards, &mut safety);
    safety
}

/// A move that the filter flags safe ends on the board.
pub proof fn lemma_safe_move_stays_on_board(board: BoardView, you: SnakeView, d: Direction)
    requires
        safe_flags(board, you).allows(d),
    ensures
        board.holds(step(you.head, d)),
{
}

/// Where the snake has a neck, the filter never flags the move toward it
/// safe, and so no move that ends on the neck.
pub proof fn lemma_neck_is_never_safe(board: BoardView, you: SnakeView, d: Direction)
    requires
        you.neck() matches Some(neck) && (neck_heading(you.head, neck) == Some(d) || step(you.head, d) == neck),
    ensures
        !safe_flags(board, you).allows(d),
{
}

} // verus!
