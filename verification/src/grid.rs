//! The grid model: cells, directions, the board and the snakes on it.
//!
//! Each type that the engine reads has a mathematical model, its view: a
//! `Coord` stands for a `Point` of the plane, a snake for its identifier,
//! head and body, a board for its size and what lies on it. The contracts of
//! the engine speak of these models alone.

use serde_json::Value;
use std::collections::HashMap;
use vstd::prelude::*;

verus! {

/// `serde_json::Value`, the value of a ruleset entry. The engine carries it
/// and never looks inside.
#[verifier::external_type_specification]
#[verifier::external_body]
pub struct ExValue(Value);

/// A position of the plane: the model of a `Coord`. Unlike a `Coord` it can
/// lie anywhere, so a step off the edge of the machine range is still a
/// point.
pub struct Point {
    pub x: int,
    pub y: int,
}

/// One of the four cardinal moves.
#[derive(Debug, Clone, Copy, PartialEq, Eq, Hash, Structural)]
pub enum Direction {
    Up,
    Down,
    Left,
    Right,
}

/// A cell of the board. The origin is the bottom-left corner, `x` grows to
/// the right and `y` grows upward.
#[derive(Debug, Clone, Copy, PartialEq, Eq, Hash, Structural)]
pub struct Coord {
    pub x: i32,
    pub y: i32,
}

/// Metadata of the game a turn belongs to. It has no bearing on the move.
#[derive(Debug)]
pub struct Game {
    pub id: String,
    pub ruleset: HashMap<String, Value>,
    pub timeout: i32,
}

/// A snake. Its body runs from the head, first, to the tail, last; the
/// second cell is the neck. `head` is a copy of the first cell of the body:
/// the engine reads the head from the body, and from `head` only where the
/// body is empty.
#[derive(Debug, Clone)]
pub struct Battlesnake {
    pub id: String,
    pub name: String,
    pub health: i32,
    pub body: Vec<Coord>,
    pub head: Coord,
    pub length: i32,
    pub latency: String,
    pub shout: Option<String>,
}

/// The board of one turn: its size, the food and the hazards on it, and the
/// snakes that are alive.
#[derive(Debug)]
pub struct Board {
    pub height: i32,
    pub width: i32,
    pub food: Vec<Coord>,
    pub snakes: Vec<Battlesnake>,
    pub hazards: Vec<Coord>,
}

/// All that is known of one turn. A decision reads the board and the own
/// snake; nothing is kept from one turn to the next.
#[derive(Debug)]
pub struct GameState {
    pub game: Game,
    pub turn: i32,
    pub board: Board,
    pub you: Battlesnake,
}

/// What the engine reads of a snake: the model of a `Battlesnake`.
pub struct SnakeView {
    pub id: Seq<char>,
    pub head: Point,
    pub body: Seq<Point>,
}

/// What the engine reads of a board: the model of a `Board`.
pub struct BoardView {
    pub width: int,
    pub height: int,
    pub food: Seq<Point>,
    pub hazards: Seq<Point>,
    pub snakes: Seq<SnakeView>,
}

impl View for Coord {
    type V = Point;

    open spec fn view(&self) -> Point {
        Point { x: self.x as int, y: self.y as int }
    }
}

impl View for Battlesnake {
    type V = SnakeView;

    open spec fn view(&self) -> SnakeView {
        SnakeView {
            id: self.id@,
            head: if self.body@.len() > 0 {
                self.body@[0]@
            } else {
                self.head@
            },
            body: points(self.body@),
        }
    }
}

impl View for Board {
    type V = BoardView;

    open spec fn view(&self) -> BoardView {
        BoardView {
            width: self.width as int,
            height: self.height as int,
            food: points(self.food@),
            hazards: points(self.hazards@),
            snakes: snake_views(self.snakes@),
        }
    }
}

/// The points that a list of cells stands for, in the same order.
pub open spec fn points(cells: Seq<Coord>) -> Seq<Point> {
    Seq::new(cells.len(), |i: int| cells[i]@)
}

/// The models of a list of snakes, in the same order.
pub open spec fn snake_views(snakes: Seq<Battlesnake>) -> Seq<SnakeView> {
    Seq::new(snakes.len(), |i: int| snakes[i]@)
}

/// The point one step from `p` in direction `d`.
pub open spec fn step(p: Point, d: Direction) -> Point {
    match d {
        Direction::Up => Point { x: p.x, y: p.y + 1 },
        Direction::Down => Point { x: p.x, y: p.y - 1 },
        Direction::Left => Point { x: p.x - 1, y: p.y },
        Direction::Right => Point { x: p.x + 1, y: p.y },
    }
}

/// Whether `p` lies on a board of the given size.
pub open spec fn on_board(width: int, height: int, p: Point) -> bool {
    0 <= p.x < width && 0 <= p.y < height
}

/// The distance between two numbers.
pub open spec fn gap(a: int, b: int) -> nat {
    if a >= b {
        (a - b) as nat
    } else {
        (b - a) as nat
    }
}

/// The Manhattan distance between two points.
pub open spec fn manhattan(a: Point, b: Point) -> nat {
    gap(a.x, b.x) + gap(a.y, b.y)
}

/// Whether `p` can be held by a `Coord`.
pub open spec fn is_cell(p: Point) -> bool {
    i32::MIN <= p.x <= i32::MAX && i32::MIN <= p.y <= i32::MAX
}

/// A body with its last cell taken off. The tail moves away as the turn is
/// played, so it stands in nobody's way: the filter and the search both take
/// it off with this one function.
pub open spec fn tail_vacated<T>(body: Seq<T>) -> Seq<T> {
    if body.len() == 0 {
        body
    } else {
        body.drop_last()
    }
}

impl SnakeView {
    /// The body but the tail: the cells that stand in the way.
    pub open spec fn trunk(self) -> Seq<Point> {
        tail_vacated(self.body)
    }

    /// The neck, the second cell of the body, if the body has one.
    pub open spec fn neck(self) -> Option<Point> {
        if self.body.len() >= 2 {
            Some(self.body[1])
        } else {
            None
        }
    }
}

impl BoardView {
    /// Whether `p` lies on this board.
    pub open spec fn holds(self, p: Point) -> bool {
        on_board(self.width, self.height, p)
    }
}

impl Direction {
    /// The name of the move as it goes over the wire.
    pub open spec fn label_text(self) -> Seq<char> {
        match self {
            Direction::Up => "up"@,
            Direction::Down => "down"@,
            Direction::Left => "left"@,
            Direction::Right => "right"@,
        }
    }

    /// The move that a text names, if it names one.
    pub open spec fn named_by(text: Seq<char>) -> Option<Direction> {
        if text == "up"@ {
            Some(Direction::Up)
        } else if text == "down"@ {
            Some(Direction::Down)
        } else if text == "left"@ {
            Some(Direction::Left)
        } else if text == "right"@ {
            Some(Direction::Right)
        } else {
            None
        }
    }

    /// The name of the move: `"up"`, `"down"`, `"left"` or `"right"`.
    pub fn label(&self) -> (text: &'static str)
        ensures
            text@ == self.label_text(),
    {
        match self {
            Direction::Up => "up",
            Direction::Down => "down",
            Direction::Left => "left",
            Direction::Right => "right",
        }
    }

    /// Reads a move from its name.
    pub fn from_label(text: &str) -> (parsed: Option<Direction>)
        ensures
            parsed == Direction::named_by(text@),
    {
        let owned = text.to_owned();
        if owned == "up".to_owned() {
            Some(Direction::Up)
        } else if owned == "down".to_owned() {
            Some(Direction::Down)
        } else if owned == "left".to_owned() {
            Some(Direction::Left)
        } else if owned == "right".to_owned() {
            Some(Direction::Right)
        } else {
            None
        }
    }

    /// Every move has a name of its own: reading a name gives back the move
    /// that it was taken from.
    pub proof fn lemma_label_round_trip(d: Direction)
        ensures
            Direction::named_by(d.label_text()) == Some(d),
    {
        reveal_strlit("up");
        reveal_strlit("down");
        reveal_strlit("left");
        reveal_strlit("right");
        assert("up"@.len() == 2 && "down"@.len() == 4 && "left"@.len() == 4 && "right"@.len() == 5);
        assert("down"@[0] == 'd' && "left"@[0] == 'l');
    }
}

/// The points of a list of cells joined to another are the points of the one
/// followed by the points of the other.
pub proof fn lemma_points_add(a: Seq<Coord>, b: Seq<Coord>)
    ensures
        points(a + b) == points(a) + points(b),
{
}

/// A point is among two lists joined exactly when it is among one of them.
pub proof fn lemma_contains_add(a: Seq<Point>, b: Seq<Point>, p: Point)
    ensures
        (a + b).contains(p) <==> (a.contains(p) || b.contains(p)),
{
    if a.contains(p) {
        let i = choose|i: int| 0 <= i < a.len() && a[i] == p;
        assert((a + b)[i] == p);
    }
    if b.contains(p) {
        let i = choose|i: int| 0 <= i < b.len() && b[i] == p;
        assert((a + b)[a.len() + i] == p);
    }
}

impl Battlesnake {
    /// The cell of the head: the first cell of the body, or `head` where the
    /// body is empty.
    pub fn head_cell(&self) -> (cell: Coord)
        ensures
            cell@ == self@.head,
    {
        if self.body.len() > 0 {
            self.body[0]
        } else {
            self.head
        }
    }
}

impl Board {
    /// Whether `coord` lies on the board.
    pub fn in_bounds(&self, coord: &Coord) -> (inside: bool)
        ensures
            inside == self@.holds(coord@),
    {
        0 <= coord.x && coord.x < self.width && 0 <= coord.y && coord.y < self.height
    }
}

/// Whether `coord` is one of `obstacles`.
pub fn is_obstacle(coord: &Coord, obstacles: &Vec<Coord>) -> (hit: bool)
    ensures
        hit == points(obstacles@).contains(coord@),
{
    let mut i: usize = 0;
    while i < obstacles.len()
        invariant
            i <= obstacles.len(),
            forall|j: int| 0 <= j < i ==> obstacles@[j]@ != coord@,
        decreases obstacles.len() - i,
    {
        if obstacles[i].x == coord.x && obstacles[i].y == coord.y {
            assert(points(obstacles@)[i as int] == coord@);
            return true;
        }
        i += 1;
    }
    false
}

/// The cells of `body` but the last, in order.
pub fn without_tail(body: &Vec<Coord>) -> (rest: Vec<Coord>)
    ensures
        rest@ == tail_vacated(body@),
        points(rest@) == tail_vacated(points(body@)),
{
    let mut rest: Vec<Coord> = Vec::new();
    if body.len() == 0 {
        return rest;
    }
    let last: usize = body.len() - 1;
    let mut i: usize = 0;
    while i < last
        invariant
            last == body.len() - 1,
            i <= last,
            rest@ == body@.take(i as int),
        decreases last - i,
    {
        rest.push(body[i]);
        i += 1;
    }
    rest
}

impl Coord {
    /// The cell one step away in direction `d`, or `None` where the step
    /// leaves the machine range.
    pub fn toward(&self, d: Direction) -> (next: Option<Coord>)
        ensures
            next is Some <==> is_cell(step(self@, d)),
            next matches Some(cell) ==> cell@ == step(self@, d),
    {
        match d {
            Direction::Up => if self.y < i32::MAX {
                Some(Coord { x: self.x, y: self.y + 1 })
            } else {
                None
            },
            Direction::Down => if self.y > i32::MIN {
                Some(Coord { x: self.x, y: self.y - 1 })
            } else {
                None
            },
            Direction::Left => if self.x > i32::MIN {
                Some(Coord { x: self.x - 1, y: self.y })
            } else {
                None
            },
            Direction::Right => if self.x < i32::MAX {
                Some(Coord { x: self.x + 1, y: self.y })
            } else {
                None
            },
        }
    }

    /// The Manhattan distance to `other`.
    pub fn distance(&self, other: &Coord) -> (d: u64)
        ensures
            d == manhattan(self@, other@),
    {
        let dx: i64 = self.x as i64 - other.x as i64;
        let dy: i64 = self.y as i64 - other.y as i64;
        let ax: i64 = if dx >= 0 {
            dx
        } else {
            -dx
        };
        let ay: i64 = if dy >= 0 {
            dy
        } else {
            -dy
        };
        (ax + ay) as u64
    }
}

} // verus!
