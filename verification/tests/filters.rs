use starter_snake_rust::{prevent_backwards, Battlesnake, Board, Coord, Direction, MoveSafety};

fn at(x: i32, y: i32) -> Coord {
    Coord { x, y }
}

fn snake(id: &str, body: Vec<Coord>) -> Battlesnake {
    Battlesnake {
        id: id.to_string(),
        name: id.to_string(),
        health: 90,
        head: body[0],
        length: body.len() as i32,
        body,
        latency: String::new(),
        shout: None,
    }
}

fn empty_board(width: i32, height: i32) -> Board {
    Board { height, width, food: vec![], snakes: vec![], hazards: vec![] }
}

fn flags(up: bool, down: bool, left: bool, right: bool) -> MoveSafety {
    MoveSafety { up, down, left, right }
}

#[test]
fn new_mapping_allows_everything() {
    let all = MoveSafety::new();
    assert_eq!(all, flags(true, true, true, true));
    assert_eq!(all.safe_moves(), vec![Direction::Up, Direction::Down, Direction::Left, Direction::Right]);
}

#[test]
fn forbid_only_takes_away() {
    let mut m = MoveSafety::new();
    m.forbid(Direction::Left);
    assert_eq!(m, flags(true, true, false, true));
    m.forbid(Direction::Left);
    m.forbid(Direction::Up);
    assert_eq!(m, flags(false, true, false, true));
    assert_eq!(m.safe_moves(), vec![Direction::Down, Direction::Right]);
    assert!(m.is_safe(Direction::Down));
    assert!(!m.is_safe(Direction::Up));
}

#[test]
fn prevent_backwards_marks_the_neck_side() {
    let head = at(5, 5);
    let mut m = MoveSafety::new();
    prevent_backwards(&head, &at(4, 5), &mut m);
    assert_eq!(m, flags(true, true, false, true));
    let mut m = MoveSafety::new();
    prevent_backwards(&head, &at(6, 5), &mut m);
    assert_eq!(m, flags(true, true, true, false));
    let mut m = MoveSafety::new();
    prevent_backwards(&head, &at(5, 4), &mut m);
    assert_eq!(m, flags(true, false, true, true));
    let mut m = MoveSafety::new();
    prevent_backwards(&head, &at(5, 6), &mut m);
    assert_eq!(m, flags(false, true, true, true));
    let mut m = MoveSafety::new();
    prevent_backwards(&head, &head, &mut m);
    assert_eq!(m, flags(true, true, true, true));
}

#[test]
fn prevent_walls_in_the_corners() {
    let b = empty_board(11, 11);
    let mut m = MoveSafety::new();
    at(0, 0).prevent_walls(&b, &mut m);
    assert_eq!(m, flags(true, false, false, true));
    let mut m = MoveSafety::new();
    at(10, 10).prevent_walls(&b, &mut m);
    assert_eq!(m, flags(false, true, true, false));
    let mut m = MoveSafety::new();
    at(5, 5).prevent_walls(&b, &mut m);
    assert_eq!(m, flags(true, true, true, true));
}

#[test]
fn prevent_walls_off_the_board() {
    let b = empty_board(11, 11);
    // One step outside the left edge only the step back in is on the board.
    let mut m = MoveSafety::new();
    at(-1, 5).prevent_walls(&b, &mut m);
    assert_eq!(m, flags(false, false, false, true));
    let mut m = MoveSafety::new();
    at(20, 20).prevent_walls(&b, &mut m);
    assert_eq!(m, flags(false, false, false, false));
}

#[test]
fn prevent_walls_keeps_earlier_verdicts() {
    let b = empty_board(11, 11);
    let mut m = flags(false, true, true, true);
    at(5, 5).prevent_walls(&b, &mut m);
    assert_eq!(m, flags(false, true, true, true));
}

#[test]
fn prevent_self_destruction_marks_body_cells() {
    let body = vec![at(5, 5), at(5, 4), at(4, 4), at(4, 5)];
    let mut m = MoveSafety::new();
    at(5, 5).prevent_self_destruction(&body, &mut m);
    assert_eq!(m, flags(true, false, false, true));
}

#[test]
fn prevent_hazards_marks_hazard_cells() {
    let mut m = MoveSafety::new();
    at(5, 5).prevent_hazards(&vec![at(5, 6), at(6, 5), at(9, 9)], &mut m);
    assert_eq!(m, flags(false, true, true, false));
    let mut m = MoveSafety::new();
    at(5, 5).prevent_hazards(&vec![], &mut m);
    assert_eq!(m, flags(true, true, true, true));
}

#[test]
fn prevent_other_snakes_spares_tails() {
    let snakes = vec![snake("a", vec![at(5, 7), at(5, 6), at(4, 6)]), snake("b", vec![at(7, 5), at(6, 5)])];
    let mut m = MoveSafety::new();
    at(5, 5).prevent_other_snakes(&snakes, &mut m);
    // (5,6) is a body cell of the first snake; (6,5) is the tail of the second.
    assert_eq!(m, flags(false, true, true, true));
}

#[test]
fn prevent_snake_marks_one_snake() {
    let mut m = MoveSafety::new();
    at(5, 5).prevent_snake(&snake("a", vec![at(4, 5), at(4, 4), at(5, 4), at(6, 4)]), &mut m);
    assert_eq!(m, flags(true, false, false, true));
}

#[test]
fn successors_are_the_free_neighbours() {
    let b = empty_board(11, 11);
    let snakes = vec![snake("a", vec![at(5, 7), at(5, 6), at(4, 6)])];
    let cells = at(5, 5).successors(&vec![at(6, 5)], &snakes, &vec![at(5, 5), at(5, 4)], &b);
    assert_eq!(cells, vec![at(4, 5)]);
    let cells = at(0, 0).successors(&vec![], &vec![], &vec![], &b);
    assert_eq!(cells, vec![at(0, 1), at(1, 0)]);
    let cells = at(5, 5).successors(&vec![], &vec![], &vec![], &b);
    assert_eq!(cells, vec![at(5, 6), at(5, 4), at(4, 5), at(6, 5)]);
}

#[test]
fn neighbours_cost_one_or_999() {
    let b = empty_board(11, 11);
    let moves = at(0, 5).neighbours(&vec![at(0, 6)], &vec![], &vec![at(0, 4)], &b);
    assert_eq!(moves, vec![(at(0, 6), 999), (at(0, 4), 999), (at(-1, 5), 999), (at(1, 5), 1)]);
    let moves = at(5, 5).neighbours(&vec![], &vec![], &vec![], &b);
    assert_eq!(moves, vec![(at(5, 6), 1), (at(5, 4), 1), (at(4, 5), 1), (at(6, 5), 1)]);
}

#[test]
fn get_coord_from_string_steps_by_name() {
    let c = at(3, 8);
    assert_eq!(c.get_coord_from_string("right"), at(4, 8));
    assert_eq!(c.get_coord_from_string("left"), at(2, 8));
    assert_eq!(c.get_coord_from_string("up"), at(3, 9));
    assert_eq!(c.get_coord_from_string("down"), at(3, 7));
    assert_eq!(c.get_coord_from_string("sideways"), at(2, 8));
}
