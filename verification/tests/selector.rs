use starter_snake_rust::{
    choose_move, get_move, get_move_seeded, planned_move, safety_filter, Battlesnake, Board, Coord, Direction, Game,
    MoveSafety,
};
use rand::rngs::StdRng;
use rand::{Rng, SeedableRng};
use std::collections::HashMap;

fn at(x: i32, y: i32) -> Coord {
    Coord { x, y }
}

fn snake(id: &str, body: Vec<Coord>) -> Battlesnake {
    Battlesnake {
        id: id.to_string(),
        name: format!("snake {}", id),
        health: 100,
        head: body[0],
        length: body.len() as i32,
        body,
        latency: "0".to_string(),
        shout: None,
    }
}

fn game() -> Game {
    Game { id: "game".to_string(), ruleset: HashMap::new(), timeout: 500 }
}

fn board(size: i32, food: Vec<Coord>, snakes: Vec<Battlesnake>, hazards: Vec<Coord>) -> Board {
    Board { height: size, width: size, food, snakes, hazards }
}

fn flags(up: bool, down: bool, left: bool, right: bool) -> MoveSafety {
    MoveSafety { up, down, left, right }
}

#[test]
fn straight_path_to_food_goes_up() {
    let you = snake("me", vec![at(5, 5), at(5, 4)]);
    let b = board(11, vec![at(5, 7)], vec![], vec![]);
    let chosen = get_move(&game(), &3, &b, &you);
    assert_eq!(chosen, Direction::Up);
    assert_eq!(chosen.label(), "up");
    assert_eq!(get_move_seeded(&game(), &3, &b, &you, 17), Direction::Up);
}

#[test]
fn straight_path_with_own_snake_on_board_goes_up() {
    let you = snake("me", vec![at(5, 5), at(5, 4)]);
    let b = board(11, vec![at(5, 7)], vec![snake("me", vec![at(5, 5), at(5, 4)])], vec![]);
    assert_eq!(get_move(&game(), &0, &b, &you).label(), "up");
}

#[test]
fn left_wall_excludes_left() {
    let you = snake("me", vec![at(0, 5), at(0, 4), at(0, 3)]);
    let b = board(11, vec![], vec![], vec![]);
    let safety = safety_filter(&b, &you);
    assert!(!safety.is_safe(Direction::Left));
    assert!(!safety.safe_moves().contains(&Direction::Left));
    assert_eq!(safety, flags(true, false, false, true));
}

#[test]
fn head_is_read_from_the_body() {
    let mut you = snake("me", vec![at(0, 5), at(0, 4), at(0, 3)]);
    you.head = at(7, 7);
    assert_eq!(you.head_cell(), at(0, 5));
    let b = board(11, vec![at(0, 8)], vec![], vec![]);
    assert_eq!(safety_filter(&b, &you), flags(true, false, false, true));
    assert_eq!(get_move(&game(), &1, &b, &you), Direction::Up);
}

#[test]
fn empty_body_falls_back_on_the_head_field() {
    let mut you = snake("me", vec![at(0, 0)]);
    you.body.clear();
    assert_eq!(you.head_cell(), at(0, 0));
    let b = board(11, vec![at(0, 2)], vec![], vec![]);
    assert_eq!(safety_filter(&b, &you), flags(true, false, false, true));
    assert_eq!(get_move(&game(), &1, &b, &you), Direction::Up);
    // Without food and without a tail to chase the move is one of the safe.
    let b = board(11, vec![], vec![], vec![]);
    let chosen = get_move(&game(), &1, &b, &you);
    assert!(chosen == Direction::Up || chosen == Direction::Right);
}

#[test]
fn enclosed_head_answers_down() {
    let body = vec![at(0, 0), at(1, 0), at(1, 1), at(0, 1), at(0, 2)];
    let you = snake("me", body.clone());
    let b = board(11, vec![at(5, 5)], vec![snake("me", body)], vec![]);
    assert_eq!(safety_filter(&b, &you), flags(false, false, false, false));
    assert_eq!(get_move(&game(), &9, &b, &you), Direction::Down);
    assert_eq!(get_move(&game(), &9, &b, &you).label(), "down");
    assert_eq!(get_move_seeded(&game(), &9, &b, &you, 1), Direction::Down);
}

#[test]
fn equidistant_food_first_in_list_wins() {
    let you = snake("me", vec![at(5, 5), at(5, 4), at(5, 3)]);
    let up_first = board(11, vec![at(5, 7), at(7, 5)], vec![], vec![]);
    let right_first = board(11, vec![at(7, 5), at(5, 7)], vec![], vec![]);
    for _ in 0..20 {
        assert_eq!(get_move(&game(), &1, &up_first, &you), Direction::Up);
        assert_eq!(get_move(&game(), &1, &right_first, &you), Direction::Right);
    }
}

#[test]
fn nearer_food_wins_over_earlier_food() {
    let you = snake("me", vec![at(5, 5), at(5, 4), at(5, 3)]);
    let b = board(11, vec![at(5, 9), at(3, 5)], vec![], vec![]);
    assert_eq!(get_move(&game(), &1, &b, &you), Direction::Left);
}

#[test]
fn without_a_path_the_move_is_a_safe_one() {
    // The food is walled in by hazards and cannot be reached.
    let you = snake("me", vec![at(5, 5), at(5, 4), at(5, 3)]);
    let hazards = vec![at(9, 10), at(9, 9), at(10, 9)];
    let b = board(11, vec![at(10, 10)], vec![], hazards);
    let safety = safety_filter(&b, &you);
    assert_eq!(safety, flags(true, false, true, true));
    for _ in 0..50 {
        let chosen = get_move(&game(), &4, &b, &you);
        assert!(safety.is_safe(chosen));
    }
}

#[test]
fn random_fallback_reaches_every_safe_move() {
    let you = snake("me", vec![at(5, 5), at(5, 4), at(5, 3)]);
    let hazards = vec![at(9, 10), at(9, 9), at(10, 9)];
    let b = board(11, vec![at(10, 10)], vec![], hazards);
    let mut seen = [false; 4];
    for _ in 0..400 {
        match get_move(&game(), &4, &b, &you) {
            Direction::Up => seen[0] = true,
            Direction::Down => seen[1] = true,
            Direction::Left => seen[2] = true,
            Direction::Right => seen[3] = true,
        }
    }
    assert_eq!(seen, [true, false, true, true]);
}

#[test]
fn seeded_fallback_is_deterministic() {
    let you = snake("me", vec![at(5, 5), at(5, 4), at(5, 3)]);
    let hazards = vec![at(9, 10), at(9, 9), at(10, 9)];
    let b = board(11, vec![at(10, 10)], vec![], hazards);
    let safety = safety_filter(&b, &you);
    let mut seen = [false; 4];
    for seed in 0..200u64 {
        let first = get_move_seeded(&game(), &4, &b, &you, seed);
        let again = get_move_seeded(&game(), &4, &b, &you, seed);
        assert_eq!(first, again);
        assert!(safety.is_safe(first));
        match first {
            Direction::Up => seen[0] = true,
            Direction::Down => seen[1] = true,
            Direction::Left => seen[2] = true,
            Direction::Right => seen[3] = true,
        }
    }
    assert_eq!(seen, [true, false, true, true]);
}

#[test]
fn seeded_fallback_takes_the_draw_of_the_seeded_generator() {
    let you = snake("me", vec![at(5, 5), at(5, 4), at(5, 3)]);
    let hazards = vec![at(9, 10), at(9, 9), at(10, 9)];
    let b = board(11, vec![at(10, 10)], vec![], hazards);
    let safe = [Direction::Up, Direction::Left, Direction::Right];
    for seed in 0..100u64 {
        let drawn: u32 = StdRng::seed_from_u64(seed).gen_range(0..3);
        assert_eq!(get_move_seeded(&game(), &4, &b, &you, seed), safe[drawn as usize]);
    }
}

#[test]
fn seeded_move_follows_the_plan_whatever_the_seed() {
    let you = snake("me", vec![at(5, 5), at(5, 4), at(5, 3)]);
    let b = board(11, vec![at(2, 5)], vec![], vec![]);
    for seed in 0..50u64 {
        assert_eq!(get_move_seeded(&game(), &4, &b, &you, seed), Direction::Left);
    }
}

#[test]
fn plan_through_the_neck_is_not_followed() {
    // With two cells the neck is the tail and blocks no route: the shortest
    // way to the food starts on it, and that first move is refused. The
    // second move of the plan, down again, is refused as well, so the move
    // is drawn from the safe ones.
    let you = snake("me", vec![at(5, 5), at(5, 4)]);
    let b = board(11, vec![at(5, 3)], vec![], vec![]);
    let safety = safety_filter(&b, &you);
    assert_eq!(safety, flags(true, false, true, true));
    for seed in 0..50u64 {
        assert!(safety.is_safe(get_move_seeded(&game(), &4, &b, &you, seed)));
    }
}

#[test]
fn without_food_the_snake_chases_its_tail() {
    // The tail at (4,4) is one step left of the neck and two steps from the
    // head: the shortest way there starts to the left.
    let you = snake("me", vec![at(5, 5), at(5, 4), at(4, 4)]);
    let b = board(11, vec![], vec![], vec![]);
    assert_eq!(get_move(&game(), &2, &b, &you), Direction::Left);
}

#[test]
fn opponents_are_told_apart_by_identifier() {
    let you = snake("me", vec![at(5, 5), at(5, 4), at(5, 3)]);
    let other = snake("other", vec![at(6, 5), at(6, 6), at(6, 7)]);
    let b = board(11, vec![], vec![other], vec![]);
    assert_eq!(safety_filter(&b, &you), flags(true, false, true, false));
    // A snake that carries the own identifier is no opponent.
    let twin = snake("me", vec![at(6, 5), at(6, 6), at(6, 7)]);
    let b = board(11, vec![], vec![twin], vec![]);
    assert_eq!(safety_filter(&b, &you), flags(true, false, true, true));
}

#[test]
fn tails_do_not_block() {
    let you = snake("me", vec![at(5, 5), at(5, 4), at(4, 4), at(4, 5)]);
    let other = snake("other", vec![at(7, 6), at(6, 6), at(6, 5)]);
    let b = board(11, vec![], vec![other], vec![]);
    // Left is the own tail and right the tail of the other snake.
    assert_eq!(safety_filter(&b, &you), flags(true, false, true, true));
}

#[test]
fn hazards_are_unsafe() {
    let you = snake("me", vec![at(5, 5), at(5, 4), at(5, 3)]);
    let b = board(11, vec![], vec![], vec![at(5, 6), at(4, 5)]);
    assert_eq!(safety_filter(&b, &you), flags(false, false, false, true));
}

#[test]
fn safe_moves_stay_on_the_board() {
    for &(x, y) in &[(0, 0), (10, 10), (0, 10), (10, 0), (5, 5), (-3, 4), (11, 11), (i32::MAX, i32::MIN)] {
        let you = snake("me", vec![at(x, y)]);
        let b = board(11, vec![], vec![], vec![]);
        let safety = safety_filter(&b, &you);
        for d in safety.safe_moves() {
            let target = at(x, y).toward(d).unwrap();
            assert!(b.in_bounds(&target));
        }
    }
}

#[test]
fn neck_is_never_safe() {
    let b = board(11, vec![], vec![], vec![]);
    let cases = [
        (at(5, 4), Direction::Down),
        (at(5, 6), Direction::Up),
        (at(4, 5), Direction::Left),
        (at(6, 5), Direction::Right),
    ];
    for (neck, toward) in cases {
        // With two cells the neck is the tail, which blocks nothing: the
        // move is still refused.
        let you = snake("me", vec![at(5, 5), neck]);
        assert!(!safety_filter(&b, &you).is_safe(toward));
        assert_eq!(safety_filter(&b, &you).safe_moves().len(), 3);
    }
}

#[test]
fn stacked_body_has_no_neck_direction() {
    let you = snake("me", vec![at(5, 5), at(5, 5), at(5, 5)]);
    let b = board(11, vec![], vec![], vec![]);
    assert_eq!(safety_filter(&b, &you), flags(true, true, true, true));
}

#[test]
fn choose_move_follows_the_plan_while_safe() {
    let safety = flags(true, false, true, true);
    let plan = Some(vec![Direction::Down, Direction::Left, Direction::Up]);
    assert_eq!(planned_move(&safety, &plan), Some(Direction::Left));
    for pick in 0..8 {
        assert_eq!(choose_move(&safety, &plan, pick), Direction::Left);
    }
}

#[test]
fn choose_move_falls_back_by_pick() {
    let safety = flags(true, false, true, true);
    let unsafe_plan = Some(vec![Direction::Down]);
    assert_eq!(planned_move(&safety, &unsafe_plan), None);
    assert_eq!(planned_move(&safety, &None), None);
    assert_eq!(choose_move(&safety, &None, 0), Direction::Up);
    assert_eq!(choose_move(&safety, &None, 1), Direction::Left);
    assert_eq!(choose_move(&safety, &None, 2), Direction::Right);
    assert_eq!(choose_move(&safety, &None, 3), Direction::Up);
    assert_eq!(choose_move(&safety, &unsafe_plan, 5), Direction::Right);
    assert_eq!(choose_move(&safety, &None, u32::MAX), Direction::Up);
}

#[test]
fn choose_move_defaults_to_down() {
    let none = flags(false, false, false, false);
    assert_eq!(choose_move(&none, &None, 0), Direction::Down);
    assert_eq!(choose_move(&none, &Some(vec![Direction::Up, Direction::Right]), 7), Direction::Down);
}
