use starter_snake_rust::{find_path, obstacles, Battlesnake, Board, Coord};
use std::collections::VecDeque;

fn at(x: i32, y: i32) -> Coord {
    Coord { x, y }
}

fn snake(id: &str, body: Vec<Coord>) -> Battlesnake {
    Battlesnake {
        id: id.to_string(),
        name: id.to_string(),
        health: 50,
        head: body[0],
        length: body.len() as i32,
        body,
        latency: String::new(),
        shout: None,
    }
}

/// A small generator of numbers, the same on every run.
struct Numbers(u64);

impl Numbers {
    fn next(&mut self, below: u64) -> i32 {
        self.0 ^= self.0 << 13;
        self.0 ^= self.0 >> 7;
        self.0 ^= self.0 << 17;
        (self.0 % below) as i32
    }
}

/// The number of steps of a shortest walk, found breadth first.
fn steps_breadth_first(b: &Board, blocked: &Vec<Coord>, start: Coord, goal: Coord) -> Option<u64> {
    if start == goal {
        return Some(0);
    }
    let mut seen = vec![start];
    let mut queue = VecDeque::new();
    queue.push_back((start, 0u64));
    while let Some((cell, steps)) = queue.pop_front() {
        for (dx, dy) in [(-1, 0), (1, 0), (0, -1), (0, 1)] {
            let next = at(cell.x + dx, cell.y + dy);
            if !b.in_bounds(&next) || blocked.contains(&next) || seen.contains(&next) {
                continue;
            }
            if next == goal {
                return Some(steps + 1);
            }
            seen.push(next);
            queue.push_back((next, steps + 1));
        }
    }
    None
}

fn random_board(numbers: &mut Numbers, size: i32) -> Board {
    let mut hazards = Vec::new();
    for _ in 0..numbers.next(12) {
        hazards.push(at(numbers.next(size as u64), numbers.next(size as u64)));
    }
    let mut snakes = Vec::new();
    for s in 0..numbers.next(3) {
        let mut body = vec![at(numbers.next(size as u64), numbers.next(size as u64))];
        for _ in 0..numbers.next(6) {
            let last = body[body.len() - 1];
            let next = match numbers.next(4) {
                0 => at(last.x + 1, last.y),
                1 => at(last.x - 1, last.y),
                2 => at(last.x, last.y + 1),
                _ => at(last.x, last.y - 1),
            };
            body.push(next);
        }
        snakes.push(snake(&format!("s{}", s), body));
    }
    Board { height: size, width: size, food: vec![], snakes, hazards }
}

#[test]
fn search_agrees_with_breadth_first_search() {
    let mut numbers = Numbers(0x2545_F491_4F6C_DD1D);
    let mut found_some = 0;
    let mut found_none = 0;
    for _ in 0..400 {
        let size = 3 + numbers.next(6);
        let b = random_board(&mut numbers, size);
        let own: Vec<Coord> = (0..numbers.next(4)).map(|_| at(numbers.next(7), numbers.next(7))).collect();
        let start = at(numbers.next(size as u64 + 2) - 1, numbers.next(size as u64 + 2) - 1);
        let goal = at(numbers.next(size as u64 + 2) - 1, numbers.next(size as u64 + 2) - 1);
        let blocked = obstacles(&b, &own);
        let expected = steps_breadth_first(&b, &blocked, start, goal);
        match find_path(&b, &start, &goal, &own) {
            Some((path, cost)) => {
                found_some += 1;
                assert_eq!(Some(cost), expected);
                assert_eq!(path.len() as u64, cost + 1);
                assert_eq!(path[0], start);
                assert_eq!(path[path.len() - 1], goal);
                for pair in path.windows(2) {
                    assert_eq!(pair[0].distance(&pair[1]), 1);
                    assert!(b.in_bounds(&pair[1]));
                    assert!(!blocked.contains(&pair[1]));
                }
            }
            None => {
                found_none += 1;
                assert_eq!(expected, None);
            }
        }
    }
    assert!(found_some > 50);
    assert!(found_none > 50);
}

#[test]
fn search_gives_the_same_route_every_time() {
    let mut numbers = Numbers(0x9E37_79B9_7F4A_7C15);
    for _ in 0..100 {
        let b = random_board(&mut numbers, 9);
        let start = at(numbers.next(9), numbers.next(9));
        let goal = at(numbers.next(9), numbers.next(9));
        let first = find_path(&b, &start, &goal, &vec![]);
        for _ in 0..3 {
            assert_eq!(find_path(&b, &start, &goal, &vec![]), first);
        }
    }
}
