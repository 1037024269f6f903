//! The move selector: one move per turn, from the safety filter and the plan
//! of the path engine.
//!
//! The plan is followed as far as it stays safe. Where it gives no safe move,
//! one of the safe moves is drawn at random; where no move is safe, the
//! answer is down. Nothing is kept from one turn to the next.

use crate::grid::{step, without_tail, Battlesnake, Board, BoardView, Direction, Game, Point, SnakeView};
use crate::path::{
    adjacent, goals_of, headings, lemma_headings_of_route, lemma_obstacle_cells, plan_moves, plan_of,
    suggested_best_move, terrain, wanted_route,
};
use crate::safety::{counts, neck_forbids, opponent_at, safe_flags, safe_now, safety_filter, snake_at, MoveSafety};
use rand::rngs::StdRng;
use rand::{Rng, SeedableRng};
use vstd::prelude::*;

verus! {

/// The first move of `plan` that is flagged safe, if there is one.
pub open spec fn first_safe(plan: Seq<Direction>, safety: MoveSafety) -> Option<Direction>
    decreases plan.len(),
{
    if plan.len() == 0 {
        None
    } else if safety.allows(plan[0]) {
        Some(plan[0])
    } else {
        first_safe(plan.drop_first(), safety)
    }
}

/// The move that the plan gives: its first safe move, and none where there
/// is no plan or no move of it is safe.
pub open spec fn planned(safety: MoveSafety, plan: Option<Seq<Direction>>) -> Option<Direction> {
    match plan {
        Some(moves) => first_safe(moves, safety),
        None => None,
    }
}

/// The move to make: the planned one; without it the safe move that `pick`
/// falls on, counted round the list of safe moves; and down where no move is
/// safe.
pub open spec fn decision(safety: MoveSafety, plan: Option<Seq<Direction>>, pick: nat) -> Direction {
    match planned(safety, plan) {
        Some(d) => d,
        None => if safety.any() {
            safety.safe_list()[(pick % safety.safe_list().len()) as int]
        } else {
            Direction::Down
        },
    }
}

/// The first safe move of a plan is one of its moves, it is safe, and no
/// move before it is. A plan has none only where none of its moves is safe.
pub proof fn lemma_first_safe(plan: Seq<Direction>, safety: MoveSafety)
    ensures
        match first_safe(plan, safety) {
            Some(d) => exists|i: int|
                0 <= i < plan.len() && #[trigger] plan[i] == d && safety.allows(d) && forall|j: int|
                    0 <= j < i ==> !safety.allows(#[trigger] plan[j]),
            None => forall|j: int| 0 <= j < plan.len() ==> !safety.allows(#[trigger] plan[j]),
        },
    decreases plan.len(),
{
    if plan.len() > 0 {
        let rest = plan.drop_first();
        lemma_first_safe(rest, safety);
        if !safety.allows(plan[0]) {
            match first_safe(rest, safety) {
                Some(d) => {
                    let i = choose|i: int|
                        0 <= i < rest.len() && #[trigger] rest[i] == d && safety.allows(d) && forall|j: int|
                            0 <= j < i ==> !safety.allows(#[trigger] rest[j]);
                    assert forall|j: int| 0 <= j < i + 1 implies !safety.allows(#[trigger] plan[j]) by {
                        if j > 0 {
                            assert(rest[j - 1] == plan[j]);
                        }
                    }
                },
                None => {
                    assert forall|j: int| 0 <= j < plan.len() implies !safety.allows(#[trigger] plan[j]) by {
                        if j > 0 {
                            assert(rest[j - 1] == plan[j]);
                        }
                    }
                },
            }
        }
    }
}

/// Whatever the plan and the draw, the move made is flagged safe where any
/// move is, and is down where none is. So without a plan the move comes from
/// the safe moves alone, or is the fixed answer.
pub proof fn lemma_decision_is_safe(safety: MoveSafety, plan: Option<Seq<Direction>>, pick: nat)
    ensures
        safety.any() ==> safety.allows(decision(safety, plan, pick)),
        !safety.any() ==> decision(safety, plan, pick) == Direction::Down,
        plan is None && safety.any() ==> safety.safe_list().contains(decision(safety, plan, pick)),
{
    safety.lemma_safe_list();
    match plan {
        Some(moves) => {
            lemma_first_safe(moves, safety);
        },
        None => {},
    }
    if planned(safety, plan) is None && safety.any() {
        let list = safety.safe_list();
        assert(list.contains(list[(pick % list.len()) as int]));
    }
}

/// The first move of `plan` that is flagged safe, if there is one.
pub fn planned_move(safety: &MoveSafety, plan: &Option<Vec<Direction>>) -> (first: Option<Direction>)
    ensures
        first == planned(*safety, plan_moves(*plan)),
{
    match plan {
        Some(moves) => {
            let mut i: usize = 0;
            assert(moves@.skip(0) =~= moves@);
            while i < moves.len()
                invariant
                    i <= moves.len(),
                    plan_moves(*plan) == Some(moves@),
                    first_safe(moves@, *safety) == first_safe(moves@.skip(i as int), *safety),
                decreases moves.len() - i,
            {
                if safety.is_safe(moves[i]) {
                    return Some(moves[i]);
                }
                assert(moves@.skip(i as int).drop_first() =~= moves@.skip(i + 1));
                i += 1;
            }
            None
        },
        None => None,
    }
}

/// The move to make, given the safety mapping, the plan and a number drawn
/// to settle the case where the plan gives no safe move.
pub fn choose_move(safety: &MoveSafety, plan: &Option<Vec<Direction>>, pick: u32) -> (chosen: Direction)
    ensures
        chosen == decision(*safety, plan_moves(*plan), pick as nat),
        safety.any() ==> safety.allows(chosen),
        !safety.any() ==> chosen == Direction::Down,
{
    proof {
        lemma_decision_is_safe(*safety, plan_moves(*plan), pick as nat);
    }
    match planned_move(safety, plan) {
        Some(d) => d,
        None => {
            let moves = safety.safe_moves();
            if moves.len() > 0 {
                moves[pick as usize % moves.len()]
            } else {
                Direction::Down
            }
        },
    }
}

/// The route that `you` wants to follow on `board`: to the nearest food, or
/// to the own tail where the board holds no food. The search starts at the
/// head and goes around the own body but its tail.
pub open spec fn planned_route(board: BoardView, you: SnakeView) -> Option<Seq<Point>> {
    wanted_route(board, you.head, board.food, you.trunk(), false, you.body)
}

/// The plan for `you` on `board`: the moves along the planned route.
pub open spec fn plan_for(board: BoardView, you: SnakeView) -> Option<Seq<Direction>> {
    plan_of(planned_route(board, you))
}

/// Whether the planned route is what it is meant to be: a shortest route
/// from the head to the nearest goal, or nothing where no goal can be
/// reached.
pub open spec fn plan_is_sound(board: BoardView, you: SnakeView) -> bool {
    terrain(board, you.trunk()).nearest_answered_by(
        you.head,
        goals_of(board.food, false, you.body),
        planned_route(board, you),
    )
}

/// The first move of the plan for `you` on `board`, where there is a plan.
pub open spec fn plan_start(board: BoardView, you: SnakeView) -> Direction {
    match plan_for(board, you) {
        Some(moves) => moves[0],
        None => Direction::Down,
    }
}

/// Whether the plan for `you` on `board` can be followed at once: there is
/// a plan, and its first move does not turn back toward the neck.
pub open spec fn plan_is_free(board: BoardView, you: SnakeView) -> bool {
    plan_for(board, you) is Some && !neck_forbids(you, plan_start(board, you))
}

/// Whether the neck of `you` lies where the body of a snake on the move
/// has it: the body has a third cell, so that the neck is not the tail, and
/// the neck is one step from the head or still under it.
pub open spec fn neck_in_place(you: SnakeView) -> bool {
    you.body.len() >= 3 && (you.body[1] == you.head || adjacent(you.head, you.body[1]))
}

/// The move to make when the draw comes from a generator seeded with `seed`.
pub open spec fn seeded_decision(safety: MoveSafety, plan: Option<Seq<Direction>>, seed: u64) -> Direction {
    decision(safety, plan, seeded_draw(seed, safety.safe_list().len() as u32) as nat)
}

/// The first step of a route from the head is refused by the safety filter
/// only where it turns back toward the neck: the search goes around all that
/// the filter counts as deadly, so the two agree on what is occupied.
pub proof fn lemma_route_starts_safe(board: BoardView, you: SnakeView, route: Seq<Point>)
    requires
        route.len() >= 2,
        terrain(board, you.trunk()).is_route(you.head, route[route.len() - 1], route),
    ensures
        headings(route).len() == route.len() - 1,
        safe_flags(board, you).allows(headings(route)[0]) || neck_forbids(you, headings(route)[0]),
{
    let seen = terrain(board, you.trunk());
    let target = route[1];
    lemma_headings_of_route(seen, you.head, route[route.len() - 1], route);
    assert(step(you.head, headings(route)[0]) == target && seen.passable(target));
    lemma_obstacle_cells(board, you.trunk(), target);
    if opponent_at(board.snakes, you.id, target) {
        // An opponent on the cell is a snake on the cell.
        let i = choose|i: int|
            0 <= i < board.snakes.len() && counts(board.snakes[i], Some(you.id)) && #[trigger] board.snakes[i].trunk()
                .contains(target);
        assert(snake_at(board.snakes, target));
    }
}

/// With the neck in place no route from the head starts toward the neck:
/// the neck is part of the body that the search goes around. So the first
/// step of every route is flagged safe.
pub proof fn lemma_route_avoids_neck(board: BoardView, you: SnakeView, route: Seq<Point>)
    requires
        neck_in_place(you),
        route.len() >= 2,
        terrain(board, you.trunk()).is_route(you.head, route[route.len() - 1], route),
    ensures
        !neck_forbids(you, headings(route)[0]),
        safe_flags(board, you).allows(headings(route)[0]),
{
    let seen = terrain(board, you.trunk());
    let neck = you.body[1];
    lemma_route_starts_safe(board, you, route);
    lemma_headings_of_route(seen, you.head, route[route.len() - 1], route);
    // The neck is blocked, so the second cell of the route is not the neck.
    assert(you.trunk()[1] == neck);
    lemma_obstacle_cells(board, you.trunk(), neck);
    assert(seen.blocked.contains(neck) && seen.passable(route[1]));
}

/// `Rng::gen_range` of `rand`, called on the thread-local generator of
/// `rand::thread_rng` with the range `0..bound`. Its documentation promises a
/// value of the range, so a number below `bound`; nothing more is known of
/// it. `gen_range` panics on an empty range, so `bound` is positive.
#[verifier::external_body]
fn random_index(bound: u32) -> (drawn: u32)
    requires
        bound > 0,
    ensures
        drawn < bound,
{
    rand::thread_rng().gen_range(0..bound)
}

/// The number that `rand`'s standard generator, seeded with `seed`, draws
/// first from `0..bound`.
pub uninterp spec fn seeded_draw(seed: u64, bound: u32) -> u32;

/// `Rng::gen_range` of `rand`, called with the range `0..bound` on a
/// standard generator that `SeedableRng::seed_from_u64` makes from `seed`.
/// The contract is taken from the crate and not proved here: the generator
/// is deterministic and a range of `u32` is sampled alike on every platform,
/// so the number is named as a function of `seed` and `bound`; it is a value
/// of the range, so below `bound`. `gen_range` panics on an empty range, so
/// `bound` is positive.
#[verifier::external_body]
fn seeded_index(seed: u64, bound: u32) -> (drawn: u32)
    requires
        bound > 0,
    ensures
        drawn == seeded_draw(seed, bound),
        drawn < bound,
{
    StdRng::seed_from_u64(seed).gen_range(0..bound)
}

/// The safety mapping and the plan of this turn.
fn survey(board: &Board, you: &Battlesnake) -> (seen: (MoveSafety, Option<Vec<Direction>>))
    ensures
        seen.0 == safe_flags(board@, you@),
        plan_moves(seen.1) == plan_for(board@, you@),
        plan_is_sound(board@, you@),
        plan_is_free(board@, you@) ==> planned(safe_flags(board@, you@), plan_for(board@, you@)) == Some(
            plan_start(board@, you@),
        ),
        neck_in_place(you@) && plan_for(board@, you@) is Some ==> plan_is_free(board@, you@),
{
    let safety = safety_filter(board, you);
    let body = without_tail(&you.body);
    let plan = suggested_best_move(&you.head_cell(), &board.food, &body, board, false, &you.body);
    proof {
        match planned_route(board@, you@) {
            Some(cells) => {
                if plan_for(board@, you@) is Some {
                    lemma_route_starts_safe(board@, you@, cells);
                    if neck_in_place(you@) {
                        lemma_route_avoids_neck(board@, you@, cells);
                    }
                }
            },
            None => {},
        }
    }
    (safety, plan)
}

/// The move of this turn. It is the first move of the plan that is flagged
/// safe; where the plan has none, one of the safe moves, drawn at random;
/// where no move is safe, down. The first move of the plan is flagged safe
/// unless it turns back toward the neck, so with the neck in place a plan is
/// always followed. The game's metadata and the number of the turn have no
/// bearing on the move.
pub fn get_move(_game: &Game, _turn: &i32, board: &Board, you: &Battlesnake) -> (chosen: Direction)
    ensures
        plan_is_sound(board@, you@),
        exists|pick: nat| chosen == #[trigger] decision(safe_flags(board@, you@), plan_for(board@, you@), pick),
        match planned(safe_flags(board@, you@), plan_for(board@, you@)) {
            Some(d) => chosen == d,
            None => if safe_flags(board@, you@).any() {
                safe_flags(board@, you@).allows(chosen)
            } else {
                chosen == Direction::Down
            },
        },
        plan_is_free(board@, you@) ==> chosen == plan_start(board@, you@),
        neck_in_place(you@) && plan_for(board@, you@) is Some ==> chosen == plan_start(board@, you@),
{
    let (safety, plan) = survey(board, you);
    let bound: u32 = safety.safe_moves().len() as u32;
    let pick: u32 = if bound > 0 && planned_move(&safety, &plan).is_none() {
        random_index(bound)
    } else {
        0
    };
    choose_move(&safety, &plan, pick)
}

/// The move of this turn, with the draw taken from a generator seeded with
/// `seed`. The move is a function of the seed and of what the engine reads
/// of the board and the snake: the same state and the same seed always give
/// the same move.
pub fn get_move_seeded(_game: &Game, _turn: &i32, board: &Board, you: &Battlesnake, seed: u64) -> (chosen:
    Direction)
    ensures
        plan_is_sound(board@, you@),
        chosen == seeded_decision(safe_flags(board@, you@), plan_for(board@, you@), seed),
        plan_is_free(board@, you@) ==> chosen == plan_start(board@, you@),
        neck_in_place(you@) && plan_for(board@, you@) is Some ==> chosen == plan_start(board@, you@),
{
    let (safety, plan) = survey(board, you);
    let bound: u32 = safety.safe_moves().len() as u32;
    proof {
        safety.lemma_safe_list();
    }
    let pick: u32 = if bound > 0 {
        seeded_index(seed, bound)
    } else {
        0
    };
    choose_move(&safety, &plan, pick)
}

/// Two states of which the engine reads the same get the same move from the
/// same seed, whatever else differs between them.
pub proof fn lemma_same_state_same_move(
    board: &Board,
    you: &Battlesnake,
    other_board: &Board,
    other_you: &Battlesnake,
    seed: u64,
)
    requires
        board@ == other_board@,
        you@ == other_you@,
    ensures
        seeded_decision(safe_flags(board@, you@), plan_for(board@, you@), seed) == seeded_decision(
            safe_flags(other_board@, other_you@),
            plan_for(other_board@, other_you@),
            seed,
        ),
{
}

} // verus!
