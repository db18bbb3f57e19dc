use vstd::prelude::*;
use vstd::set_lib::lemma_int_range;
use vstd::set_lib::lemma_len_subset;
use vstd::set_lib::lemma_map_size_bound;
use vstd::set_lib::set_int_range;
use crate::game::at;
use crate::game::food_placed;
use crate::game::grid_wf;
use crate::game::has_empty_cell;
use crate::game::in_bounds;
use crate::game::move_step;
use crate::game::next_pos;
use crate::game::snake_wf;
use crate::game::turn_outcome;
use crate::game::Snake;
use crate::game::FOOD;

verus! {

/// The positions of the snake's body: the cells holding a positive age.
pub open spec fn body_cells(m: Seq<Vec<i32>>) -> Set<(int, int)> {
    Set::new(|p: (int, int)| in_bounds(p.0, p.1) && at(m, p.0, p.1) > 0)
}

/// The body trail is well formed for a snake of length `size`: every
/// segment's age is at most `size`, and no two segments share an age.
pub open spec fn body_wf(m: Seq<Vec<i32>>, size: int) -> bool {
    &&& forall|x: int, y: int|
        in_bounds(x, y) && #[trigger] at(m, x, y) > 0 ==> at(m, x, y) <= size
    &&& forall|x1: int, y1: int, x2: int, y2: int|
        in_bounds(x1, y1) && in_bounds(x2, y2) && #[trigger] at(m, x1, y1) > 0 && #[trigger] at(
            m,
            x2,
            y2,
        ) > 0 && !(x1 == x2 && y1 == y2) ==> at(m, x1, y1) != at(m, x2, y2)
}

/// Exactly one cell of the grid holds the food marker.
pub open spec fn exactly_one_food(m: Seq<Vec<i32>>) -> bool {
    &&& exists|x: int, y: int| in_bounds(x, y) && #[trigger] at(m, x, y) == FOOD
    &&& forall|x1: int, y1: int, x2: int, y2: int|
        in_bounds(x1, y1) && in_bounds(x2, y2) && #[trigger] at(m, x1, y1) == FOOD && #[trigger] at(
            m,
            x2,
            y2,
        ) == FOOD ==> x1 == x2 && y1 == y2
}

/// The starting state satisfies the game invariants: a grid that is empty
/// but for one food cell has exactly one food marker and a well formed
/// (empty) body trail for any snake length.
pub proof fn lemma_initial_state_invariants(m: Seq<Vec<i32>>, size: int)
    requires
        grid_wf(m),
        at(m, 5, 5) == FOOD,
        forall|x: int, y: int| in_bounds(x, y) && !(x == 5 && y == 5) ==> #[trigger] at(m, x, y)
            == 0,
        size >= 0,
    ensures
        exactly_one_food(m),
        body_wf(m, size),
{
    assert(exists|x: int, y: int| in_bounds(x, y) && #[trigger] at(m, x, y) == FOOD) by {
        assert(in_bounds(5, 5) && at(m, 5, 5) == FOOD);
    }
    assert forall|x: int, y: int|
        in_bounds(x, y) && #[trigger] at(m, x, y) > 0 implies at(m, x, y) <= size by {
        assert(at(m, x, y) == 0 || at(m, x, y) == FOOD);
    }
}

/// A tick keeps the body trail well formed and the snake well formed:
/// after any outcome of `take_turn`, segment ages are still bounded by the
/// (possibly grown) length and still pairwise distinct, and the head still
/// lies on the grid.
pub proof fn lemma_turn_preserves_body(
    m0: Seq<Vec<i32>>,
    m1: Seq<Vec<i32>>,
    s0: Snake,
    s1: Snake,
    r: bool,
)
    requires
        grid_wf(m0),
        snake_wf(s0),
        body_wf(m0, s0.size as int),
        turn_outcome(m0, m1, s0, s1, r),
    ensures
        body_wf(m1, s1.size as int),
        snake_wf(s1),
{
    let nx = next_pos(s0).0;
    let ny = next_pos(s0).1;
    if !in_bounds(nx, ny) {
    } else {
        let c = at(m0, nx, ny);
        if c == FOOD {
            if has_empty_cell(m0) {
                let (fx, fy) = choose|fx: int, fy: int| #[trigger] food_placed(m0, m1, nx, ny, fx, fy);
                assert forall|x: int, y: int|
                    in_bounds(x, y) && #[trigger] at(m1, x, y) > 0 implies at(m1, x, y)
                    <= s1.size by {
                    if !(x == nx && y == ny) && !(x == fx && y == fy) {
                        assert(at(m1, x, y) == at(m0, x, y));
                    }
                }
                assert forall|x1: int, y1: int, x2: int, y2: int|
                    in_bounds(x1, y1) && in_bounds(x2, y2) && #[trigger] at(m1, x1, y1) > 0
                        && #[trigger] at(m1, x2, y2) > 0 && !(x1 == x2 && y1 == y2) implies at(
                    m1,
                    x1,
                    y1,
                ) != at(m1, x2, y2) by {
                    if !(x1 == nx && y1 == ny) && !(x1 == fx && y1 == fy) {
                        assert(at(m1, x1, y1) == at(m0, x1, y1));
                    }
                    if !(x2 == nx && y2 == ny) && !(x2 == fx && y2 == fy) {
                        assert(at(m1, x2, y2) == at(m0, x2, y2));
                    }
                }
            } else {
                assert forall|x: int, y: int|
                    in_bounds(x, y) && #[trigger] at(m1, x, y) > 0 implies at(m1, x, y)
                    <= s1.size by {
                    if !(x == nx && y == ny) {
                        assert(at(m1, x, y) == at(m0, x, y));
                    }
                }
                assert forall|x1: int, y1: int, x2: int, y2: int|
                    in_bounds(x1, y1) && in_bounds(x2, y2) && #[trigger] at(m1, x1, y1) > 0
                        && #[trigger] at(m1, x2, y2) > 0 && !(x1 == x2 && y1 == y2) implies at(
                    m1,
                    x1,
                    y1,
                ) != at(m1, x2, y2) by {
                    if !(x1 == nx && y1 == ny) {
                        assert(at(m1, x1, y1) == at(m0, x1, y1));
                    }
                    if !(x2 == nx && y2 == ny) {
                        assert(at(m1, x2, y2) == at(m0, x2, y2));
                    }
                }
            }
        } else if c == 0 {
            assert forall|x: int, y: int|
                in_bounds(x, y) && #[trigger] at(m1, x, y) > 0 implies at(m1, x, y)
                <= s1.size by {
                if !(x == nx && y == ny) {
                    assert(at(m0, x, y) > 0);
                }
            }
            assert forall|x1: int, y1: int, x2: int, y2: int|
                in_bounds(x1, y1) && in_bounds(x2, y2) && #[trigger] at(m1, x1, y1) > 0
                    && #[trigger] at(m1, x2, y2) > 0 && !(x1 == x2 && y1 == y2) implies at(
                m1,
                x1,
                y1,
            ) != at(m1, x2, y2) by {
                if !(x1 == nx && y1 == ny) {
                    assert(at(m0, x1, y1) > 0 && at(m1, x1, y1) == at(m0, x1, y1) - 1);
                }
                if !(x2 == nx && y2 == ny) {
                    assert(at(m0, x2, y2) > 0 && at(m1, x2, y2) == at(m0, x2, y2) - 1);
                }
            }
        } else {
        }
    }
}

/// A tick keeps the food marker unique: after any outcome of `take_turn`
/// there is exactly one food cell — except after eating on a grid with no
/// empty cell left, when no food cell remains at all.
pub proof fn lemma_turn_preserves_food(
    m0: Seq<Vec<i32>>,
    m1: Seq<Vec<i32>>,
    s0: Snake,
    s1: Snake,
    r: bool,
)
    requires
        grid_wf(m0),
        snake_wf(s0),
        exactly_one_food(m0),
        turn_outcome(m0, m1, s0, s1, r),
    ensures
        ({
            let nx = next_pos(s0).0;
            let ny = next_pos(s0).1;
            if in_bounds(nx, ny) && at(m0, nx, ny) == FOOD && !has_empty_cell(m0) {
                forall|x: int, y: int| in_bounds(x, y) ==> #[trigger] at(m1, x, y) != FOOD
            } else {
                exactly_one_food(m1)
            }
        }),
{
    let nx = next_pos(s0).0;
    let ny = next_pos(s0).1;
    if !in_bounds(nx, ny) {
        assert(m1 == m0);
    } else {
        let c = at(m0, nx, ny);
        if c == FOOD {
            if has_empty_cell(m0) {
                let (fx, fy) = choose|fx: int, fy: int| #[trigger] food_placed(m0, m1, nx, ny, fx, fy);
                assert(at(m1, fx, fy) == FOOD);
                assert forall|x1: int, y1: int, x2: int, y2: int|
                    in_bounds(x1, y1) && in_bounds(x2, y2) && #[trigger] at(m1, x1, y1) == FOOD
                        && #[trigger] at(m1, x2, y2) == FOOD implies x1 == x2 && y1 == y2 by {
                    assert(at(m1, nx, ny) == s1.size && s1.size > 0);
                    if !(x1 == nx && y1 == ny) && !(x1 == fx && y1 == fy) {
                        assert(at(m1, x1, y1) == at(m0, x1, y1));
                        assert(at(m0, x1, y1) == FOOD && at(m0, nx, ny) == FOOD);
                        assert(x1 == nx && y1 == ny);
                    }
                    if !(x2 == nx && y2 == ny) && !(x2 == fx && y2 == fy) {
                        assert(at(m1, x2, y2) == at(m0, x2, y2));
                        assert(x2 == nx && y2 == ny);
                    }
                }
            } else {
                assert forall|x: int, y: int| in_bounds(x, y) implies #[trigger] at(m1, x, y)
                    != FOOD by {
                    assert(at(m1, nx, ny) == s1.size && s1.size > 0);
                    if !(x == nx && y == ny) {
                        assert(at(m1, x, y) == at(m0, x, y));
                        if at(m0, x, y) == FOOD {
                            assert(x == nx && y == ny);
                        }
                    }
                }
            }
        } else if c == 0 {
            let (gx, gy) = choose|gx: int, gy: int|
                in_bounds(gx, gy) && #[trigger] at(m0, gx, gy) == FOOD;
            assert(!(gx == nx && gy == ny));
            assert(at(m1, gx, gy) == FOOD);
            assert forall|x1: int, y1: int, x2: int, y2: int|
                in_bounds(x1, y1) && in_bounds(x2, y2) && #[trigger] at(m1, x1, y1) == FOOD
                    && #[trigger] at(m1, x2, y2) == FOOD implies x1 == x2 && y1 == y2 by {
                assert(at(m1, nx, ny) == s0.size && s0.size > 0);
                if !(x1 == nx && y1 == ny) {
                    assert(at(m0, x1, y1) == FOOD);
                }
                if !(x2 == nx && y2 == ny) {
                    assert(at(m0, x2, y2) == FOOD);
                }
            }
        } else {
            assert(m1 == m0);
        }
    }
}

/// A well formed body trail never has more segments on the grid than the
/// snake's length: the ages are pairwise distinct values in [1, size], so
/// the positions they occupy inject into that range.
pub proof fn lemma_body_count_bounded(m: Seq<Vec<i32>>, size: int)
    requires
        grid_wf(m),
        body_wf(m, size),
        size >= 0,
    ensures
        body_cells(m).finite(),
        body_cells(m).len() <= size,
{
    let cells = body_cells(m);
    let ages = set_int_range(1, size + 1);
    let place = |v: int|
        choose|q: (int, int)| in_bounds(q.0, q.1) && #[trigger] at(m, q.0, q.1) == v;
    let img = ages.map(place);
    lemma_int_range(1, size + 1);
    lemma_map_size_bound(ages, img, place);
    assert forall|p: (int, int)| cells.contains(p) implies img.contains(p) by {
        let v = at(m, p.0, p.1);
        assert(in_bounds(p.0, p.1) && at(m, p.0, p.1) == v);
        let q = place(v);
        assert(in_bounds(q.0, q.1) && at(m, q.0, q.1) == v);
        assert(q == p);
        assert(ages.contains(v));
    }
    lemma_len_subset(cells, img);
}

/// On a tick onto an empty cell the count of positive-valued cells stays
/// within the snake's length: with a well formed trail before the tick,
/// the grid after it holds at most `size` body cells — and, by
/// `move_step` itself, every old segment's age fell by exactly one while
/// the new head cell holds the current length.
pub proof fn lemma_move_keeps_count_bounded(
    m0: Seq<Vec<i32>>,
    m1: Seq<Vec<i32>>,
    s0: Snake,
    s1: Snake,
)
    requires
        grid_wf(m0),
        grid_wf(m1),
        snake_wf(s0),
        body_wf(m0, s0.size as int),
        in_bounds(next_pos(s0).0, next_pos(s0).1),
        at(m0, next_pos(s0).0, next_pos(s0).1) == 0,
        move_step(m0, m1, s0, s1, next_pos(s0).0, next_pos(s0).1),
    ensures
        body_cells(m1).finite(),
        body_cells(m1).len() <= s1.size,
{
    assert(turn_outcome(m0, m1, s0, s1, true));
    lemma_turn_preserves_body(m0, m1, s0, s1, true);
    lemma_body_count_bounded(m1, s1.size as int);
}

} // verus!
