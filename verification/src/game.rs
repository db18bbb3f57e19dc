use vstd::prelude::*;

verus! {

/// Width of the playing field, in cells.
pub const MAP_WIDTH: usize = 64;
/// Height of the playing field, in cells.
pub const MAP_HEIGHT: usize = 48;
/// The cell value that marks the single food cell.
pub const FOOD: i32 = -1;
/// How much the snake's speed grows each time it eats.
pub const SPEED_INCREMENT: u32 = 5;
/// The snake's speed at the start of a game.
pub const INITIAL_SPEED: u32 = 10;
/// The snake's length at the start of a game.
pub const INITIAL_SIZE: i32 = 3;
/// How many random probes the food search makes before it falls back to an
/// exhaustive scan of the grid.
pub const FOOD_RETRY_LIMIT: usize = 8192;

/// The playing field: `MAP_WIDTH` columns of `MAP_HEIGHT` cells each,
/// indexed as `grid[x][y]`. A cell value of 0 is empty, `FOOD` (-1) is the
/// food marker, and a positive value is a snake body segment's remaining
/// age: the number of ticks until that segment vanishes.
pub type Grid = Vec<Vec<i32>>;

/// The direction the snake is facing. `Up` means increasing y.
#[derive(Clone, Copy, PartialEq, Eq, Structural, Debug)]
pub enum Direction {
    Up,
    Down,
    Left,
    Right,
}

/// The snake's own state: head position, facing direction, length (`size`),
/// and current speed (in the fixed-point units the turn cadence is scaled
/// by).
#[derive(Clone, Copy, PartialEq, Eq, Structural, Debug)]
pub struct Snake {
    pub speed: u32,
    pub x: i32,
    pub y: i32,
    pub size: i32,
    pub direction: Direction,
}

/// A grid is well formed when it has exactly `MAP_WIDTH` columns of
/// `MAP_HEIGHT` cells each.
pub open spec fn grid_wf(m: Seq<Vec<i32>>) -> bool {
    &&& m.len() == MAP_WIDTH
    &&& forall|x: int| 0 <= x < m.len() ==> (#[trigger] m[x])@.len() == MAP_HEIGHT
}

/// Whether (x, y) lies on the grid.
pub open spec fn in_bounds(x: int, y: int) -> bool {
    &&& 0 <= x < MAP_WIDTH
    &&& 0 <= y < MAP_HEIGHT
}

/// The value of cell (x, y).
pub open spec fn at(m: Seq<Vec<i32>>, x: int, y: int) -> int {
    m[x]@[y] as int
}

/// A snake is well formed when its head lies on the grid and it has at
/// least one segment.
pub open spec fn snake_wf(s: Snake) -> bool {
    &&& in_bounds(s.x as int, s.y as int)
    &&& s.size >= 1
}

/// The cell the head would move onto: one step from the current head in the
/// facing direction.
pub open spec fn next_pos(s: Snake) -> (int, int) {
    match s.direction {
        Direction::Up => (s.x as int, s.y as int + 1),
        Direction::Down => (s.x as int, s.y as int - 1),
        Direction::Left => (s.x as int - 1, s.y as int),
        Direction::Right => (s.x as int + 1, s.y as int),
    }
}

/// Whether some cell of the grid is empty.
pub open spec fn has_empty_cell(m: Seq<Vec<i32>>) -> bool {
    exists|x: int, y: int| in_bounds(x, y) && #[trigger] at(m, x, y) == 0
}

/// How grid and snake change on a tick that eats food: the head moves onto
/// the food cell, the length and the speed grow, the new head cell is
/// written with the new length, and — as long as the grid is not full — a
/// new food marker appears at exactly one cell that was empty before.
pub open spec fn food_step(
    m0: Seq<Vec<i32>>,
    m1: Seq<Vec<i32>>,
    s0: Snake,
    s1: Snake,
    nx: int,
    ny: int,
) -> bool {
    &&& s1.size == s0.size + 1
    &&& s1.speed == s0.speed + SPEED_INCREMENT
    &&& s1.x == nx
    &&& s1.y == ny
    &&& s1.direction == s0.direction
    &&& at(m1, nx, ny) == s1.size
    &&& if has_empty_cell(m0) {
        exists|fx: int, fy: int| #[trigger] food_placed(m0, m1, nx, ny, fx, fy)
    } else {
        forall|x: int, y: int|
            in_bounds(x, y) && !(x == nx && y == ny) ==> #[trigger] at(m1, x, y) == at(m0, x, y)
    }
}

/// A new food marker stands at (fx, fy): a cell away from the new head
/// that was empty before the tick, now holds `FOOD`, and every cell other
/// than those two is untouched.
pub open spec fn food_placed(
    m0: Seq<Vec<i32>>,
    m1: Seq<Vec<i32>>,
    nx: int,
    ny: int,
    fx: int,
    fy: int,
) -> bool {
    &&& in_bounds(fx, fy)
    &&& !(fx == nx && fy == ny)
    &&& at(m0, fx, fy) == 0
    &&& at(m1, fx, fy) == FOOD
    &&& forall|x: int, y: int|
        in_bounds(x, y) && !(x == nx && y == ny) && !(x == fx && y == fy) ==> #[trigger] at(
            m1,
            x,
            y,
        ) == at(m0, x, y)
}

/// How grid and snake change on a tick onto an empty cell: every body
/// segment ages by one tick, the head moves onto the empty cell, which is
/// written with the snake's length; length and speed stay.
pub open spec fn move_step(
    m0: Seq<Vec<i32>>,
    m1: Seq<Vec<i32>>,
    s0: Snake,
    s1: Snake,
    nx: int,
    ny: int,
) -> bool {
    &&& s1.size == s0.size
    &&& s1.speed == s0.speed
    &&& s1.x == nx
    &&& s1.y == ny
    &&& s1.direction == s0.direction
    &&& at(m1, nx, ny) == s0.size
    &&& forall|x: int, y: int|
        in_bounds(x, y) && !(x == nx && y == ny) ==> #[trigger] at(m1, x, y) == (
        if at(m0, x, y) > 0 {
            at(m0, x, y) - 1
        } else {
            at(m0, x, y)
        })
}

/// Everything `take_turn` does, as one relation between the state before
/// the tick (m0, s0), the state after it (m1, s1), and the reported result.
/// A tick fails — and changes nothing — exactly when the candidate cell is
/// off the grid or holds anything but food or empty.
pub open spec fn turn_outcome(
    m0: Seq<Vec<i32>>,
    m1: Seq<Vec<i32>>,
    s0: Snake,
    s1: Snake,
    r: bool,
) -> bool {
    let nx = next_pos(s0).0;
    let ny = next_pos(s0).1;
    &&& (!in_bounds(nx, ny) ==> !r && m1 == m0 && s1 == s0)
    &&& (in_bounds(nx, ny) ==> {
        let c = at(m0, nx, ny);
        &&& (c == FOOD ==> r && food_step(m0, m1, s0, s1, nx, ny))
        &&& (c == 0 ==> r && move_step(m0, m1, s0, s1, nx, ny))
        &&& (c != FOOD && c != 0 ==> !r && m1 == m0 && s1 == s0)
    })
}

impl Snake {
    /// Overwrite the pending facing direction; nothing else changes.
    pub fn set_direction(&mut self, d: Direction)
        ensures
            final(self).direction == d,
            final(self).speed == old(self).speed,
            final(self).x == old(self).x,
            final(self).y == old(self).y,
            final(self).size == old(self).size,
    {
        self.direction = d;
    }
}

/// The grid at the start of a game: all cells empty but for one food
/// marker at (5, 5).
pub fn new_grid() -> (m: Grid)
    ensures
        grid_wf(m@),
        at(m@, 5, 5) == FOOD,
        forall|x: int, y: int| in_bounds(x, y) && !(x == 5 && y == 5) ==> at(m@, x, y) == 0,
{
    let mut m: Grid = Vec::new();
    let mut x: usize = 0;
    while x < MAP_WIDTH
        invariant
            x <= MAP_WIDTH,
            m@.len() == x,
            forall|i: int| 0 <= i < x ==> (#[trigger] m@[i])@.len() == MAP_HEIGHT,
            forall|i: int, j: int| 0 <= i < x && 0 <= j < MAP_HEIGHT ==> at(m@, i, j) == 0,
        decreases MAP_WIDTH - x,
    {
        let mut col: Vec<i32> = Vec::new();
        let mut y: usize = 0;
        while y < MAP_HEIGHT
            invariant
                y <= MAP_HEIGHT,
                col@.len() == y,
                forall|j: int| 0 <= j < y ==> col@[j] == 0,
            decreases MAP_HEIGHT - y,
        {
            col.push(0);
            y = y + 1;
        }
        let ghost m_pre = m@;
        let ghost colv = col@;
        m.push(col);
        proof {
            assert forall|i: int, j: int| 0 <= i < x + 1 && 0 <= j < MAP_HEIGHT implies at(
                m@,
                i,
                j,
            ) == 0 by {
                if i < x {
                    assert(at(m_pre, i, j) == 0);
                } else {
                    assert(at(m@, i, j) == colv[j]);
                }
            }
        }
        x = x + 1;
    }
    write_cell(&mut m, 5, 5, FOOD);
    m
}

/// Write one cell of the grid, leaving every other cell as it was.
fn write_cell(map: &mut Grid, x: usize, y: usize, v: i32)
    requires
        grid_wf(old(map)@),
        x < MAP_WIDTH,
        y < MAP_HEIGHT,
    ensures
        grid_wf(final(map)@),
        at(final(map)@, x as int, y as int) == v,
        forall|i: int, j: int|
            in_bounds(i, j) && !(i == x && j == y) ==> #[trigger] at(final(map)@, i, j) == at(
                old(map)@,
                i,
                j,
            ),
{
    map[x][y] = v;
    proof {
        assert forall|i: int, j: int|
            in_bounds(i, j) && !(i == x && j == y) implies at(map@, i, j) == at(
            old(map)@,
            i,
            j,
        ) by {}
        assert forall|i: int| 0 <= i < map@.len() implies (#[trigger] map@[i])@.len()
            == MAP_HEIGHT by {}
    }
}

/// The snake at the start of a game: head at the origin, facing up, at the
/// initial length and speed.
pub fn new_snake() -> (s: Snake)
    ensures
        s.speed == INITIAL_SPEED,
        s.x == 0,
        s.y == 0,
        s.size == INITIAL_SIZE,
        s.direction == Direction::Up,
        snake_wf(s),
{
    Snake { speed: INITIAL_SPEED, x: 0, y: 0, size: INITIAL_SIZE, direction: Direction::Up }
}

/// Find a spot on the grid for some delicious red square food: an empty
/// cell, chosen by bounded random probing with an exhaustive scan as the
/// fallback, so that a full grid is a defined outcome (`None`) rather than
/// an endless search. Any returned coordinate held 0 before the call.
pub fn find_empty_spot(map: &Grid) -> (r: Option<(i32, i32)>)
    requires
        grid_wf(map@),
    ensures
        match r {
            Some(p) => in_bounds(p.0 as int, p.1 as int) && at(map@, p.0 as int, p.1 as int) == 0,
            None => !has_empty_cell(map@),
        },
        r is Some <==> has_empty_cell(map@),
{
    let mut tries: usize = 0;
    while tries < FOOD_RETRY_LIMIT
        invariant
            grid_wf(map@),
        decreases FOOD_RETRY_LIMIT - tries,
    {
        let x = crate::rng::random_below(MAP_WIDTH as i32);
        let y = crate::rng::random_below(MAP_HEIGHT as i32);
        if map[x as usize][y as usize] == 0 {
            assert(has_empty_cell(map@)) by {
                assert(at(map@, x as int, y as int) == 0);
            }
            return Some((x, y));
        }
        tries = tries + 1;
    }
    let mut x: usize = 0;
    while x < MAP_WIDTH
        invariant
            grid_wf(map@),
            x <= MAP_WIDTH,
            forall|i: int, j: int| 0 <= i < x && 0 <= j < MAP_HEIGHT ==> #[trigger] at(map@, i, j) != 0,
        decreases MAP_WIDTH - x,
    {
        let mut y: usize = 0;
        while y < MAP_HEIGHT
            invariant
                grid_wf(map@),
                x < MAP_WIDTH,
                y <= MAP_HEIGHT,
                forall|i: int, j: int| 0 <= i < x && 0 <= j < MAP_HEIGHT ==> #[trigger] at(map@, i, j) != 0,
                forall|j: int| 0 <= j < y ==> #[trigger] at(map@, x as int, j) != 0,
            decreases MAP_HEIGHT - y,
        {
            if map[x][y] == 0 {
                assert(has_empty_cell(map@)) by {
                    assert(at(map@, x as int, y as int) == 0);
                }
                return Some((x as i32, y as i32));
            }
            y = y + 1;
        }
        x = x + 1;
    }
    None
}

/// Advance the game by one tick: move the head one cell in the facing
/// direction, eating food, moving onto an empty cell, or failing — all or
/// nothing — on a cell off the grid or already occupied. Returns whether
/// the move succeeded.
pub fn take_turn(map: &mut Grid, snake: &mut Snake) -> (r: bool)
    requires
        grid_wf(old(map)@),
        snake_wf(*old(snake)),
        old(snake).size < i32::MAX,
        old(snake).speed <= u32::MAX - SPEED_INCREMENT,
    ensures
        grid_wf(final(map)@),
        turn_outcome(old(map)@, final(map)@, *old(snake), *final(snake), r),
{
    let (next_x, next_y): (i32, i32) = match snake.direction {
        Direction::Up => (snake.x, snake.y + 1),
        Direction::Down => (snake.x, snake.y - 1),
        Direction::Left => (snake.x - 1, snake.y),
        Direction::Right => (snake.x + 1, snake.y),
    };

    if next_x >= MAP_WIDTH as i32 || next_y >= MAP_HEIGHT as i32 || next_x < 0 || next_y < 0 {
        return false;
    }

    let ghost m_orig = map@;
    let ghost nxi = next_pos(*old(snake)).0;
    let ghost nyi = next_pos(*old(snake)).1;
    proof {
        assert(nxi == next_x as int && nyi == next_y as int);
    }

    let c = map[next_x as usize][next_y as usize];
    if c == FOOD {
        // eat and move
        snake.size = snake.size + 1;
        write_cell(map, next_x as usize, next_y as usize, snake.size);
        snake.x = next_x;
        snake.y = next_y;
        snake.speed = snake.speed + SPEED_INCREMENT;

        let ghost m_head = map@;
        proof {
            if has_empty_cell(m_orig) {
                let (ex, ey) = choose|ex: int, ey: int|
                    in_bounds(ex, ey) && #[trigger] at(m_orig, ex, ey) == 0;
                assert(at(m_head, ex, ey) == 0);
                assert(has_empty_cell(m_head));
            }
        }
        let spot = find_empty_spot(map);
        match spot {
            Some((food_x, food_y)) => {
                let ghost fxi = food_x as int;
                let ghost fyi = food_y as int;
                write_cell(map, food_x as usize, food_y as usize, FOOD);
                proof {
                    assert(at(m_head, nxi, nyi) > 0);
                    assert(!(fxi == nxi && fyi == nyi));
                    assert(at(m_orig, fxi, fyi) == 0);
                    assert(at(map@, fxi, fyi) == FOOD);
                    assert(at(map@, nxi, nyi) == snake.size);
                    assert forall|x: int, y: int|
                        in_bounds(x, y) && !(x == nxi && y == nyi) && !(x == fxi && y
                            == fyi) implies at(map@, x, y) == at(m_orig, x, y) by {
                        assert(at(map@, x, y) == at(m_head, x, y));
                        assert(at(m_head, x, y) == at(m_orig, x, y));
                    }
                    assert(food_placed(m_orig, map@, nxi, nyi, fxi, fyi));
                }
            },
            None => {
                proof {
                    assert(!has_empty_cell(m_orig));
                    assert forall|x: int, y: int|
                        in_bounds(x, y) && !(x == nxi && y == nyi) implies at(map@, x, y) == at(
                        m_orig,
                        x,
                        y,
                    ) by {}
                }
            },
        }
        true
    } else if c == 0 {
        // move: age every body segment by one tick
        let ghost m0 = map@;
        let mut x: usize = 0;
        while x < MAP_WIDTH
            invariant
                grid_wf(map@),
                grid_wf(m0),
                x <= MAP_WIDTH,
                forall|i: int, j: int|
                    in_bounds(i, j) && i < x ==> #[trigger] at(map@, i, j) == (
                    if at(m0, i, j) > 0 {
                        at(m0, i, j) - 1
                    } else {
                        at(m0, i, j)
                    }),
                forall|i: int, j: int|
                    in_bounds(i, j) && i >= x ==> #[trigger] at(map@, i, j) == at(m0, i, j),
            decreases MAP_WIDTH - x,
        {
            let mut y: usize = 0;
            while y < MAP_HEIGHT
                invariant
                    grid_wf(map@),
                    grid_wf(m0),
                    x < MAP_WIDTH,
                    y <= MAP_HEIGHT,
                    forall|i: int, j: int|
                        in_bounds(i, j) && i < x ==> #[trigger] at(map@, i, j) == (
                        if at(m0, i, j) > 0 {
                            at(m0, i, j) - 1
                        } else {
                            at(m0, i, j)
                        }),
                    forall|j: int|
                        0 <= j < y ==> #[trigger] at(map@, x as int, j) == (
                        if at(m0, x as int, j) > 0 {
                            at(m0, x as int, j) - 1
                        } else {
                            at(m0, x as int, j)
                        }),
                    forall|j: int|
                        y <= j < MAP_HEIGHT ==> #[trigger] at(map@, x as int, j) == at(
                            m0,
                            x as int,
                            j,
                        ),
                    forall|i: int, j: int|
                        in_bounds(i, j) && i > x ==> #[trigger] at(map@, i, j) == at(m0, i, j),
                decreases MAP_HEIGHT - y,
            {
                let ghost m_prev = map@;
                if map[x][y] > 0 {
                    let v = map[x][y];
                    write_cell(map, x, y, v - 1);
                }
                proof {
                    assert forall|j: int|
                        0 <= j < y + 1 implies #[trigger] at(map@, x as int, j) == (
                        if at(m0, x as int, j) > 0 {
                            at(m0, x as int, j) - 1
                        } else {
                            at(m0, x as int, j)
                        }) by {
                        if j < y {
                            assert(at(map@, x as int, j) == at(m_prev, x as int, j));
                        } else {
                            assert(at(m_prev, x as int, j) == at(m0, x as int, j));
                        }
                    }
                    assert forall|i: int, j: int|
                        in_bounds(i, j) && i != x implies #[trigger] at(map@, i, j) == at(
                        m_prev,
                        i,
                        j,
                    ) by {}
                }
                y = y + 1;
            }
            x = x + 1;
        }
        let ghost m_aged = map@;
        write_cell(map, next_x as usize, next_y as usize, snake.size);
        snake.x = next_x;
        snake.y = next_y;
        proof {
            assert forall|x: int, y: int|
                in_bounds(x, y) && !(x == nxi && y == nyi) implies #[trigger] at(map@, x, y) == (
                if at(m_orig, x, y) > 0 {
                    at(m_orig, x, y) - 1
                } else {
                    at(m_orig, x, y)
                }) by {
                assert(at(map@, x, y) == at(m_aged, x, y));
                assert(at(m_aged, x, y) == (
                if at(m0, x, y) > 0 {
                    at(m0, x, y) - 1
                } else {
                    at(m0, x, y)
                }));
            }
        }
        true
    } else {
        // dead: the candidate cell is occupied
        false
    }
}

/// What a cell looks like when drawn. Food wins over the head, the head
/// over a plain body segment, and anything else is background.
#[derive(Clone, Copy, PartialEq, Eq, Structural, Debug)]
pub enum TileKind {
    Food,
    Head,
    Body,
    Empty,
}

/// Classify one cell for the renderer from its value and whether the
/// snake's head stands on it.
pub fn tile_kind(value: i32, is_head: bool) -> (k: TileKind)
    ensures
        k == (if value == FOOD {
            TileKind::Food
        } else if is_head {
            TileKind::Head
        } else if value > 0 {
            TileKind::Body
        } else {
            TileKind::Empty
        }),
{
    if value == FOOD {
        TileKind::Food
    } else if is_head {
        TileKind::Head
    } else if value > 0 {
        TileKind::Body
    } else {
        TileKind::Empty
    }
}

} // verus!
