use snake::game::find_empty_spot;
use snake::game::new_grid;
use snake::game::new_snake;
use snake::game::take_turn;
use snake::game::tile_kind;
use snake::game::Direction;
use snake::game::Grid;
use snake::game::Snake;
use snake::game::TileKind;
use snake::game::FOOD;
use snake::game::INITIAL_SIZE;
use snake::game::INITIAL_SPEED;
use snake::game::MAP_HEIGHT;
use snake::game::MAP_WIDTH;
use snake::game::SPEED_INCREMENT;

fn food_cells(map: &Grid) -> Vec<(usize, usize)> {
    let mut found: Vec<(usize, usize)> = Vec::new();
    for x in 0..MAP_WIDTH {
        for y in 0..MAP_HEIGHT {
            if map[x][y] == FOOD {
                found.push((x, y));
            }
        }
    }
    found
}

fn positive_cells(map: &Grid) -> Vec<(usize, usize, i32)> {
    let mut found: Vec<(usize, usize, i32)> = Vec::new();
    for x in 0..MAP_WIDTH {
        for y in 0..MAP_HEIGHT {
            if map[x][y] > 0 {
                found.push((x, y, map[x][y]));
            }
        }
    }
    found
}

#[test]
fn initial_state() {
    let map = new_grid();
    let snake = new_snake();
    assert_eq!(map.len(), MAP_WIDTH);
    for col in &map {
        assert_eq!(col.len(), MAP_HEIGHT);
    }
    assert_eq!(food_cells(&map), vec![(5, 5)]);
    assert!(positive_cells(&map).is_empty());
    assert_eq!(snake.x, 0);
    assert_eq!(snake.y, 0);
    assert_eq!(snake.size, INITIAL_SIZE);
    assert_eq!(snake.speed, INITIAL_SPEED);
    assert_eq!(snake.direction, Direction::Up);
}

#[test]
fn set_direction_overwrites_only_direction() {
    let mut snake = new_snake();
    snake.set_direction(Direction::Right);
    assert_eq!(snake.direction, Direction::Right);
    snake.set_direction(Direction::Down);
    assert_eq!(snake.direction, Direction::Down);
    assert_eq!(snake.x, 0);
    assert_eq!(snake.y, 0);
    assert_eq!(snake.size, INITIAL_SIZE);
    assert_eq!(snake.speed, INITIAL_SPEED);
}

#[test]
fn first_tick_moves_up_onto_empty_cell() {
    // Grid empty except food at (5, 5); snake at (0, 0) facing Up, length 3.
    let mut map = new_grid();
    let mut snake = new_snake();
    let ok = take_turn(&mut map, &mut snake);
    assert!(ok);
    assert_eq!((snake.x, snake.y), (0, 1));
    assert_eq!(map[0][1], 3);
    assert_eq!(snake.size, 3);
    assert_eq!(snake.speed, INITIAL_SPEED);
    assert_eq!(food_cells(&map), vec![(5, 5)]);
    // No other cell was positive before, so the head is the only body cell.
    assert_eq!(positive_cells(&map), vec![(0, 1, 3)]);
}

#[test]
fn eating_food_grows_and_replaces_the_marker() {
    // Head adjacent to the food cell (5, 5), moving onto it.
    let mut map = new_grid();
    let mut snake = Snake {
        speed: INITIAL_SPEED,
        x: 5,
        y: 4,
        size: 3,
        direction: Direction::Up,
    };
    let old_len = snake.size;
    let ok = take_turn(&mut map, &mut snake);
    assert!(ok);
    assert_eq!((snake.x, snake.y), (5, 5));
    assert_eq!(snake.size, old_len + 1);
    assert_eq!(map[5][5], old_len + 1);
    assert_eq!(snake.speed, INITIAL_SPEED + SPEED_INCREMENT);
    let food = food_cells(&map);
    assert_eq!(food.len(), 1);
    assert_ne!(food[0], (5, 5));
}

#[test]
fn moving_left_at_the_boundary_fails_without_mutation() {
    let mut map = new_grid();
    let mut snake = new_snake();
    snake.set_direction(Direction::Left);
    let map_before = map.clone();
    let snake_before = snake;
    let ok = take_turn(&mut map, &mut snake);
    assert!(!ok);
    assert_eq!(map, map_before);
    assert_eq!(snake, snake_before);
}

#[test]
fn moving_onto_a_body_cell_fails_without_mutation() {
    let mut map = new_grid();
    map[3][3] = 2;
    let mut snake = Snake {
        speed: INITIAL_SPEED,
        x: 3,
        y: 2,
        size: 3,
        direction: Direction::Up,
    };
    let map_before = map.clone();
    let snake_before = snake;
    let ok = take_turn(&mut map, &mut snake);
    assert!(!ok);
    assert_eq!(map, map_before);
    assert_eq!(snake, snake_before);
}

#[test]
fn moving_up_at_the_top_fails_without_mutation() {
    let mut map = new_grid();
    let mut snake = Snake {
        speed: INITIAL_SPEED,
        x: 7,
        y: (MAP_HEIGHT - 1) as i32,
        size: 3,
        direction: Direction::Up,
    };
    let map_before = map.clone();
    let snake_before = snake;
    let ok = take_turn(&mut map, &mut snake);
    assert!(!ok);
    assert_eq!(map, map_before);
    assert_eq!(snake, snake_before);
}

#[test]
fn body_ages_by_one_on_a_plain_move() {
    let mut map = new_grid();
    map[10][10] = 3;
    map[10][11] = 2;
    map[10][12] = 1;
    let mut snake = Snake {
        speed: INITIAL_SPEED,
        x: 20,
        y: 20,
        size: 3,
        direction: Direction::Right,
    };
    let ok = take_turn(&mut map, &mut snake);
    assert!(ok);
    assert_eq!((snake.x, snake.y), (21, 20));
    // Every positive cell aged by one; the one that hit zero vanished; the
    // new head cell holds the snake's length.
    assert_eq!(map[10][10], 2);
    assert_eq!(map[10][11], 1);
    assert_eq!(map[10][12], 0);
    assert_eq!(map[21][20], 3);
    let positives = positive_cells(&map);
    assert_eq!(positives.len(), 3);
    assert!(positives.len() <= snake.size as usize);
    assert_eq!(food_cells(&map), vec![(5, 5)]);
}

#[test]
fn food_search_returns_empty_cells_on_repeated_calls() {
    let map = new_grid();
    let first = find_empty_spot(&map).expect("grid has empty cells");
    let second = find_empty_spot(&map).expect("grid has empty cells");
    // The two coordinates may differ, but each must name a cell that held 0.
    assert_eq!(map[first.0 as usize][first.1 as usize], 0);
    assert_eq!(map[second.0 as usize][second.1 as usize], 0);
}

#[test]
fn food_search_finds_the_single_empty_cell() {
    let mut map = new_grid();
    for x in 0..MAP_WIDTH {
        for y in 0..MAP_HEIGHT {
            map[x][y] = 1;
        }
    }
    map[17][23] = 0;
    let spot = find_empty_spot(&map);
    assert_eq!(spot, Some((17, 23)));
}

#[test]
fn food_search_reports_a_full_grid() {
    let mut map = new_grid();
    for x in 0..MAP_WIDTH {
        for y in 0..MAP_HEIGHT {
            map[x][y] = 1;
        }
    }
    assert_eq!(find_empty_spot(&map), None);
}

#[test]
fn eating_with_a_full_grid_leaves_no_food() {
    let mut map = new_grid();
    for x in 0..MAP_WIDTH {
        for y in 0..MAP_HEIGHT {
            map[x][y] = 1;
        }
    }
    // Only the candidate cell holds food; everything else is body, so no
    // empty cell is left for a new marker.
    map[5][5] = FOOD;
    let mut snake = Snake {
        speed: INITIAL_SPEED,
        x: 5,
        y: 4,
        size: 3,
        direction: Direction::Up,
    };
    let ok = take_turn(&mut map, &mut snake);
    assert!(ok);
    assert_eq!(snake.size, 4);
    assert_eq!(map[5][5], 4);
    assert_eq!(food_cells(&map), vec![]);
}

#[test]
fn tile_kinds_follow_the_draw_priority() {
    assert_eq!(tile_kind(FOOD, false), TileKind::Food);
    assert_eq!(tile_kind(FOOD, true), TileKind::Food);
    assert_eq!(tile_kind(0, true), TileKind::Head);
    assert_eq!(tile_kind(2, true), TileKind::Head);
    assert_eq!(tile_kind(7, false), TileKind::Body);
    assert_eq!(tile_kind(0, false), TileKind::Empty);
}
