use std::collections::VecDeque;

use snake_board::direction::Direction;
use snake_board::game::SnakeGame;

fn game_on(snake: Vec<usize>, apples: Vec<usize>, width: usize, height: usize) -> SnakeGame {
    SnakeGame {
        snake: VecDeque::from(snake),
        apples,
        direction: Direction::Up,
        board_size: (width, height),
    }
}

#[test]
fn new_game_places_snake_and_food() {
    let g = SnakeGame::try_new_game(5, 4).expect("valid dimensions");
    assert_eq!(g.snake.len(), 1);
    assert_eq!(g.apples.len(), 1);
    assert!(g.snake[0] < 20);
    assert!(g.apples[0] < 20);
    assert!(matches!(g.direction, Direction::Up));
    assert_eq!(g.board_size, (5, 4));
}

#[test]
fn new_game_rejects_bad_dimensions() {
    assert!(SnakeGame::try_new_game(0, 5).is_none());
    assert!(SnakeGame::try_new_game(5, 0).is_none());
    assert!(SnakeGame::try_new_game(usize::MAX, 2).is_none());
}

#[test]
fn one_cell_board_places_everything_at_zero() {
    // Random placement draws below the cell count, so the only cell of a
    // 1x1 board is the only possible spot for both snake and food.
    let g = SnakeGame::try_new_game(1, 1).expect("valid dimensions");
    assert_eq!(g.snake[0], 0);
    assert_eq!(g.apples[0], 0);
}

#[test]
fn init_appends_one_food_cell() {
    // `init` replaces the snake but only pushes onto the food list, so a
    // second call leaves two food cells.
    let mut g = SnakeGame::default();
    g.board_size = (4, 4);
    g.init();
    assert_eq!(g.snake.len(), 1);
    assert_eq!(g.apples.len(), 1);
    g.init();
    assert_eq!(g.snake.len(), 1);
    assert_eq!(g.apples.len(), 2);
}

#[test]
fn default_board_is_twenty_by_ten() {
    let g = SnakeGame::default();
    assert_eq!(g.board_size, (20, 10));
    assert!(g.snake.is_empty());
    assert!(g.apples.is_empty());
    assert!(matches!(g.direction, Direction::Up));
}

#[test]
fn move_up_from_center_drops_tail() {
    // A 3x3 board with the snake at the center cell and no food above it:
    // moving up sets the head to 4 - 3 = 1 and drops the old tail.
    let mut g = game_on(vec![4], vec![0], 3, 3);
    g.move_snake(Direction::Up);
    assert_eq!(Vec::from(g.snake.clone()), vec![1]);
    assert_eq!(g.apples, vec![0]);
    assert!(matches!(g.direction, Direction::Up));
}

#[test]
fn move_up_onto_food_grows() {
    // Same board, but cell 1 holds food: the tail stays, the snake grows
    // to length two, and exactly one new food cell appears off the snake.
    let mut g = game_on(vec![4], vec![1], 3, 3);
    g.move_snake(Direction::Up);
    assert_eq!(Vec::from(g.snake.clone()), vec![4, 1]);
    assert_eq!(g.apples.len(), 1);
    assert!(g.apples[0] < 9);
    assert!(!g.snake.contains(&g.apples[0]));
}

#[test]
fn move_offsets_match_directions() {
    for (dir, expected) in [
        (Direction::Down, 7usize),
        (Direction::Left, 3),
        (Direction::Right, 5),
    ] {
        let mut g = game_on(vec![4], vec![0], 3, 3);
        g.move_snake(dir);
        assert_eq!(Vec::from(g.snake.clone()), vec![expected]);
    }
}

#[test]
fn move_off_the_board_wraps_the_index() {
    // No bounds check exists: moving up from the top row wraps the index
    // around the usize domain (1 - 3 two's-complement).
    let mut g = game_on(vec![1], vec![0], 3, 3);
    g.move_snake(Direction::Up);
    assert_eq!(Vec::from(g.snake.clone()), vec![usize::MAX - 1]);
}

#[test]
fn eating_on_a_full_board_spawns_no_food() {
    // A 1x2 board: eating the last free cell leaves nowhere to spawn.
    let mut g = game_on(vec![1], vec![0], 1, 2);
    g.move_snake(Direction::Up);
    assert_eq!(Vec::from(g.snake.clone()), vec![1, 0]);
    assert!(g.apples.is_empty());
}

#[test]
fn food_respawns_off_the_snake() {
    // Eat on a nearly-full board: the only free cell left must get the food.
    let mut g = game_on(vec![0, 1], vec![2], 1, 4);
    g.move_snake(Direction::Down);
    assert_eq!(Vec::from(g.snake.clone()), vec![0, 1, 2]);
    assert_eq!(g.apples, vec![3]);
}

#[test]
fn offsets_are_signed_row_lengths() {
    assert_eq!(Direction::Up.offset(20), -20);
    assert_eq!(Direction::Down.offset(20), 20);
    assert_eq!(Direction::Left.offset(20), -1);
    assert_eq!(Direction::Right.offset(20), 1);
}

#[test]
fn all_directions_in_control_order() {
    let dirs = Direction::all();
    assert!(matches!(
        dirs.as_slice(),
        [Direction::Left, Direction::Down, Direction::Up, Direction::Right]
    ));
}
