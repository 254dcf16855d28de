use rusty_snake::{Direction, GameBoard, GameError, Position, Snake, TileState};

fn states(board: &GameBoard) -> Vec<Vec<TileState>> {
    (0..board.length())
        .map(|y| (0..board.width()).map(|x| board.get_state(x, y).unwrap()).collect())
        .collect()
}

fn count_state(board: &GameBoard, state: TileState) -> usize {
    states(board).iter().flatten().filter(|s| **s == state).count()
}

fn at(x: usize, y: usize) -> Position {
    Position { x, y }
}

#[test]
fn new_snake_is_one_tile_on_the_center() {
    let mut board = GameBoard::new_with(5, 5, 0).unwrap();
    let before = states(&board);
    let snake = Snake::new(&mut board);
    assert_eq!(snake.body(), vec![at(2, 2)]);
    assert_eq!(snake.head(), at(2, 2));
    assert_eq!(snake.maxlength(), 1);
    assert!(snake.alive());
    assert_eq!(states(&board), before);
    assert_eq!(board.get_state(2, 2), Some(TileState::SnakeOccupied));
}

#[test]
fn new_snake_center_uses_integer_division() {
    let mut board = GameBoard::new_with(4, 7, 0).unwrap();
    let snake = Snake::new(&mut board);
    assert_eq!(snake.head(), at(3, 2));
}

#[test]
fn new_snake_marks_the_center_again_after_the_first_snake_left() {
    let mut board = GameBoard::new_with(5, 5, 0).unwrap();
    let mut first = Snake::new(&mut board);
    assert_eq!(first.move_snake_with(&mut board, Direction::Up, 0), Ok(()));
    assert_eq!(board.get_state(2, 2), Some(TileState::Free));
    let second = Snake::new(&mut board);
    assert_eq!(board.get_state(2, 2), Some(TileState::SnakeOccupied));
    assert_eq!(second.body(), vec![at(2, 2)]);
}

#[test]
fn right_once_then_into_the_border() {
    let mut board = GameBoard::new_with(5, 5, 0).unwrap();
    assert_eq!(board.get_state(1, 1), Some(TileState::FoodOccupied));
    for y in 0..5 {
        for x in 0..5 {
            let ring = x == 0 || y == 0 || x == 4 || y == 4;
            assert_eq!(board.get_state(x, y) == Some(TileState::BorderDeathZone), ring);
        }
    }
    let mut snake = Snake::new(&mut board);
    assert_eq!(snake.head(), at(2, 2));

    assert_eq!(snake.move_snake(&mut board, Direction::Right), Ok(()));
    assert_eq!(snake.head(), at(3, 2));
    assert!(snake.alive());

    let before = states(&board);
    assert_eq!(board.get_state(4, 2), Some(TileState::BorderDeathZone));
    assert_eq!(snake.move_snake(&mut board, Direction::Right), Ok(()));
    assert!(!snake.alive());
    assert_eq!(snake.head(), at(3, 2));
    assert_eq!(snake.body(), vec![at(3, 2)]);
    assert_eq!(states(&board), before);
}

#[test]
fn three_steps_right_then_into_the_border() {
    let mut board = GameBoard::new_with(5, 9, 0).unwrap();
    let mut snake = Snake::new(&mut board);
    assert_eq!(snake.head(), at(4, 2));
    for x in 5..8 {
        assert_eq!(snake.move_snake(&mut board, Direction::Right), Ok(()));
        assert_eq!(snake.head(), at(x, 2));
        assert!(snake.alive());
    }
    assert_eq!(snake.move_snake(&mut board, Direction::Right), Ok(()));
    assert!(!snake.alive());
    assert_eq!(snake.head(), at(7, 2));
}

#[test]
fn move_up_into_a_free_tile() {
    let mut board = GameBoard::new_with(5, 5, 0).unwrap();
    let mut snake = Snake::new(&mut board);
    assert_eq!(snake.maxlength(), 1);
    assert_eq!(board.get_state(2, 1), Some(TileState::Free));

    assert_eq!(snake.move_snake(&mut board, Direction::Up), Ok(()));
    assert_eq!(snake.body(), vec![at(2, 1)]);
    assert_eq!(snake.head(), at(2, 1));
    assert_eq!(board.get_state(2, 2), Some(TileState::Free));
    assert_eq!(board.get_state(2, 1), Some(TileState::SnakeOccupied));
    assert_eq!(snake.maxlength(), 1);
    assert!(snake.alive());
}

#[test]
fn head_into_own_body() {
    // food on (2,3), right below the snake
    let mut board = GameBoard::new_with(5, 5, 6).unwrap();
    assert_eq!(board.get_state(2, 3), Some(TileState::FoodOccupied));
    let mut snake = Snake::new(&mut board);
    assert_eq!(snake.move_snake_with(&mut board, Direction::Down, 0), Ok(()));
    assert_eq!(snake.body(), vec![at(2, 2), at(2, 3)]);
    assert_eq!(board.get_state(2, 2), Some(TileState::SnakeOccupied));
    assert_eq!(board.get_state(2, 3), Some(TileState::SnakeOccupied));

    let before = states(&board);
    assert_eq!(snake.move_snake_with(&mut board, Direction::Up, 0), Ok(()));
    assert!(!snake.alive());
    assert_eq!(snake.body(), vec![at(2, 2), at(2, 3)]);
    assert_eq!(snake.head(), at(2, 3));
    assert_eq!(snake.maxlength(), 2);
    assert_eq!(states(&board), before);
}

#[test]
fn spawn_food_on_a_full_board_fails() {
    // 4 wide, 3 long: the tiles inside the ring are (1,1) and (2,1)
    let mut board = GameBoard::new(3, 4).unwrap();
    assert_eq!(board.get_state(2, 1), Some(TileState::SnakeOccupied));
    assert_eq!(board.get_state(1, 1), Some(TileState::FoodOccupied));
    let mut snake = Snake::new(&mut board);

    assert_eq!(snake.move_snake(&mut board, Direction::Left), Err(GameError::FoodSpawnError));
    assert!(snake.alive());
    assert_eq!(snake.maxlength(), 2);
    assert_eq!(snake.body(), vec![at(2, 1), at(1, 1)]);
    assert_eq!(count_state(&board, TileState::Free), 0);
    assert_eq!(count_state(&board, TileState::FoodOccupied), 0);

    let before = states(&board);
    assert_eq!(board.spawn_food(), Err(GameError::FoodSpawnError));
    assert_eq!(board.spawn_food_with(5), Err(GameError::FoodSpawnError));
    assert_eq!(states(&board), before);
}

#[test]
fn each_direction_moves_one_step() {
    let steps = [
        (Direction::Up, at(3, 2)),
        (Direction::Down, at(3, 4)),
        (Direction::Left, at(2, 3)),
        (Direction::Right, at(4, 3)),
    ];
    for (direction, expected) in steps {
        let mut board = GameBoard::new_with(7, 7, 0).unwrap();
        let mut snake = Snake::new(&mut board);
        assert_eq!(snake.head(), at(3, 3));
        assert_eq!(snake.move_snake(&mut board, direction), Ok(()));
        assert_eq!(snake.head(), expected);
        assert_eq!(snake.body(), vec![expected]);
        assert_eq!(board.get_state(expected.x, expected.y), Some(TileState::SnakeOccupied));
        assert_eq!(board.get_state(3, 3), Some(TileState::Free));
        assert!(snake.alive());
    }
}

#[test]
fn neutral_input_runs_the_head_into_itself() {
    let mut board = GameBoard::new_with(5, 5, 0).unwrap();
    let mut snake = Snake::new(&mut board);
    let before = states(&board);
    assert_eq!(snake.move_snake(&mut board, Direction::Neutral), Ok(()));
    assert!(!snake.alive());
    assert_eq!(snake.body(), vec![at(2, 2)]);
    assert_eq!(snake.maxlength(), 1);
    assert_eq!(states(&board), before);
}

#[test]
fn neutral_input_changes_nothing_once_dead() {
    let mut board = GameBoard::new_with(5, 5, 6).unwrap();
    let mut snake = Snake::new(&mut board);
    assert_eq!(snake.move_snake_with(&mut board, Direction::Down, 0), Ok(()));
    assert_eq!(snake.move_snake_with(&mut board, Direction::Down, 0), Ok(()));
    assert!(!snake.alive());
    let body = snake.body();
    let maxlength = snake.maxlength();
    let before = states(&board);
    for _ in 0..3 {
        assert_eq!(snake.move_snake(&mut board, Direction::Neutral), Ok(()));
        assert!(!snake.alive());
        assert_eq!(snake.body(), body);
        assert_eq!(snake.head(), at(2, 3));
        assert_eq!(snake.maxlength(), maxlength);
        assert_eq!(states(&board), before);
    }
}

#[test]
fn dead_snake_stays_dead() {
    let mut board = GameBoard::new_with(5, 5, 0).unwrap();
    let mut snake = Snake::new(&mut board);
    assert_eq!(snake.move_snake(&mut board, Direction::Neutral), Ok(()));
    assert!(!snake.alive());
    for direction in [Direction::Up, Direction::Left, Direction::Down, Direction::Right] {
        assert_eq!(snake.move_snake_with(&mut board, direction, 0), Ok(()));
        assert!(!snake.alive());
    }
}

#[test]
fn eating_grows_the_snake_by_exactly_one() {
    let mut board = GameBoard::new_with(5, 5, 1).unwrap();
    assert_eq!(board.get_state(2, 1), Some(TileState::FoodOccupied));
    let mut snake = Snake::new(&mut board);
    let len = snake.body().len();
    let maxlength = snake.maxlength();

    assert_eq!(snake.move_snake_with(&mut board, Direction::Up, 0), Ok(()));
    assert_eq!(snake.maxlength(), maxlength + 1);
    assert_eq!(snake.body().len(), len + 1);
    assert_eq!(snake.body(), vec![at(2, 2), at(2, 1)]);
    assert_eq!(snake.body().len(), snake.maxlength());
    assert_eq!(board.get_state(2, 2), Some(TileState::SnakeOccupied));
    assert_eq!(board.get_state(2, 1), Some(TileState::SnakeOccupied));
    // new food on the first free tile
    assert_eq!(board.get_state(1, 1), Some(TileState::FoodOccupied));
    assert_eq!(count_state(&board, TileState::FoodOccupied), 1);
}

#[test]
fn moving_without_eating_keeps_the_length() {
    let mut board = GameBoard::new_with(7, 7, 0).unwrap();
    let mut snake = Snake::new(&mut board);
    for direction in [Direction::Right, Direction::Down, Direction::Left, Direction::Left] {
        assert_eq!(snake.move_snake_with(&mut board, direction, 0), Ok(()));
        assert_eq!(snake.body().len(), 1);
        assert_eq!(snake.maxlength(), 1);
        assert_eq!(count_state(&board, TileState::SnakeOccupied), 1);
    }
    assert_eq!(snake.head(), at(2, 4));
}

#[test]
fn longer_snake_drops_its_oldest_tile_when_it_moves() {
    let mut board = GameBoard::new_with(5, 5, 1).unwrap();
    let mut snake = Snake::new(&mut board);
    // eat at (2,1); new food goes on (1,1)
    assert_eq!(snake.move_snake_with(&mut board, Direction::Up, 0), Ok(()));
    assert_eq!(snake.body(), vec![at(2, 2), at(2, 1)]);
    assert_eq!(snake.move_snake_with(&mut board, Direction::Right, 0), Ok(()));
    assert_eq!(snake.body(), vec![at(2, 1), at(3, 1)]);
    assert_eq!(board.get_state(2, 2), Some(TileState::Free));
    assert_eq!(board.get_state(2, 1), Some(TileState::SnakeOccupied));
    assert_eq!(board.get_state(3, 1), Some(TileState::SnakeOccupied));
    assert_eq!(snake.maxlength(), 2);
}

#[test]
fn snake_may_follow_its_own_tail_only_after_the_tail_left() {
    // a snake of length 4 going round a square runs into its own tail,
    // because the tail is still there when the head looks
    let mut board = GameBoard::new_with(6, 6, 6).unwrap();
    // free in reading order: (1,1) (2,1) (3,1) (4,1) (1,2) (2,2) (3,2) (4,2) (1,3) (2,3) (4,3) ...
    assert_eq!(board.get_state(3, 2), Some(TileState::FoodOccupied));
    let mut snake = Snake::new(&mut board);
    assert_eq!(snake.head(), at(3, 3));
    // eat (3,2); food to (4,2): free are (1,1) (2,1) (3,1) (4,1) (1,2) (2,2) (4,2) ...
    assert_eq!(snake.move_snake_with(&mut board, Direction::Up, 6), Ok(()));
    assert_eq!(board.get_state(4, 2), Some(TileState::FoodOccupied));
    // eat (4,2); food to (4,3): free are (1,1) (2,1) (3,1) (4,1) (1,2) (2,2) (1,3) (2,3) (4,3)
    assert_eq!(snake.move_snake_with(&mut board, Direction::Right, 8), Ok(()));
    assert_eq!(board.get_state(4, 3), Some(TileState::FoodOccupied));
    // eat (4,3); food far away on (1,1)
    assert_eq!(snake.move_snake_with(&mut board, Direction::Down, 0), Ok(()));
    assert_eq!(snake.body(), vec![at(3, 3), at(3, 2), at(4, 2), at(4, 3)]);
    assert_eq!(snake.maxlength(), 4);
    // the tail (3,3) is still occupied when the head turns into it
    assert_eq!(snake.move_snake_with(&mut board, Direction::Left, 0), Ok(()));
    assert!(!snake.alive());
    assert_eq!(snake.body(), vec![at(3, 3), at(3, 2), at(4, 2), at(4, 3)]);
}

#[test]
fn stepping_off_the_board_kills_like_the_border() {
    // a snake from a larger board, asked to move on a smaller one
    let mut large = GameBoard::new_with(9, 9, 0).unwrap();
    let mut snake = Snake::new(&mut large);
    assert_eq!(snake.head(), at(4, 4));
    let mut small = GameBoard::new_with(5, 5, 0).unwrap();
    let before = states(&small);
    assert_eq!(snake.move_snake(&mut small, Direction::Right), Ok(()));
    assert!(!snake.alive());
    assert_eq!(snake.body(), vec![at(4, 4)]);
    assert_eq!(states(&small), before);
}

#[test]
fn random_food_after_eating_lands_on_a_free_tile() {
    for _ in 0..50 {
        let mut board = GameBoard::new_with(5, 5, 1).unwrap();
        let mut snake = Snake::new(&mut board);
        let before = states(&board);
        assert_eq!(snake.move_snake(&mut board, Direction::Up), Ok(()));
        assert_eq!(count_state(&board, TileState::FoodOccupied), 1);
        assert_eq!(count_state(&board, TileState::SnakeOccupied), 2);
        for y in 0..5 {
            for x in 0..5 {
                if board.get_state(x, y) == Some(TileState::FoodOccupied) {
                    assert_eq!(before[y][x], TileState::Free);
                }
            }
        }
    }
}

#[test]
fn snake_that_fills_the_board_has_won() {
    // 4 by 4: the tiles inside the ring are (1,1) (2,1) (1,2) (2,2)
    let mut board = GameBoard::new_with(4, 4, 1).unwrap();
    assert_eq!(board.get_state(2, 1), Some(TileState::FoodOccupied));
    let mut snake = Snake::new(&mut board);
    assert_eq!(snake.head(), at(2, 2));

    assert_eq!(snake.move_snake_with(&mut board, Direction::Up, 0), Ok(()));
    assert_eq!(board.get_state(1, 1), Some(TileState::FoodOccupied));
    assert_eq!(snake.move_snake_with(&mut board, Direction::Left, 0), Ok(()));
    assert_eq!(board.get_state(1, 2), Some(TileState::FoodOccupied));
    assert_eq!(
        snake.move_snake_with(&mut board, Direction::Down, 0),
        Err(GameError::FoodSpawnError)
    );

    assert!(snake.alive());
    assert_eq!(snake.maxlength(), 4);
    assert_eq!(snake.body(), vec![at(2, 2), at(2, 1), at(1, 1), at(1, 2)]);
    for y in 1..3 {
        for x in 1..3 {
            assert_eq!(board.get_state(x, y), Some(TileState::SnakeOccupied));
            assert!(snake.body().contains(&at(x, y)));
        }
    }
    assert_eq!(count_state(&board, TileState::Free), 0);
    assert_eq!(count_state(&board, TileState::FoodOccupied), 0);
    assert_eq!(count_state(&board, TileState::BorderDeathZone), 12);

    // the next step runs into the snake itself
    assert_eq!(snake.move_snake(&mut board, Direction::Right), Ok(()));
    assert!(!snake.alive());
}
