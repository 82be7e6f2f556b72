use snake_core::game::{place_food, Direction, GameError, GameState, Position};

fn pos(x: usize, y: usize) -> Position {
    Position { x, y }
}

fn state(
    width: usize,
    height: usize,
    snake: Vec<Position>,
    food: Position,
    heading: Direction,
) -> GameState {
    GameState { width, height, snake, food, score: 0, heading, alive: true }
}

#[test]
fn new_seeds_centered_snake() {
    let g = GameState::new(10, 10).unwrap();
    assert_eq!(g.snake, vec![pos(2, 5), pos(1, 5), pos(0, 5)]);
    assert!(g.alive);
    assert_eq!(g.score, 0);
    assert_eq!(g.heading, Direction::Right);
    assert!(g.food.x < 10 && g.food.y < 10);
    assert!(!g.snake.contains(&g.food));
}

#[test]
fn new_rejects_narrow_grid() {
    assert!(matches!(GameState::new(2, 5), Err(GameError::InvalidDimensions)));
}

#[test]
fn new_rejects_flat_grid() {
    assert!(matches!(GameState::new(10, 0), Err(GameError::InvalidDimensions)));
}

#[test]
fn new_full_board_starts_terminal() {
    let g = GameState::new(3, 1).unwrap();
    assert_eq!(g.snake, vec![pos(2, 0), pos(1, 0), pos(0, 0)]);
    assert!(!g.alive);
}

#[test]
fn wall_collision_ends_game() {
    let mut g = state(
        10,
        10,
        vec![pos(9, 5), pos(8, 5), pos(7, 5)],
        pos(0, 0),
        Direction::Right,
    );
    assert_eq!(g.update(None), Ok(()));
    assert!(!g.alive);
    assert_eq!(g.snake, vec![pos(9, 5), pos(8, 5), pos(7, 5)]);
    assert_eq!(g.score, 0);
    assert_eq!(g.heading, Direction::Right);
}

#[test]
fn wall_collision_top_edge_ends_game() {
    let mut g = state(10, 10, vec![pos(4, 0), pos(4, 1)], pos(9, 9), Direction::Up);
    assert_eq!(g.update(None), Ok(()));
    assert!(!g.alive);
    assert_eq!(g.snake, vec![pos(4, 0), pos(4, 1)]);
}

#[test]
fn food_tick_grows_and_scores() {
    let mut g = state(10, 10, vec![pos(1, 5), pos(0, 5)], pos(2, 5), Direction::Right);
    assert_eq!(g.update(None), Ok(()));
    assert_eq!(g.snake, vec![pos(2, 5), pos(1, 5), pos(0, 5)]);
    assert_eq!(g.score, 1);
    assert!(g.alive);
    assert!(!g.snake.contains(&g.food));
    assert!(g.food.x < 10 && g.food.y < 10);
}

#[test]
fn normal_move_keeps_length_and_score() {
    let mut g = state(10, 10, vec![pos(2, 5), pos(1, 5), pos(0, 5)], pos(9, 9), Direction::Right);
    assert_eq!(g.update(None), Ok(()));
    assert_eq!(g.snake, vec![pos(3, 5), pos(2, 5), pos(1, 5)]);
    assert_eq!(g.score, 0);
    assert!(g.alive);
    assert_eq!(g.food, pos(9, 9));
}

#[test]
fn reversal_request_is_ignored() {
    let mut g = state(10, 10, vec![pos(2, 5), pos(1, 5), pos(0, 5)], pos(9, 9), Direction::Right);
    assert_eq!(g.update(Some(Direction::Left)), Ok(()));
    assert_eq!(g.snake[0], pos(3, 5));
    assert_eq!(g.heading, Direction::Right);
    assert!(g.alive);
}

#[test]
fn perpendicular_request_changes_heading() {
    let mut g = state(10, 10, vec![pos(2, 5), pos(1, 5), pos(0, 5)], pos(9, 9), Direction::Right);
    assert_eq!(g.update(Some(Direction::Down)), Ok(()));
    assert_eq!(g.snake[0], pos(2, 6));
    assert_eq!(g.heading, Direction::Down);
}

#[test]
fn up_moves_decrease_y() {
    let mut g = state(10, 10, vec![pos(2, 5), pos(1, 5), pos(0, 5)], pos(9, 9), Direction::Right);
    assert_eq!(g.update(Some(Direction::Up)), Ok(()));
    assert_eq!(g.snake, vec![pos(2, 4), pos(2, 5), pos(1, 5)]);
}

#[test]
fn self_collision_ends_game() {
    // A closed loop of four cells: the head at (0,1) turning right lands on
    // the snake's own last segment at (1,1).
    let mut g = state(
        10,
        10,
        vec![pos(0, 1), pos(0, 2), pos(1, 2), pos(1, 1)],
        pos(9, 9),
        Direction::Up,
    );
    assert_eq!(g.update(Some(Direction::Right)), Ok(()));
    assert!(!g.alive);
    assert_eq!(g.snake, vec![pos(0, 1), pos(0, 2), pos(1, 2), pos(1, 1)]);
    assert_eq!(g.score, 0);
}

#[test]
fn update_after_terminal_is_rejected() {
    let mut g = state(10, 10, vec![pos(2, 5), pos(1, 5)], pos(9, 9), Direction::Right);
    g.alive = false;
    assert_eq!(g.update(None), Err(GameError::InvalidState));
    assert_eq!(g.snake, vec![pos(2, 5), pos(1, 5)]);
    assert_eq!(g.score, 0);
    assert!(!g.alive);
}

#[test]
fn board_full_growth_ends_game() {
    let mut g = state(4, 1, vec![pos(2, 0), pos(1, 0), pos(0, 0)], pos(3, 0), Direction::Right);
    assert_eq!(g.update(None), Ok(()));
    assert_eq!(g.snake, vec![pos(3, 0), pos(2, 0), pos(1, 0), pos(0, 0)]);
    assert_eq!(g.score, 1);
    assert!(!g.alive);
    assert_eq!(g.food, pos(3, 0));
}

#[test]
fn place_food_takes_the_only_free_cell() {
    // Three of four cells occupied: any correct draw must land on (3,0).
    let occupied = vec![pos(0, 0), pos(1, 0), pos(2, 0)];
    let p = place_food(4, 1, &occupied);
    assert_eq!(p, pos(3, 0));
}

#[test]
fn place_food_never_on_snake() {
    let occupied = vec![pos(2, 5), pos(1, 5), pos(0, 5), pos(0, 4), pos(0, 3)];
    for _ in 0..200 {
        let p = place_food(10, 10, &occupied);
        assert!(p.x < 10 && p.y < 10);
        assert!(!occupied.contains(&p));
    }
}

#[test]
fn snapshot_reflects_state() {
    let g = state(10, 10, vec![pos(2, 5), pos(1, 5), pos(0, 5)], pos(7, 3), Direction::Right);
    let s = g.snapshot();
    assert_eq!(s.snake, g.snake);
    assert_eq!(s.food, pos(7, 3));
    assert_eq!(s.score, 0);
    assert!(s.alive);
}

#[test]
fn score_accumulates_meal_by_meal() {
    // An earlier score of 3 rises to exactly 4 on a food tick and stays
    // at 4 on the following plain move.
    let mut g = GameState {
        width: 10,
        height: 10,
        snake: vec![pos(1, 5), pos(0, 5), pos(0, 4)],
        food: pos(2, 5),
        score: 3,
        heading: Direction::Right,
        alive: true,
    };
    assert_eq!(g.update(None), Ok(()));
    assert_eq!(g.score, 4);
    assert_eq!(g.snake.len(), 4);
    if g.alive && g.food != pos(3, 5) {
        assert_eq!(g.update(None), Ok(()));
        assert_eq!(g.score, 4);
        assert_eq!(g.snake.len(), 4);
    }
}
