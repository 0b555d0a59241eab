use rusty_snake::game::food::{BoardFull, Food, FoodItem};
use rusty_snake::game::game::{
    game_over, growths_under_head, init_game_resources, toggle_pause, within, Frame, Game,
    GameOverEvent, Hud, InGameState, FOOD_SPAWN_INTERVAL, SNAKE_STEP_INTERVAL,
};
use rusty_snake::game::snake::{ArrowKeys, LastTailPosition, SnakeSegments};
use rusty_snake::game::sound::{play_food_eaten_pitch, FoodEatenPitchEvent, Pitch};
use rusty_snake::timer::Timer;
use rusty_snake::utils::{Direction, Grid, Position};

const STEP: u64 = 200_000_000;
const NEVER: u64 = u64::MAX;

fn p(x: i32, y: i32) -> Position {
    Position { x, y }
}

fn keys_none() -> ArrowKeys {
    ArrowKeys { left: false, right: false, down: false, up: false }
}

fn frame(delta: u64) -> Frame {
    Frame { delta, keys: keys_none(), toggle_pause: false }
}

fn new_game() -> Game {
    let mut game = Game::new(Grid::new(10, 10).unwrap(), NEVER).unwrap();
    game.food_timer.0 = Timer::new(NEVER);
    game
}

#[test]
fn new_game_is_spawned() {
    let game = Game::new(Grid::new(10, 10).unwrap(), 5_000_000_000).unwrap();
    assert_eq!(game.state, InGameState::Spawned);
    assert_eq!(game.segments.0, vec![p(3, 3), p(3, 2)]);
    assert_eq!(game.head.direction, Direction::Up);
    assert_eq!(game.user_input.direction, Direction::Up);
    assert_eq!(game.last_tail_position, LastTailPosition(None));
    assert!(game.foods.is_empty());
    assert_eq!(game.hud, Hud { score: 0 });
    assert_eq!(game.snake_timer.0, Timer::new(200_000_000));
    assert_eq!(game.food_timer.0, Timer::new(2_000_000_000));
    assert_eq!(game.shrink_food_timer.0, Timer::new(5_000_000_000));
    assert_eq!(SNAKE_STEP_INTERVAL, 200_000_000);
    assert_eq!(FOOD_SPAWN_INTERVAL, 2_000_000_000);
    assert!(game.is_ready());
}

#[test]
fn resources_hold_no_snake_yet() {
    let grid = Grid::new(10, 10).unwrap();
    let game = init_game_resources(grid, 5_000_000_000);
    assert!(game.segments.0.is_empty());
    assert_eq!(game.state, InGameState::Spawned);
    assert_eq!(game.last_tail_position, LastTailPosition(None));
    assert!(game.foods.is_empty());
    assert_eq!(game.hud, Hud { score: 0 });
    assert_eq!(game.snake_timer.0, Timer::new(200_000_000));
    assert_eq!(game.food_timer.0, Timer::new(2_000_000_000));
    assert_eq!(game.shrink_food_timer.0, Timer::new(5_000_000_000));
    assert_eq!(game.head.direction, Direction::Up);
    assert_eq!(game.user_input.direction, Direction::Up);
    assert_eq!(game.grid, grid);
}

#[test]
fn reset_spawns_the_snake_again() {
    let mut game = new_game();
    game.update(&frame(STEP));
    game.foods.push(FoodItem { position: p(1, 1), kind: Food::Grow });
    game.hud.score = 300;
    game.reset();
    assert_eq!(game.segments.0, vec![p(3, 3), p(3, 2)]);
    assert_eq!(game.head.direction, Direction::Up);
    assert_eq!(game.user_input.direction, Direction::Up);
    assert_eq!(game.last_tail_position, LastTailPosition(None));
    assert!(game.foods.is_empty());
    assert_eq!(game.hud.score, 0);
    assert_eq!(game.state, InGameState::Spawned);
}

#[test]
fn new_game_needs_room_for_the_snake() {
    assert!(Game::new(Grid::new(4, 4).unwrap(), 1).is_some());
    assert!(Game::new(Grid::new(3, 4).unwrap(), 1).is_none());
    assert!(Game::new(Grid::new(4, 3).unwrap(), 1).is_none());
    assert!(Game::new(Grid::new(0, 0).unwrap(), 1).is_none());
    let unchecked = init_game_resources(Grid { width: 2, height: 2 }, 1);
    assert!(!unchecked.is_ready());
}

#[test]
fn tick_then_growth_tick() {
    let mut game = new_game();
    game.foods.push(FoodItem { position: p(3, 4), kind: Food::Grow });
    let out = game.update(&frame(STEP));
    assert_eq!(game.segments.0, vec![p(3, 4), p(3, 3)]);
    assert_eq!(game.last_tail_position, LastTailPosition(Some(p(3, 2))));
    assert_eq!(game.foods.len(), 1);
    assert_eq!(game.hud.score, 0);
    assert_eq!(game.state, InGameState::Running);
    assert_eq!(out.game_over, None);
    assert!(out.pitches.is_empty());
    let out = game.update(&frame(STEP));
    assert_eq!(game.segments.0, vec![p(3, 5), p(3, 4), p(3, 3)]);
    assert!(game.foods.is_empty());
    assert_eq!(game.hud.score, 100);
    assert_eq!(game.snake_timer.0.duration, 200_000_000);
    assert_eq!(game.last_tail_position, LastTailPosition(Some(p(3, 2))));
    assert_eq!(out.pitches, vec![Pitch { frequency: 120, millis: 150 }]);
    assert_eq!(out.game_over, None);
}

#[test]
fn growth_between_steps_appends_the_cell_the_tail_left() {
    let mut game = new_game();
    game.foods.push(FoodItem { position: p(3, 4), kind: Food::Grow });
    game.update(&frame(STEP));
    game.update(&frame(1_000));
    assert_eq!(game.segments.0, vec![p(3, 4), p(3, 3), p(3, 2)]);
    assert_eq!(game.hud.score, 100);
    assert_eq!(game.snake_timer.0, Timer { duration: 200_000_000, elapsed: 1_000, times_finished_this_tick: 0 });
}

#[test]
fn shrink_food_takes_the_tail() {
    let mut game = new_game();
    game.foods.push(FoodItem { position: p(3, 4), kind: Food::Shrink });
    game.update(&frame(STEP));
    let out = game.update(&frame(1));
    assert_eq!(game.segments.0, vec![p(3, 4)]);
    assert!(game.foods.is_empty());
    assert_eq!(game.hud.score, 0);
    assert!(out.pitches.is_empty());
}

#[test]
fn fifth_grow_food_speeds_the_snake_up() {
    let mut game = new_game();
    game.hud.score = 400;
    game.foods.push(FoodItem { position: p(3, 3), kind: Food::Grow });
    game.update(&frame(0));
    assert_eq!(game.hud.score, 500);
    assert_eq!(game.snake_timer.0.duration, 180_000_000);
    assert_eq!(game.segments.0, vec![p(3, 3), p(3, 2)]);
}

#[test]
fn keys_steer_the_snake() {
    let mut game = new_game();
    let left = Frame { delta: STEP, keys: ArrowKeys { left: true, ..keys_none() }, toggle_pause: false };
    game.update(&left);
    assert_eq!(game.head.direction, Direction::Left);
    assert_eq!(game.segments.0, vec![p(2, 3), p(3, 3)]);
    let right = Frame { delta: STEP, keys: ArrowKeys { right: true, ..keys_none() }, toggle_pause: false };
    game.update(&right);
    assert_eq!(game.user_input.direction, Direction::Right);
    assert_eq!(game.head.direction, Direction::Left);
    assert_eq!(game.segments.0, vec![p(1, 3), p(2, 3)]);
}

#[test]
fn no_step_before_the_interval_has_passed() {
    let mut game = new_game();
    game.update(&frame(STEP - 1));
    assert_eq!(game.state, InGameState::Running);
    assert_eq!(game.segments.0, vec![p(3, 3), p(3, 2)]);
    game.update(&frame(1));
    assert_eq!(game.segments.0, vec![p(3, 4), p(3, 3)]);
}

#[test]
fn leaving_the_grid_ends_the_game_once() {
    let mut game = new_game();
    let mut overs = 0;
    for _ in 0..20 {
        let out = game.update(&frame(STEP));
        if out.game_over == Some(GameOverEvent) {
            overs += 1;
        }
    }
    assert_eq!(overs, 1);
    assert_eq!(game.state, InGameState::GameOver);
    assert_eq!(game.segments.0, vec![p(3, 10), p(3, 9)]);
}

#[test]
fn game_over_is_terminal_until_reset() {
    let mut game = new_game();
    for _ in 0..7 {
        game.update(&frame(STEP));
    }
    assert_eq!(game.state, InGameState::GameOver);
    let chain = game.segments.0.clone();
    let timer = game.snake_timer;
    let pause = Frame { delta: STEP, keys: ArrowKeys { left: true, ..keys_none() }, toggle_pause: true };
    let out = game.update(&pause);
    assert_eq!(game.state, InGameState::GameOver);
    assert_eq!(game.segments.0, chain);
    assert_eq!(game.snake_timer, timer);
    assert_eq!(game.user_input.direction, Direction::Up);
    assert_eq!(out.game_over, None);
    assert_eq!(out.grow_food, Ok(None));
    game.reset();
    assert_eq!(game.state, InGameState::Spawned);
    assert_eq!(game.segments.0, vec![p(3, 3), p(3, 2)]);
    assert_eq!(game.hud.score, 0);
    assert_eq!(game.shrink_food_timer.0, Timer::new(NEVER));
    assert_eq!(game.food_timer.0, Timer::new(FOOD_SPAWN_INTERVAL));
}

#[test]
fn pause_halts_and_resumes() {
    let mut game = new_game();
    let toggle = Frame { delta: STEP, keys: keys_none(), toggle_pause: true };
    game.update(&toggle);
    assert_eq!(game.state, InGameState::Paused);
    assert_eq!(game.segments.0, vec![p(3, 4), p(3, 3)]);
    let held = Frame { delta: STEP, keys: ArrowKeys { left: true, ..keys_none() }, toggle_pause: false };
    game.update(&held);
    assert_eq!(game.state, InGameState::Paused);
    assert_eq!(game.segments.0, vec![p(3, 4), p(3, 3)]);
    assert_eq!(game.user_input.direction, Direction::Up);
    assert_eq!(game.snake_timer.0.elapsed, 0);
    game.update(&toggle);
    assert_eq!(game.state, InGameState::Running);
    assert_eq!(game.segments.0, vec![p(3, 4), p(3, 3)]);
    game.update(&frame(STEP));
    assert_eq!(game.segments.0, vec![p(3, 5), p(3, 4)]);
}

#[test]
fn state_changes() {
    assert_eq!(toggle_pause(true, InGameState::Running), InGameState::Paused);
    assert_eq!(toggle_pause(true, InGameState::Paused), InGameState::Running);
    assert_eq!(toggle_pause(true, InGameState::Spawned), InGameState::Spawned);
    assert_eq!(toggle_pause(true, InGameState::GameOver), InGameState::GameOver);
    assert_eq!(toggle_pause(false, InGameState::Running), InGameState::Running);
    assert_eq!(toggle_pause(false, InGameState::Paused), InGameState::Paused);
    assert_eq!(game_over(Some(GameOverEvent), InGameState::Running), InGameState::GameOver);
    assert_eq!(game_over(None, InGameState::Running), InGameState::Running);
    assert_eq!(game_over(None, InGameState::Paused), InGameState::Paused);
}

#[test]
fn food_appears_with_its_timers() {
    let mut game = Game::new(Grid::new(10, 10).unwrap(), 300_000_000).unwrap();
    let out = game.update(&frame(100_000_000));
    assert_eq!((out.grow_food, out.shrink_food), (Ok(None), Ok(None)));
    game.update(&frame(100_000_000));
    let out = game.update(&frame(100_000_000));
    let shrink = out.shrink_food.unwrap().unwrap();
    assert_eq!(out.grow_food, Ok(None));
    assert_eq!(game.foods, vec![FoodItem { position: shrink, kind: Food::Shrink }]);
    assert!(!game.segments.0.contains(&shrink));
    assert!(game.grid.contains(shrink));
    let out = game.update(&frame(1_700_000_000));
    assert_eq!(game.state, InGameState::Running);
    let grow = out.grow_food.unwrap().unwrap();
    assert_ne!(grow, shrink);
    assert!(!game.segments.0.contains(&grow));
    assert_eq!(game.foods.len(), 3);
    assert_eq!(game.foods[1], FoodItem { position: grow, kind: Food::Grow });
}

#[test]
fn a_full_board_is_reported() {
    let mut game = Game::new(Grid::new(4, 4).unwrap(), NEVER).unwrap();
    for y in 0..4 {
        for x in 0..4 {
            if (x, y) != (3, 3) && (x, y) != (3, 2) {
                game.foods.push(FoodItem { position: p(x, y), kind: Food::Shrink });
            }
        }
    }
    game.snake_timer.0 = Timer::new(NEVER);
    let out = game.update(&frame(FOOD_SPAWN_INTERVAL));
    assert_eq!(out.grow_food, Err(BoardFull));
    assert_eq!(out.shrink_food, Ok(None));
    assert_eq!(game.foods.len(), 14);
    assert_eq!(game.state, InGameState::Running);
}

#[test]
fn try_update_refuses_an_unfit_game() {
    let mut game = new_game();
    game.segments = SnakeSegments(vec![p(30, 3)]);
    assert!(!game.is_ready());
    assert!(game.try_update(&frame(STEP)).is_none());
    assert_eq!(game.segments.0, vec![p(30, 3)]);
    assert_eq!(game.state, InGameState::Spawned);
    let mut game = new_game();
    game.hud.score = u32::MAX - 50;
    game.foods.push(FoodItem { position: p(3, 3), kind: Food::Grow });
    assert!(!game.is_ready());
    assert!(game.try_update(&frame(STEP)).is_none());
    assert_eq!(game.hud.score, u32::MAX - 50);
    game.hud.score = u32::MAX - 100;
    assert!(game.is_ready());
    let out = game.try_update(&frame(0)).unwrap();
    assert_eq!(game.hud.score, u32::MAX);
    assert_eq!(out.pitches.len(), 1);
    let mut game = new_game();
    game.last_tail_position = LastTailPosition(Some(p(-1, 0)));
    assert!(!game.is_ready());
    game.state = InGameState::GameOver;
    assert!(game.is_ready());
}

#[test]
fn helpers_of_the_readiness_test() {
    let grid = Grid::new(5, 5).unwrap();
    assert!(within(&grid, &vec![p(0, 0), p(4, 4)]));
    assert!(!within(&grid, &vec![p(0, 0), p(5, 4)]));
    assert!(within(&grid, &Vec::new()));
    let segments = SnakeSegments(vec![p(1, 1), p(1, 0)]);
    let foods = vec![
        FoodItem { position: p(1, 1), kind: Food::Grow },
        FoodItem { position: p(1, 1), kind: Food::Shrink },
        FoodItem { position: p(1, 0), kind: Food::Grow },
        FoodItem { position: p(1, 1), kind: Food::Grow },
    ];
    assert_eq!(growths_under_head(&segments, &foods), 2);
    assert_eq!(growths_under_head(&SnakeSegments::default(), &foods), 0);
}

#[test]
fn pitches_for_the_foods_eaten() {
    let events = vec![FoodEatenPitchEvent(Food::Grow), FoodEatenPitchEvent(Food::Shrink)];
    assert_eq!(
        play_food_eaten_pitch(&events),
        vec![Pitch { frequency: 120, millis: 150 }, Pitch { frequency: 500, millis: 150 }]
    );
    assert!(play_food_eaten_pitch(&Vec::new()).is_empty());
}

fn apart(cells: &[Position]) -> bool {
    (0..cells.len()).all(|i| (0..i).all(|j| cells[i] != cells[j]))
}

/// Plays a game in which the snake circles along the border, and looks at
/// every frame; gives the number of frames played.
fn circle_the_border(shrink_food_interval: u64) -> u32 {
    let mut game = Game::new(Grid::new(8, 8).unwrap(), shrink_food_interval).unwrap();
    game.food_timer.0 = Timer::new(300_000_000);
    let mut eaten = 0;
    let mut frames = 0;
    while game.state != InGameState::GameOver && !game.segments.0.is_empty() && frames < 4000 {
        let head = game.segments.0[0];
        let wish = match (head.x, head.y) {
            (0, 0) => Direction::Right,
            (7, 0) => Direction::Up,
            (7, 7) => Direction::Left,
            (0, 7) => Direction::Down,
            (_, 0) => Direction::Right,
            (7, _) => Direction::Up,
            (_, 7) => Direction::Left,
            (0, _) => Direction::Down,
            _ => Direction::Up,
        };
        let keys = ArrowKeys {
            left: wish == Direction::Left,
            right: wish == Direction::Right,
            down: wish == Direction::Down,
            up: wish == Direction::Up,
        };
        let score = game.hud.score;
        let out = game.try_update(&Frame { delta: 100_000_000, keys, toggle_pause: false }).unwrap();
        frames += 1;
        assert!(game.hud.score >= score);
        eaten += out.pitches.len();
        if game.state != InGameState::GameOver {
            assert!(apart(&game.segments.0), "frame {}", frames);
            assert!(game.segments.0.iter().all(|cell| game.grid.contains(*cell)));
        }
        let cells: Vec<Position> = game.foods.iter().map(|food| food.position).collect();
        assert!(apart(&cells), "frame {}", frames);
        if let Ok(Some(cell)) = out.grow_food {
            assert!(!game.segments.0.contains(&cell));
        }
        if let Ok(Some(cell)) = out.shrink_food {
            assert!(!game.segments.0.contains(&cell));
        }
    }
    assert_eq!(game.hud.score as usize, 100 * eaten);
    frames
}

#[test]
fn segments_and_foods_stay_apart_while_the_snake_grows() {
    assert!(circle_the_border(NEVER) >= 30);
}

#[test]
fn segments_and_foods_stay_apart_while_the_snake_grows_and_shrinks() {
    for _ in 0..20 {
        circle_the_border(500_000_000);
    }
}
