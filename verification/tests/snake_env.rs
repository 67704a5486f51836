use std::collections::HashSet;
use snake_ai::grid::{free_cells, Cell};
use snake_ai::snake_env::{food_spot_exists, initial_snake_cells, SnakeEnv};

fn env_with_food(grid: i32, food: Vec<Cell>) -> SnakeEnv {
    SnakeEnv::new(grid, food)
}

#[test]
fn new_game_starts_in_the_middle_heading_right() {
    let env = env_with_food(20, vec![(3, 4)]);
    assert_eq!(env.snake, vec![(10, 10), (10, 9), (10, 8)]);
    assert_eq!(env.direction, 1);
    assert_eq!(env.food, (3, 4));
    assert_eq!(env.food_idx, 1);
    assert_eq!(env.steps, 0);
    assert_eq!(env.score, 0);
    assert_eq!(env.hunger, 0);
    assert_eq!(env.hunger_limit, 200);
    assert_eq!(env.max_steps, 4000);
}

#[test]
fn odd_grid_rounds_the_middle_down() {
    let env = env_with_food(7, vec![(0, 0)]);
    assert_eq!(env.snake, vec![(3, 3), (3, 2), (3, 1)]);
    assert_eq!(env.hunger_limit, 24);
    assert_eq!(env.max_steps, 490);
}

#[test]
fn listed_food_on_the_snake_is_skipped() {
    let env = env_with_food(20, vec![(10, 9), (10, 10), (5, 5), (6, 6)]);
    assert_eq!(env.food, (5, 5));
    assert_eq!(env.food_idx, 3);
}

#[test]
fn random_food_lands_on_a_free_cell() {
    for _ in 0..50 {
        let env = env_with_food(4, vec![]);
        let (r, c) = env.food;
        assert!(0 <= r && r < 4 && 0 <= c && c < 4);
        assert!(!env.snake.contains(&env.food));
        assert_eq!(env.food_idx, 0);
    }
}

#[test]
fn random_food_fills_the_only_free_cell() {
    // On a 2 by 2 board the snake covers (1, 1) and (1, 0); (1, -1) lies off the board.
    for _ in 0..20 {
        let mut env = env_with_food(2, vec![]);
        assert!(env.food == (0, 0) || env.food == (0, 1));
        env.reset();
        assert!(env.food == (0, 0) || env.food == (0, 1));
    }
}

#[test]
fn moving_onto_food_grows_and_scores() {
    let mut env = env_with_food(20, vec![(10, 11), (2, 2)]);
    let (_, done) = env.step(1);
    assert!(!done);
    assert_eq!(env.snake, vec![(10, 11), (10, 10), (10, 9), (10, 8)]);
    assert_eq!(env.score, 1);
    assert_eq!(env.hunger, 0);
    assert_eq!(env.steps, 1);
    assert_eq!(env.food, (2, 2));
    assert_eq!(env.food_idx, 2);
}

#[test]
fn plain_move_drags_the_tail() {
    let mut env = env_with_food(20, vec![(0, 0)]);
    let (_, done) = env.step(0);
    assert!(!done);
    assert_eq!(env.direction, 0);
    assert_eq!(env.snake, vec![(9, 10), (10, 10), (10, 9)]);
    assert_eq!(env.hunger, 1);
    assert_eq!(env.steps, 1);
    assert_eq!(env.score, 0);
}

#[test]
fn asking_to_reverse_keeps_going_straight() {
    let mut env = env_with_food(20, vec![(0, 0)]);
    let (_, done) = env.step(3);
    assert!(!done);
    assert_eq!(env.direction, 1);
    assert_eq!(env.snake[0], (10, 11));
}

#[test]
fn hitting_the_wall_ends_the_game_unchanged() {
    let mut env = env_with_food(4, vec![(0, 0)]);
    // Head at (2, 2); two moves right reach column 3, the third leaves the board.
    assert!(!env.step(1).1);
    let before = env.snake.clone();
    let steps = env.steps;
    let (_, done) = env.step(1);
    assert!(done);
    assert_eq!(env.snake, before);
    assert_eq!(env.steps, steps);
}

#[test]
fn biting_the_body_ends_the_game() {
    let mut env = env_with_food(20, vec![(0, 0)]);
    // Grow the snake by hand, then turn into it.
    env.snake = vec![(10, 10), (10, 9), (11, 9), (11, 10), (11, 11)];
    env.score = 2;
    let (_, done) = env.step(2);
    assert!(done);
    assert_eq!(env.direction, 2);
    assert_eq!(env.snake.len(), 5);
}

#[test]
fn moving_into_the_tail_cell_is_allowed() {
    let mut env = env_with_food(20, vec![(0, 0)]);
    env.snake = vec![(10, 10), (10, 9), (11, 9), (11, 10)];
    env.score = 1;
    let (_, done) = env.step(2);
    assert!(!done);
    assert_eq!(env.snake, vec![(11, 10), (10, 10), (10, 9), (11, 9)]);
}

#[test]
fn the_snake_starves() {
    // A 4 by 4 board allows 8 moves without food.
    let mut env = env_with_food(4, vec![(0, 0)]);
    let moves = [0usize, 3, 2, 1, 0, 3, 2, 1];
    for (k, &a) in moves.iter().enumerate() {
        let (_, done) = env.step(a);
        if k + 1 < moves.len() {
            assert!(!done, "move {k} ended the game");
        } else {
            assert!(done);
            assert_eq!(env.hunger, 8);
            assert_eq!(env.steps, 7);
        }
    }
}

#[test]
fn the_step_limit_ends_the_game() {
    let mut env = env_with_food(20, vec![(0, 0)]);
    env.max_steps = 3;
    assert!(!env.step(0).1);
    assert!(!env.step(3).1);
    let (_, done) = env.step(2);
    assert!(done);
    assert_eq!(env.steps, 3);
}

#[test]
fn observation_in_the_middle() {
    let env = env_with_food(20, vec![(3, 15)]);
    let obs = env.get_obs();
    // Head (10, 10): N, NE, E, SE, S, SW, W, NW.
    assert_eq!(obs.wall, vec![11, 10, 10, 10, 10, 10, 11, 11]);
    assert_eq!(obs.body, vec![None, None, None, None, None, None, Some(1), None]);
    assert_eq!(obs.food, vec![7, 0, 0, 5]);
}

#[test]
fn observation_sees_the_body_along_a_diagonal() {
    let mut env = env_with_food(20, vec![(19, 19)]);
    env.snake = vec![(10, 10), (10, 9), (11, 9), (12, 8), (13, 8)];
    env.score = 2;
    let obs = env.get_obs();
    assert_eq!(obs.body[5], Some(1));
    assert_eq!(obs.body[4], None);
    assert_eq!(obs.wall[5], 10);
    assert_eq!(obs.food, vec![0, 9, 0, 9]);
}

#[test]
fn observation_next_to_the_wall() {
    let mut env = env_with_food(5, vec![(4, 4)]);
    env.snake = vec![(0, 0), (1, 0), (2, 0)];
    let obs = env.get_obs();
    assert_eq!(obs.wall, vec![1, 1, 5, 5, 5, 1, 1, 1]);
    assert_eq!(obs.body[4], Some(1));
}

#[test]
fn reset_starts_over() {
    let mut env = env_with_food(20, vec![(10, 11), (2, 2)]);
    env.step(1);
    env.step(0);
    let obs = env.reset();
    let fresh = env_with_food(20, vec![(10, 11), (2, 2)]);
    assert_eq!(env.snake, fresh.snake);
    assert_eq!(env.food, fresh.food);
    assert_eq!(env.food_idx, fresh.food_idx);
    assert_eq!(env.direction, 1);
    assert_eq!((env.steps, env.score, env.hunger), (0, 0, 0));
    assert_eq!(obs.wall, fresh.get_obs().wall);
}

#[test]
fn food_distance_counts_rows_and_columns() {
    let env = env_with_food(20, vec![(3, 15)]);
    assert_eq!(env.food_distance(), 12);
    let far = env_with_food(20, vec![(i32::MIN, i32::MAX)]);
    assert_eq!(far.food_distance(), 10 - (i32::MIN as i64) + (i32::MAX as i64 - 10));
}

#[test]
fn food_spots_on_tiny_boards() {
    let one = initial_snake_cells(1);
    assert_eq!(one, vec![(0, 0), (0, -1), (0, -2)]);
    assert!(!food_spot_exists(&one, &vec![], 0, 1));
    assert!(food_spot_exists(&one, &vec![(0, 0), (7, 7)], 0, 1));
    assert!(!food_spot_exists(&one, &vec![(7, 7)], 1, 1));
    assert!(food_spot_exists(&initial_snake_cells(2), &vec![], 0, 2));
    assert!(!food_spot_exists(&initial_snake_cells(0), &vec![], 0, 0));
}

#[test]
fn negative_grid_keeps_middle_toward_zero() {
    assert_eq!(initial_snake_cells(-3), vec![(-1, -1), (-1, -2), (-1, -3)]);
    let mut env = env_with_food(-3, vec![(5, 5)]);
    assert_eq!(env.food, (5, 5));
    let (_, done) = env.step(1);
    assert!(done);
}

#[test]
fn free_cells_are_row_major() {
    let snake = vec![(0, 1), (1, 0), (5, 5)];
    assert_eq!(free_cells(&snake, 2), vec![(0, 0), (1, 1)]);
    assert_eq!(free_cells(&vec![], 0), vec![]);
    assert_eq!(free_cells(&vec![], 2).len(), 4);
}

#[test]
fn can_step_checks_room_for_new_food() {
    // 2 by 2 board: after eating at (0, 1) the snake covers (0, 1), (1, 1), (1, 0).
    let mut env = env_with_food(2, vec![(0, 1)]);
    assert_eq!(env.food, (0, 1));
    assert!(env.can_step(0));
    assert!(env.can_step(3));
    env.food_sequence = vec![(0, 1), (9, 9)];
    assert!(env.can_step(0));
    let (_, done) = env.step(0);
    assert!(!done);
    assert_eq!(env.food, (9, 9));
    assert_eq!(env.score, 1);
}

#[test]
fn games_sharing_a_food_list_play_alike() {
    let list: Vec<Cell> = vec![(10, 12), (9, 12), (3, 3), (4, 4)];
    let mut a = env_with_food(20, list.clone());
    let mut b = env_with_food(20, list);
    for &m in &[1usize, 1, 0, 3, 3, 2, 2] {
        let (oa, da) = a.step(m);
        let (ob, db) = b.step(m);
        assert_eq!(da, db);
        assert_eq!(oa.wall, ob.wall);
        assert_eq!(oa.body, ob.body);
        assert_eq!(oa.food, ob.food);
        assert_eq!((a.snake.clone(), a.food, a.food_idx), (b.snake.clone(), b.food, b.food_idx));
    }
    assert_eq!(a.score, 2);
}

#[test]
fn random_play_keeps_the_snake_whole() {
    let mut seed: u64 = 12345;
    for _ in 0..30 {
        let mut env = env_with_food(5, vec![]);
        for _ in 0..200 {
            seed = seed.wrapping_mul(6364136223846793005).wrapping_add(1442695040888963407);
            let action = (seed >> 33) as usize % 4;
            if !env.can_step(action) {
                break;
            }
            let before_dir = env.direction;
            let (obs, done) = env.step(action);
            assert_ne!(env.direction, (before_dir + 2) % 4);
            let cells: HashSet<Cell> = env.snake.iter().cloned().collect();
            assert_eq!(cells.len(), env.snake.len());
            assert!(!cells.contains(&env.food));
            assert_eq!(env.snake.len(), env.score + 3);
            assert!(env.snake.iter().all(|&(r, c)| (0..5).contains(&r) && (0..5).contains(&c)));
            for w in env.snake.windows(2) {
                assert_eq!((w[0].0 - w[1].0).abs() + (w[0].1 - w[1].1).abs(), 1);
            }
            assert!((0..5).contains(&env.food.0) && (0..5).contains(&env.food.1));
            assert!(obs.wall.iter().all(|&w| w >= 1));
            for i in 0..8 {
                if let Some(d) = obs.body[i] {
                    assert!(1 <= d && d < obs.wall[i]);
                }
            }
            if done {
                break;
            }
        }
    }
}

#[test]
fn a_game_ends_within_its_step_limit() {
    // Circle on a 6 by 6 board, eating whatever lies on the way, until the game ends.
    let mut env = env_with_food(6, vec![]);
    env.max_steps = 30;
    let circle = [0usize, 3, 2, 1];
    let mut calls = 0;
    loop {
        let a = circle[calls % 4];
        if !env.can_step(a) {
            break;
        }
        calls += 1;
        if env.step(a).1 {
            break;
        }
    }
    assert!(calls <= 30);
    assert!(env.steps <= 30);
}
