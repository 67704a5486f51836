use snake_ai::checkpoint::{params_from_bytes, params_to_bytes};
use snake_ai::evolution::{
    best_score, count_alive, crossover, crossover_with, first_alive, food_seq, step_alive, visualize_now,
    FOOD_SEQUENCE_LEN,
};
use snake_ai::snake_env::SnakeEnv;

#[test]
fn food_sequence_stays_on_the_board() {
    let list = food_seq(7);
    assert_eq!(list.len(), FOOD_SEQUENCE_LEN);
    assert!(list.iter().all(|&(r, c)| (0..7).contains(&r) && (0..7).contains(&c)));
    // Five hundred draws on a 7 by 7 board do not all land on one cell.
    assert!(list.iter().any(|&cell| cell != list[0]));
}

#[test]
fn food_sequence_on_a_single_cell_board() {
    assert!(food_seq(1).iter().all(|&cell| cell == (0, 0)));
}

#[test]
fn crossover_with_picks_each_gene() {
    let child = crossover_with(&[1.5f32, 2.5, 3.5], &[7.0f32, 8.0], &[true, false, true]);
    assert_eq!(child, vec![1.5, 8.0]);
    let child = crossover_with(&[1, 2, 3], &[4, 5, 6], &[false]);
    assert_eq!(child, vec![4]);
}

#[test]
fn crossover_takes_genes_from_both_parents_in_place() {
    let p1 = vec![1u32; 200];
    let p2 = vec![2u32; 300];
    let child = crossover(&p1, &p2);
    assert_eq!(child.len(), 200);
    assert!(child.iter().all(|&g| g == 1 || g == 2));
    // A fair coin tossed two hundred times shows both faces.
    assert!(child.contains(&1) && child.contains(&2));
    let p1: Vec<u32> = (0..50).collect();
    let p2: Vec<u32> = (100..150).collect();
    let child = crossover(&p1, &p2);
    for (i, &g) in child.iter().enumerate() {
        assert!(g == p1[i] || g == p2[i]);
    }
}

#[test]
fn step_alive_skips_finished_games() {
    let mut envs = vec![
        SnakeEnv::new(20, vec![(0, 0)]),
        SnakeEnv::new(20, vec![(0, 0)]),
        SnakeEnv::new(4, vec![(0, 0)]),
    ];
    let mut alive = vec![true, false, true];
    let obs = step_alive(&mut envs, &mut alive, &vec![0, 0, 1]);
    assert_eq!(obs.len(), 3);
    assert!(obs[0].is_some() && obs[1].is_none() && obs[2].is_some());
    assert_eq!(envs[0].snake[0], (9, 10));
    assert_eq!(envs[1].snake[0], (10, 10));
    assert_eq!(envs[2].snake[0], (2, 3));
    assert_eq!(alive, vec![true, false, true]);
    let obs = step_alive(&mut envs, &mut alive, &vec![1, 1, 1]);
    assert_eq!(alive, vec![true, false, false]);
    assert_eq!(obs[2].as_ref().unwrap().wall[2], 1);
}

#[test]
fn best_score_and_counts() {
    let mut a = SnakeEnv::new(20, vec![(10, 11), (0, 0)]);
    let b = SnakeEnv::new(20, vec![(0, 0)]);
    assert_eq!(best_score(&vec![]), 0);
    a.step(1);
    assert_eq!(best_score(&vec![b, a]), 1);
    assert_eq!(count_alive(&vec![true, false, true, true]), 3);
    assert_eq!(count_alive(&vec![]), 0);
    assert_eq!(first_alive(&vec![false, false, true, true]), Some(2));
    assert_eq!(first_alive(&vec![false, false]), None);
}

#[test]
fn checkpoint_bytes_are_little_endian() {
    let bytes = params_to_bytes(&vec![0x0403_0201, 0xffff_ffff, 0]);
    assert_eq!(bytes, vec![1, 2, 3, 4, 255, 255, 255, 255, 0, 0, 0, 0]);
    assert_eq!(params_to_bytes(&vec![]), Vec::<u8>::new());
}

#[test]
fn checkpoint_words_ignore_a_trailing_partial_word() {
    assert_eq!(params_from_bytes(&vec![1, 0, 0, 0, 2, 1, 0, 128, 9, 9]), vec![1, 0x8000_0102]);
    assert_eq!(params_from_bytes(&vec![1, 2, 3]), Vec::<u32>::new());
}

#[test]
fn checkpoint_round_trip_of_float_parameters() {
    let params = [0.5f32, -1.25, 3.0e-7, f32::MAX, -0.0];
    let words: Vec<u32> = params.iter().map(|p| p.to_bits()).collect();
    let bytes = params_to_bytes(&words);
    let expected: Vec<u8> = params.iter().flat_map(|p| p.to_le_bytes()).collect();
    assert_eq!(bytes, expected);
    let back: Vec<f32> = params_from_bytes(&bytes).iter().map(|&w| f32::from_bits(w)).collect();
    assert_eq!(back.iter().map(|p| p.to_bits()).collect::<Vec<_>>(), words);
}

#[test]
fn visualize_every_n_generations() {
    assert!(visualize_now(10, 10));
    assert!(visualize_now(20, 5));
    assert!(!visualize_now(7, 10));
    assert!(!visualize_now(10, 0));
}
