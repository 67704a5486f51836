//! The parts of the genetic algorithm that decide in whole numbers: the food
//! list a generation plays with, crossover of two parents, stepping a batch
//! of games, and summaries of a batch.
use vstd::prelude::*;

use crate::grid::{Cell, DIRECTIONS, in_grid};
use crate::random::{random_below, random_bool};
use crate::snake_env::{Observation, SnakeEnv, room_to_grow, stepped};

verus! {

/// Number of food positions drawn for the games of one generation.
pub const FOOD_SEQUENCE_LEN: usize = 500;

/// Draws the food positions that every game of a generation hands out in
/// turn: `FOOD_SEQUENCE_LEN` cells of the `grid_size` by `grid_size` board,
/// each drawn at random, row before column.
pub fn food_seq(grid_size: i32) -> (list: Vec<Cell>)
    requires
        grid_size > 0,
    ensures
        list@.len() == FOOD_SEQUENCE_LEN,
        forall|k: int|
            0 <= k < list@.len() ==> in_grid(grid_size as int, #[trigger] list@[k].0 as int, list@[k].1 as int),
{
    let mut list: Vec<Cell> = Vec::new();
    let mut n: usize = 0;
    while n < FOOD_SEQUENCE_LEN
        invariant
            grid_size > 0,
            n <= FOOD_SEQUENCE_LEN,
            list@.len() == n,
            forall|k: int|
                0 <= k < list@.len() ==> in_grid(grid_size as int, #[trigger] list@[k].0 as int, list@[k].1 as int),
        decreases FOOD_SEQUENCE_LEN - n,
    {
        let r = random_below(grid_size as usize) as i32;
        let c = random_below(grid_size as usize) as i32;
        list.push((r, c));
        n += 1;
    }
    list
}

/// The length of the shorter of two parents.
pub open spec fn shorter(a: int, b: int) -> int {
    if a <= b {
        a
    } else {
        b
    }
}

/// The child of `p1` and `p2` in which gene `i` comes from `p1` where
/// `picks[i]` holds and from `p2` otherwise; as long as the shortest of the three.
pub fn crossover_with<T: Copy>(p1: &[T], p2: &[T], picks: &[bool]) -> (child: Vec<T>)
    ensures
        child@.len() == shorter(shorter(p1@.len() as int, p2@.len() as int), picks@.len() as int),
        forall|i: int|
            0 <= i < child@.len() ==> #[trigger] child@[i] == if picks@[i] {
                p1@[i]
            } else {
                p2@[i]
            },
{
    let n = if p1.len() <= p2.len() {
        p1.len()
    } else {
        p2.len()
    };
    let n = if n <= picks.len() {
        n
    } else {
        picks.len()
    };
    let mut child: Vec<T> = Vec::new();
    let mut i: usize = 0;
    while i < n
        invariant
            n <= p1@.len(),
            n <= p2@.len(),
            n <= picks@.len(),
            n == shorter(shorter(p1@.len() as int, p2@.len() as int), picks@.len() as int),
            i <= n,
            child@.len() == i,
            forall|k: int|
                0 <= k < i ==> #[trigger] child@[k] == if picks@[k] {
                    p1@[k]
                } else {
                    p2@[k]
                },
        decreases n - i,
    {
        if picks[i] {
            child.push(p1[i]);
        } else {
            child.push(p2[i]);
        }
        i += 1;
    }
    child
}

/// Uniform crossover: each gene of the child comes from `p1` or from `p2`, at
/// the same position, as a fair coin decides; the child is as long as the
/// shorter parent.
pub fn crossover<T: Copy>(p1: &[T], p2: &[T]) -> (child: Vec<T>)
    ensures
        child@.len() == shorter(p1@.len() as int, p2@.len() as int),
        forall|i: int|
            0 <= i < child@.len() ==> #[trigger] child@[i] == p1@[i] || child@[i] == p2@[i],
{
    let n = if p1.len() <= p2.len() {
        p1.len()
    } else {
        p2.len()
    };
    let mut picks: Vec<bool> = Vec::new();
    let mut i: usize = 0;
    while i < n
        invariant
            i <= n,
            picks@.len() == i,
        decreases n - i,
    {
        picks.push(random_bool());
        i += 1;
    }
    let child = crossover_with(p1, p2, picks.as_slice());
    assert forall|i: int| 0 <= i < child@.len() implies #[trigger] child@[i] == p1@[i] || child@[i]
        == p2@[i] by {
        assert(child@[i] == if picks@[i] {
            p1@[i]
        } else {
            p2@[i]
        });
    }
    child
}

/// Whether game `i` of a batch may be stepped with `actions[i]`.
pub open spec fn ready_to_step(env: SnakeEnv, action: usize) -> bool {
    &&& env.wf()
    &&& action < DIRECTIONS
    &&& env.steps < usize::MAX
    &&& env.hunger < usize::MAX
    &&& room_to_grow(env, action as int)
}

/// Steps every game of the batch that is still running with its action,
/// marks the games that end, and returns what each stepped snake senses
/// (`None` for the games that were already over, which stay as they were).
pub fn step_alive(envs: &mut Vec<SnakeEnv>, alive: &mut Vec<bool>, actions: &Vec<usize>) -> (obs: Vec<
    Option<Observation>,
>)
    requires
        old(envs)@.len() == old(alive)@.len(),
        old(alive)@.len() == actions@.len(),
        forall|i: int|
            0 <= i < old(alive)@.len() && #[trigger] old(alive)@[i] ==> ready_to_step(
                old(envs)@[i],
                actions@[i],
            ),
    ensures
        final(envs)@.len() == old(envs)@.len(),
        final(alive)@.len() == old(alive)@.len(),
        obs@.len() == old(alive)@.len(),
        forall|i: int|
            0 <= i < old(alive)@.len() ==> if #[trigger] old(alive)@[i] {
                &&& final(envs)@[i].wf()
                &&& stepped(old(envs)@[i], final(envs)@[i], actions@[i] as int, !final(alive)@[i])
                &&& obs@[i] is Some
                &&& final(envs)@[i].observed_by(obs@[i]->0)
            } else {
                &&& final(envs)@[i] == old(envs)@[i]
                &&& !final(alive)@[i]
                &&& obs@[i] is None
            },
{
    let n = alive.len();
    let mut obs: Vec<Option<Observation>> = Vec::new();
    let mut i: usize = 0;
    while i < n
        invariant
            n == old(alive)@.len(),
            envs@.len() == n,
            alive@.len() == n,
            actions@.len() == n,
            i <= n,
            obs@.len() == i,
            forall|k: int| i <= k < n ==> #[trigger] envs@[k] == old(envs)@[k],
            forall|k: int| i <= k < n ==> #[trigger] alive@[k] == old(alive)@[k],
            forall|k: int|
                0 <= k < n && #[trigger] old(alive)@[k] ==> ready_to_step(old(envs)@[k], actions@[k]),
            forall|k: int|
                0 <= k < i ==> if #[trigger] old(alive)@[k] {
                    &&& envs@[k].wf()
                    &&& stepped(old(envs)@[k], envs@[k], actions@[k] as int, !alive@[k])
                    &&& obs@[k] is Some
                    &&& envs@[k].observed_by(obs@[k]->0)
                } else {
                    &&& envs@[k] == old(envs)@[k]
                    &&& !alive@[k]
                    &&& obs@[k] is None
                },
        decreases n - i,
    {
        if alive[i] {
            let (o, done) = envs[i].step(actions[i]);
            alive.set(i, !done);
            obs.push(Some(o));
        } else {
            obs.push(None);
        }
        i += 1;
    }
    obs
}

/// The largest score in the batch, or zero for an empty batch.
pub fn best_score(envs: &Vec<SnakeEnv>) -> (best: usize)
    ensures
        forall|i: int| 0 <= i < envs@.len() ==> #[trigger] envs@[i].score <= best,
        envs@.len() == 0 ==> best == 0,
        envs@.len() > 0 ==> exists|i: int| 0 <= i < envs@.len() && #[trigger] envs@[i].score == best,
{
    let mut best: usize = 0;
    let mut i: usize = 0;
    while i < envs.len()
        invariant
            i <= envs@.len(),
            forall|k: int| 0 <= k < i ==> #[trigger] envs@[k].score <= best,
            i == 0 ==> best == 0,
            i > 0 ==> exists|k: int| 0 <= k < i && #[trigger] envs@[k].score == best,
        decreases envs@.len() - i,
    {
        if i == 0 || envs[i].score > best {
            best = envs[i].score;
        }
        i += 1;
    }
    best
}

/// How many games of the batch are still running.
pub fn count_alive(alive: &Vec<bool>) -> (count: usize)
    ensures
        count == alive@.filter(|a: bool| a).len(),
{
    let mut count: usize = 0;
    let mut i: usize = 0;
    while i < alive.len()
        invariant
            i <= alive@.len(),
            count == alive@.take(i as int).filter(|a: bool| a).len(),
            count <= i,
        decreases alive@.len() - i,
    {
        proof {
            reveal_with_fuel(Seq::filter, 1);
            assert(alive@.take(i + 1).drop_last() =~= alive@.take(i as int));
        }
        if alive[i] {
            count += 1;
        }
        i += 1;
    }
    assert(alive@.take(alive@.len() as int) =~= alive@);
    count
}

/// The first game of the batch that is still running, if any.
pub fn first_alive(alive: &Vec<bool>) -> (first: Option<usize>)
    ensures
        match first {
            Some(i) => i < alive@.len() && alive@[i as int] && forall|k: int|
                0 <= k < i ==> !#[trigger] alive@[k],
            None => forall|k: int| 0 <= k < alive@.len() ==> !#[trigger] alive@[k],
        },
{
    let mut i: usize = 0;
    while i < alive.len()
        invariant
            i <= alive@.len(),
            forall|k: int| 0 <= k < i ==> !#[trigger] alive@[k],
        decreases alive@.len() - i,
    {
        if alive[i] {
            return Some(i);
        }
        i += 1;
    }
    None
}

/// Whether the training loop shows the best games after generation
/// `generation` when asked to show them every `every` generations (never
/// when `every` is zero).
pub fn visualize_now(generation: usize, every: usize) -> (show: bool)
    ensures
        show == (every > 0 && generation % every == 0),
{
    every > 0 && generation % every == 0
}

} // verus!
