use sixball_dice::die::Die;
use sixball_dice::pool::Pool;

fn fixed_pool(results: &[u8], sides: u8) -> Pool {
    let dice: Vec<Die> = results.iter().map(|&r| Die { sides, result: r }).collect();
    Pool::from_dice(results.len() as u8, sides, dice).unwrap()
}

#[test]
fn new_pool_has_requested_shape() {
    for &(n, s) in [(1u8, 1u8), (5, 6), (10, 2), (255, 255), (0, 3)].iter() {
        let pool = Pool::new(n, s);
        assert_eq!(pool.dice().len(), n as usize);
        assert_eq!(pool.number(), n);
        assert_eq!(pool.sides(), s);
        for die in pool.dice().iter() {
            assert_eq!(die.sides, s);
            assert!(1 <= die.result && die.result <= s);
        }
    }
}

#[test]
fn total_is_sum_of_faces() {
    let pool = fixed_pool(&[5, 3, 1, 6], 6);
    assert_eq!(pool.total(), 15);
    let empty = fixed_pool(&[], 6);
    assert_eq!(empty.total(), 0);
}

#[test]
fn keep_highest_and_lowest_partition_sorted_pool() {
    let pool = fixed_pool(&[5, 3, 1, 6, 3], 6);
    let high = pool.keep_highest(2);
    let low = pool.keep_lowest(3);
    let high_faces: Vec<u8> = high.dice().iter().map(|d| d.result).collect();
    let low_faces: Vec<u8> = low.dice().iter().map(|d| d.result).collect();
    assert_eq!(high_faces, vec![5, 6]);
    assert_eq!(low_faces, vec![1, 3, 3]);
    // Together they are exactly the sorted pool, with no overlap.
    let mut joined = low_faces.clone();
    joined.extend(high_faces.iter());
    assert_eq!(joined, vec![1, 3, 3, 5, 6]);
}

#[test]
fn keep_beyond_pool_size_keeps_everything() {
    let pool = fixed_pool(&[2, 4], 6);
    assert_eq!(pool.keep_highest(10).dice().len(), 2);
    assert_eq!(pool.keep_lowest(10).dice().len(), 2);
}

#[test]
fn keep_exact_filters_matching_faces() {
    let pool = fixed_pool(&[2, 4, 2, 6], 6);
    let kept = pool.keep_exact(&vec![2, 6]);
    let faces: Vec<u8> = kept.dice().iter().map(|d| d.result).collect();
    assert_eq!(faces, vec![2, 2, 6]);
}

#[test]
fn counting_over_and_under() {
    let pool = fixed_pool(&[1, 3, 6, 7, 10], 10);
    assert_eq!(pool.count_dice_over(7), 2);
    assert_eq!(pool.count_dice_under(3), 2);
    let tns = vec![0, 0, 0, 0, 0, 0, 1, 1, 1, 2];
    assert_eq!(pool.count_successes(&tns), 3);
}

#[test]
fn cap_operations_clamp_faces() {
    let pool = fixed_pool(&[1, 4, 6], 6);
    let capped: Vec<u8> = pool.cap_max(4).dice().iter().map(|d| d.result).collect();
    assert_eq!(capped, vec![1, 4, 4]);
    let raised: Vec<u8> = pool.cap_min(3).dice().iter().map(|d| d.result).collect();
    assert_eq!(raised, vec![3, 4, 6]);
}

#[test]
fn add_concatenates_pools() {
    let a = fixed_pool(&[1, 2], 6);
    let b = fixed_pool(&[5], 8);
    let merged = a.add(&b);
    let faces: Vec<u8> = merged.dice().iter().map(|d| d.result).collect();
    assert_eq!(faces, vec![1, 2, 5]);
    assert_eq!(merged.sides(), 8);
}

#[test]
fn reroll_once_touches_only_matching_dice() {
    // One-sided dice keep landing on 1, so the outcome is deterministic.
    let pool = fixed_pool(&[1, 1, 1], 1);
    let (outcome, rerolls) = pool.rerolled_once(&vec![1]);
    assert_eq!(outcome.dice().len(), 3);
    // Exactly one fresh draw per matching die, never a second one.
    assert_eq!(rerolls.dice().len(), 3);
    for die in outcome.dice().iter() {
        assert_eq!(die.result, 1);
    }
    // Dice that do not match stay untouched.
    let mixed = fixed_pool(&[2, 5], 6);
    let (outcome2, rerolls2) = mixed.rerolled_once(&vec![1]);
    let faces: Vec<u8> = outcome2.dice().iter().map(|d| d.result).collect();
    assert_eq!(faces, vec![2, 5]);
    assert_eq!(rerolls2.dice().len(), 0);
}

#[test]
fn reroll_mutating_primitives_stay_in_range() {
    let mut pool = Pool::new(4, 6);
    pool.reroll_all();
    assert_eq!(pool.dice().len(), 4);
    for die in pool.dice().iter() {
        assert!(1 <= die.result && die.result <= 6);
    }
    pool.reroll_n(3);
    for die in pool.dice().iter() {
        assert!(1 <= die.result && die.result <= 6);
    }
}

#[test]
fn explode_recursive_stops_at_pool_bound() {
    // Every die always lands on its only face, which always matches: the
    // explosion must still stop, at the 255-dice bound.
    let pool = fixed_pool(&[1, 1, 1], 1);
    let gens = pool.explode_n(1, true).unwrap();
    assert!(gens.len() <= 256);
    let total: usize = gens.iter().map(|p| p.dice().len()).sum();
    assert_eq!(total, 255);
    assert_eq!(gens[0].dice().len(), 3);
}

#[test]
fn explode_once_adds_at_most_one_generation() {
    let pool = fixed_pool(&[1, 1], 1);
    let gens = pool.explode_n(1, false).unwrap();
    assert_eq!(gens.len(), 2);
    assert_eq!(gens[1].dice().len(), 2);
    let quiet = fixed_pool(&[2, 3], 6);
    let none = quiet.explode_n(1, false).unwrap();
    assert_eq!(none.len(), 1);
}

#[test]
fn explode_additive_accumulates_per_die() {
    // With one-sided dice every extra roll matches, so the first die keeps
    // adding 1 until its face value saturates, then the chain stops.
    let pool = fixed_pool(&[1, 1, 1], 1);
    let gens = pool.explode_n_additive(1, true).unwrap();
    assert_eq!(gens.len(), 3);
    let finals: Vec<u8> = gens[2].dice().iter().map(|d| d.result).collect();
    assert_eq!(finals, vec![255, 2, 1]);
    assert_eq!(gens[1].dice().len(), 255);
}

#[test]
fn explode_specific_matches_listed_faces() {
    let pool = fixed_pool(&[1, 1], 1);
    let gens = pool.explode_specific(&vec![1], false).unwrap();
    assert_eq!(gens.len(), 2);
    let quiet = pool.explode_specific(&vec![2], false).unwrap();
    assert_eq!(quiet.len(), 1);
    let additive = pool.explode_specific_additive(&vec![2], true).unwrap();
    let faces: Vec<u8> = additive[2].dice().iter().map(|d| d.result).collect();
    assert_eq!(faces, vec![1, 1]);
}
