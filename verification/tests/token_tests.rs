use sixball_dice::dice_errors::RollError;
use sixball_dice::die::Die;
use sixball_dice::pool::Pool;
use sixball_dice::roll_token::RollToken;
use sixball_dice::roll_value::RollValue;
use sixball_dice::token_kinds::{Argument, Cap, Dice, Explode, GenesysDice, Keep, Merge, Reroll,
    Target};

fn fixed_pool(results: &[u8], sides: u8) -> Pool {
    let dice: Vec<Die> = results.iter().map(|&r| Die { sides, result: r }).collect();
    Pool::from_dice(results.len() as u8, sides, dice).unwrap()
}

fn dice_token(results: &[u8], sides: u8) -> RollToken {
    RollToken::Dice(Dice { pool: Some(fixed_pool(results, sides)) })
}

#[test]
fn dice_apply_single_single() {
    let blank = Dice { pool: None };
    let dice = blank
        .apply(Argument::Single(4), Argument::Single(6))
        .unwrap();
    let pool = dice.pool().unwrap();
    assert_eq!(pool.dice().len(), 4);
    for d in pool.dice().iter() {
        assert_eq!(d.sides, 6);
        assert!(1 <= d.result && d.result <= 6);
    }
}

#[test]
fn dice_apply_rejects_zero_sides() {
    let blank = Dice { pool: None };
    assert!(matches!(
        blank.apply(Argument::Single(2), Argument::Single(0)),
        Err(RollError::ArgumentError)
    ));
}

#[test]
fn dice_apply_array_forms() {
    let blank = Dice { pool: None };
    let one = blank
        .apply(Argument::Single(2), Argument::Array(vec![6, 8]))
        .unwrap();
    let pool = one.pool().unwrap();
    assert_eq!(pool.dice().len(), 4);
    assert_eq!(pool.dice()[0].sides, 6);
    assert_eq!(pool.dice()[2].sides, 8);

    let two = blank
        .apply(Argument::Array(vec![1, 3]), Argument::Single(4))
        .unwrap();
    assert_eq!(two.pool().unwrap().dice().len(), 4);

    let three = blank
        .apply(Argument::Array(vec![2, 1]), Argument::Array(vec![6, 20]))
        .unwrap();
    let p3 = three.pool().unwrap();
    assert_eq!(p3.dice().len(), 3);
    assert_eq!(p3.dice()[0].sides, 6);
    assert_eq!(p3.dice()[2].sides, 20);
}

#[test]
fn unresolved_dice_has_no_pool() {
    let blank = Dice { pool: None };
    assert!(matches!(blank.pool(), Err(RollError::MissingPoolError)));
}

#[test]
fn keep_high_low_exact() {
    let keep = Keep::High { arg: None, res: None };
    let applied = keep
        .apply(fixed_pool(&[5, 1, 3], 6), Argument::Single(2))
        .unwrap();
    let faces: Vec<u8> = applied
        .pool()
        .unwrap()
        .dice()
        .iter()
        .map(|d| d.result)
        .collect();
    assert_eq!(faces, vec![3, 5]);

    let low = Keep::Low { arg: None, res: None };
    let applied_low = low
        .apply(fixed_pool(&[5, 1, 3], 6), Argument::Single(1))
        .unwrap();
    assert_eq!(applied_low.pool().unwrap().dice()[0].result, 1);

    let high_with_list = Keep::High { arg: None, res: None };
    assert!(matches!(
        high_with_list.apply(fixed_pool(&[5, 1], 6), Argument::Array(vec![1, 2])),
        Err(RollError::ArgumentError)
    ));

    let exact = Keep::Exact { arg: None, res: None };
    let kept = exact
        .apply(fixed_pool(&[2, 4, 2], 6), Argument::Single(2))
        .unwrap();
    assert_eq!(kept.pool().unwrap().dice().len(), 2);
}

#[test]
fn target_counts_successes_over_threshold() {
    let target = Target::Success { arg: None, pool: None, sux: 0 };
    let applied = target
        .apply(dice_token(&[1, 3, 6, 7, 10], 10), Argument::Single(7))
        .unwrap();
    assert_eq!(applied.value(), RollValue::Successes(2));
}

#[test]
fn botch_subtracts_successes_under_threshold() {
    let botch = Target::Botch { arg: None, pool: None, sux: 0 };
    let applied = botch
        .apply(dice_token(&[1, 3, 6, 7, 10], 10), Argument::Single(3))
        .unwrap();
    assert_eq!(applied.value(), RollValue::Successes(-2));
}

#[test]
fn target_and_botch_compose_additively() {
    let target = Target::Success { arg: None, pool: None, sux: 0 };
    let first = target
        .apply(dice_token(&[1, 3, 6, 7, 10], 10), Argument::Single(7))
        .unwrap();
    let botch = Target::Botch { arg: None, pool: None, sux: 0 };
    let chained = botch
        .apply(
            RollToken::Operator(sixball_dice::token_kinds::Operator::Target(first)),
            Argument::Single(1),
        )
        .unwrap();
    // Two successes from before, minus the one die showing 1.
    assert_eq!(chained.value(), RollValue::Successes(1));
}

#[test]
fn target_array_aligns_to_highest_faces() {
    // Table [1, 2] on ten-sided dice: face 9 is worth 1, face 10 worth 2.
    let target = Target::Success { arg: None, pool: None, sux: 0 };
    let applied = target
        .apply(dice_token(&[1, 9, 10], 10), Argument::Array(vec![1, 2]))
        .unwrap();
    assert_eq!(applied.value(), RollValue::Successes(3));
}

#[test]
fn botch_array_aligns_to_lowest_faces() {
    let botch = Target::Botch { arg: None, pool: None, sux: 0 };
    let applied = botch
        .apply(dice_token(&[1, 2, 9], 10), Argument::Array(vec![2, 1]))
        .unwrap();
    // Face 1 is worth 2, face 2 worth 1, face 9 nothing: minus three.
    assert_eq!(applied.value(), RollValue::Successes(-3));
}

#[test]
fn reroll_once_never_rerolls_twice() {
    // One-sided dice always land on the matching face again; a single
    // fresh draw per die is recorded and the result kept unconditionally.
    let reroll = Reroll::Once { arg: None, res: None, rerolls: None };
    let applied = reroll
        .apply(fixed_pool(&[1, 1, 1], 1), Argument::Single(1))
        .unwrap();
    match &applied {
        Reroll::Once { res, rerolls, .. } => {
            assert_eq!(res.as_ref().unwrap().dice().len(), 3);
            assert_eq!(rerolls.as_ref().unwrap().dice().len(), 3);
        },
        _ => panic!("expected a once-reroll"),
    }
}

#[test]
fn reroll_better_never_lowers_a_face() {
    let reroll = Reroll::Better { arg: None, res: None, rerolls: None };
    let applied = reroll
        .apply(fixed_pool(&[3, 3], 6), Argument::Single(3))
        .unwrap();
    match &applied {
        Reroll::Better { res, .. } => {
            for d in res.as_ref().unwrap().dice().iter() {
                assert!(d.result >= 3);
            }
        },
        _ => panic!("expected a better-reroll"),
    }
}

#[test]
fn explode_once_and_fbomb() {
    let explode = Explode::Once { arg: None, res: Vec::new() };
    let applied = explode
        .apply(fixed_pool(&[1, 1], 1), Argument::Single(1))
        .unwrap();
    let pool = applied.pool().unwrap();
    assert_eq!(pool.dice().len(), 4);

    // Three recorded generations on a once-explosion signal an internal
    // inconsistency.
    let broken = Explode::Once {
        arg: None,
        res: vec![
            fixed_pool(&[1], 1),
            fixed_pool(&[1], 1),
            fixed_pool(&[1], 1),
        ],
    };
    assert!(matches!(broken.pool(), Err(RollError::GenerationOverflow)));
}

#[test]
fn explode_recursive_value_counts_every_generation() {
    let explode = Explode::Recursive { arg: None, res: Vec::new() };
    let applied = explode
        .apply(fixed_pool(&[1, 1, 1], 1), Argument::Single(1))
        .unwrap();
    // All dice are one-sided, so the value equals the capped dice count.
    match applied.value().unwrap() {
        RollValue::Numeric(q) => {
            assert_eq!(q.num, 255);
            assert_eq!(q.den, 1);
        },
        _ => panic!("expected a numeric value"),
    }
}

#[test]
fn cap_clamps_faces() {
    let cap = Cap::Max { arg: None, res: None };
    let applied = cap
        .apply(dice_token(&[1, 4, 6], 6), Argument::Single(4))
        .unwrap();
    let faces: Vec<u8> = applied
        .pool()
        .unwrap()
        .dice()
        .iter()
        .map(|d| d.result)
        .collect();
    assert_eq!(faces, vec![1, 4, 4]);

    let zero = Cap::Max { arg: None, res: None };
    assert!(matches!(
        zero.apply(dice_token(&[1], 6), Argument::Single(0)),
        Err(RollError::ArgumentError)
    ));
}

#[test]
fn merge_concatenates_pools_and_adds_values() {
    let merge = Merge { left: None, right: None };
    let merged = merge
        .apply(dice_token(&[2, 3], 6), dice_token(&[5], 8))
        .unwrap();
    match merged.value().unwrap() {
        RollValue::Numeric(q) => {
            // 5 + 5 as an exact fraction.
            assert_eq!(q.num, 10 * q.den);
        },
        _ => panic!("expected a numeric value"),
    }
    let pool = merged.pool().unwrap();
    assert_eq!(pool.dice().len(), 3);
}

#[test]
fn genesys_conversion_follows_the_tables() {
    let ability = GenesysDice::Ability { base: None, res: Vec::new() };
    let applied = ability.apply(fixed_pool(&[4, 8, 1], 8)).unwrap();
    match applied.value().unwrap() {
        RollValue::Genesys(tally) => {
            // Face 4 gives two successes, face 8 two advantages, face 1
            // nothing.
            assert_eq!(tally.successes, 2);
            assert_eq!(tally.advantages, 2);
            assert_eq!(tally.failures, 0);
        },
        _ => panic!("expected a symbol tally"),
    }
}
