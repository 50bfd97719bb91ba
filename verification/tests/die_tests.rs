use sixball_dice::die::Die;

#[test]
fn set_test() {
    let mut die = Die::roll(20);
    die.set(20);
    assert_eq!(Die { sides: 20, result: 20 }, die);
}

#[test]
fn test_eq() {
    let die = Die { sides: 20, result: 10 };
    assert!(die.equals(10));
}

#[test]
fn test_geq() {
    let die = Die { sides: 20, result: 15 };
    assert!(die.equal_or_greater(13));
}

#[test]
fn test_leq() {
    let die = Die { sides: 20, result: 5 };
    assert!(die.equal_or_less(8));
}

#[test]
fn test_successes() {
    let sux_map = vec![0, 0, 0, 0, 0, 0, 1, 1, 1, 2];
    let sides = 10;
    let pool = [
        Die { sides, result: 1 },
        Die { sides, result: 3 },
        Die { sides, result: 6 },
        Die { sides, result: 7 },
        Die { sides, result: 10 },
    ];

    let mut successes = 0;
    for die in pool.iter() {
        successes += die.count_successes(&sux_map);
    }

    assert_eq!(3, successes)
}

#[test]
fn roll_stays_in_range() {
    for _ in 0..50 {
        let die = Die::roll(6);
        assert_eq!(die.sides, 6);
        assert!(1 <= die.result && die.result <= 6);
    }
    let one_sided = Die::roll(1);
    assert_eq!(one_sided.result, 1);
}

#[test]
fn reroll_keeps_sides() {
    let mut die = Die::roll(8);
    die.reroll();
    assert_eq!(die.sides, 8);
    assert!(1 <= die.result && die.result <= 8);
}

#[test]
fn explode_rolls_same_sides() {
    let die = Die { sides: 12, result: 12 };
    let extra = die.explode();
    assert_eq!(extra.sides, 12);
    assert!(1 <= extra.result && extra.result <= 12);
}

#[test]
fn rolls_vary_across_draws() {
    // A d20 rolled many times lands on more than one face, so a source
    // that always returned the same face would be caught here.
    let mut seen = [false; 21];
    for _ in 0..200 {
        let die = Die::roll(20);
        seen[die.result as usize] = true;
    }
    let distinct = seen.iter().filter(|&&s| s).count();
    assert!(distinct > 1);
}
