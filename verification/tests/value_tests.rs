use sixball_dice::dice_errors::{MathError, RollError};
use sixball_dice::genesymbols::GeneSymbol;
use sixball_dice::rational::Rational;
use sixball_dice::roll_value::RollValue;
use sixball_dice::value_kinds::GenesysValue;

fn tally(successes: u32, advantages: u32) -> GenesysValue {
    GenesysValue {
        successes,
        advantages,
        triumphs: 0,
        failures: 0,
        threats: 0,
        despairs: 0,
    }
}

#[test]
fn add_mismatched_kinds_fails() {
    let successes = RollValue::Successes(2);
    let symbols = RollValue::Genesys(tally(1, 1));
    assert_eq!(successes.add(symbols), Err(RollError::KindMismatchError));

    let number = RollValue::Numeric(Rational::from_int(3));
    let successes2 = RollValue::Successes(2);
    assert_eq!(number.add(successes2), Err(RollError::KindMismatchError));
}

#[test]
fn add_same_kinds_combines() {
    let a = RollValue::Numeric(Rational::from_int(3));
    let b = RollValue::Numeric(Rational::from_int(4));
    match a.add(b).unwrap() {
        RollValue::Numeric(q) => {
            assert_eq!(q.num, 7);
            assert_eq!(q.den, 1);
        },
        _ => panic!("expected a numeric value"),
    }

    let s = RollValue::Successes(2).add(RollValue::Successes(-5)).unwrap();
    assert_eq!(s, RollValue::Successes(-3));

    let g = RollValue::Genesys(tally(1, 2)).add(RollValue::Genesys(tally(2, 0))).unwrap();
    assert_eq!(g, RollValue::Genesys(tally(3, 2)));
}

#[test]
fn to_decimal_reads_numbers_and_successes() {
    let q = RollValue::Successes(-4).to_decimal().unwrap();
    assert_eq!(q.num, -4);
    assert_eq!(q.den, 1);
    assert_eq!(
        RollValue::Genesys(tally(0, 0)).to_decimal(),
        Err(RollError::KindMismatchError)
    );
}

#[test]
fn genesys_value_counts_symbols() {
    let rows = vec![
        vec![GeneSymbol::Success, GeneSymbol::Advantage],
        vec![],
        vec![GeneSymbol::Success],
        vec![GeneSymbol::Despair],
    ];
    let v = GenesysValue::new(&rows);
    assert_eq!(v.successes, 2);
    assert_eq!(v.advantages, 1);
    assert_eq!(v.despairs, 1);
    assert_eq!(v.triumphs, 0);
}

#[test]
fn rational_arithmetic_is_exact() {
    let half = Rational { num: 1, den: 2 };
    let third = Rational { num: 1, den: 3 };
    let sum = half.add(third).unwrap();
    assert_eq!(sum.num, 5);
    assert_eq!(sum.den, 6);
    let quotient = half.div(third).unwrap();
    // 1/2 over 1/3 is 3/2, possibly unreduced: compare by cross product.
    assert_eq!(quotient.num * 2, 3 * quotient.den);
    assert_eq!(
        half.div(Rational::from_int(0)),
        Err(MathError::DivisionByZero)
    );
}

#[test]
fn rational_powers() {
    let base = Rational { num: -4, den: 1 };
    let eighth = base.pow_int(8).unwrap();
    assert_eq!(eighth.num, 65536);
    assert_eq!(eighth.den, 1);
    let inverse = Rational::from_int(2).pow_int(-3).unwrap();
    assert_eq!(inverse.num * 8, inverse.den);
    assert_eq!(
        Rational::from_int(0).pow_int(-1),
        Err(MathError::DivisionByZero)
    );
}

#[test]
fn to_integer_recognizes_whole_values() {
    assert_eq!(Rational { num: 6, den: 3 }.to_integer(), Some(2));
    assert_eq!(Rational { num: -6, den: 3 }.to_integer(), Some(-2));
    assert_eq!(Rational { num: 1, den: 2 }.to_integer(), None);
}

#[test]
fn render_values() {
    assert_eq!(RollValue::Numeric(Rational::from_int(12)).render(), "12");
    assert_eq!(
        RollValue::Numeric(Rational { num: 3, den: 4 }).render(),
        "3/4"
    );
    assert_eq!(RollValue::Successes(-2).render(), "-2 success(es)");
}
