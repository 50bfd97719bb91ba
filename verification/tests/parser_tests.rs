use sixball_dice::dice_errors::RollError;
use sixball_dice::parser::resolve_command;
use sixball_dice::roll_value::RollValue;

fn numeric(value: &RollValue) -> (i128, i128) {
    match value {
        RollValue::Numeric(q) => (q.num, q.den),
        _ => panic!("expected a numeric value"),
    }
}

#[test]
fn dice_and_math_mix() {
    // One-sided dice make the outcome deterministic.
    let (value, operations) = resolve_command("2d1+5").unwrap();
    let (num, den) = numeric(&value);
    assert_eq!(num, 7 * den);
    assert_eq!(operations.len(), 1);
}

#[test]
fn keep_binds_tighter_than_math() {
    let (value, _) = resolve_command("3d1kh2+1").unwrap();
    let (num, den) = numeric(&value);
    assert_eq!(num, 3 * den);
}

#[test]
fn parens_group_subexpressions() {
    let (value, _) = resolve_command("(1d1+1)*3").unwrap();
    let (num, den) = numeric(&value);
    assert_eq!(num, 6 * den);
}

#[test]
fn target_and_botch_chain() {
    let (value, _) = resolve_command("2d1t1").unwrap();
    assert_eq!(value, RollValue::Successes(2));
    let (chained, _) = resolve_command("2d1t1b1").unwrap();
    assert_eq!(chained, RollValue::Successes(0));
}

#[test]
fn merge_combines_expressions() {
    let (value, _) = resolve_command("1d1&2d1").unwrap();
    let (num, den) = numeric(&value);
    assert_eq!(num, 3 * den);
}

#[test]
fn merged_pools_share_a_modifier() {
    let (value, _) = resolve_command("2d1&3d1kh2").unwrap();
    let (num, den) = numeric(&value);
    // The keep applies to the merged five dice, keeping two.
    assert_eq!(num, 2 * den);
}

#[test]
fn pure_math_resolves_too() {
    let (value, operations) = resolve_command("3+4*2/(1-5)^2^3").unwrap();
    let (num, den) = numeric(&value);
    assert_eq!(num * 8192, 24577 * den);
    assert_eq!(operations.len(), 0);
}

#[test]
fn explode_through_the_grammar() {
    let (value, _) = resolve_command("2d1e1").unwrap();
    let (num, den) = numeric(&value);
    // Two base dice, capped explosion: 255 dice showing 1... the once
    // variant adds one generation of two dice.
    assert_eq!(num, 4 * den);
}

#[test]
fn genesys_tokens_convert_pools() {
    let (value, _) = resolve_command("2d1ga").unwrap();
    match value {
        RollValue::Genesys(_) => {},
        _ => panic!("expected a symbol tally"),
    }
}

#[test]
fn parser_rejects_bad_input() {
    assert!(matches!(
        resolve_command("2d0"),
        Err(RollError::ArgumentError)
    ));
    assert!(matches!(
        resolve_command("hello!"),
        Err(RollError::SymbolError(_))
    ));
    assert!(matches!(
        resolve_command("(1d6"),
        Err(RollError::MalformedExpressionError)
    ));
    assert!(matches!(
        resolve_command("2d6kh[1,2]"),
        Err(RollError::ArgumentError)
    ));
    assert!(matches!(
        resolve_command("1/0"),
        Err(RollError::Math(_))
    ));
}

#[test]
fn keep_with_array_of_one_value_is_accepted() {
    let (value, _) = resolve_command("3d1kh[2]").unwrap();
    let (num, den) = numeric(&value);
    assert_eq!(num, 2 * den);
}

#[test]
fn keep_exact_through_grammar() {
    let (value, _) = resolve_command("3d1ke[1]").unwrap();
    let (num, den) = numeric(&value);
    assert_eq!(num, 3 * den);
}
