use sixball_dice::command_translations::genesys;
use sixball_dice::die::Die;
use sixball_dice::genesymbols::GeneSymbol;
use sixball_dice::parser::resolve_command;
use sixball_dice::pool::Pool;
use sixball_dice::roll_value::RollValue;
use sixball_dice::token_kinds::GenesysDice;

#[test]
fn genroll_translates_kind_count_pairs() {
    let translated = genesys("a2 p2 d3").unwrap();
    assert_eq!(translated, "2d8ga&2d12gp&3d8gd");
}

#[test]
fn genroll_accepts_spaces_and_case() {
    assert_eq!(genesys("B2").unwrap(), "2d6gb");
    assert_eq!(genesys("s 2  c1").unwrap(), "2d6gs&1d12gc");
}

#[test]
fn genroll_rejects_stray_text() {
    assert!(genesys("x2").is_err());
    assert!(genesys("a").is_err());
    assert!(genesys("").is_err());
    assert!(genesys("a300").is_err());
}

#[test]
fn translated_command_resolves_to_a_tally() {
    let translated = genesys("a2 p2 d3").unwrap();
    let (value, operations) = resolve_command(translated.as_str()).unwrap();
    match value {
        RollValue::Genesys(_) => {},
        _ => panic!("expected a symbol tally"),
    }
    // Three dice pools, three conversions, and two merges were applied.
    assert_eq!(operations.len(), 8);
}

#[test]
fn tally_matches_per_face_tables_per_pool() {
    // Fix the faces and check the tally against the tables by hand.
    let ability_faces = [4u8, 7];
    let dice: Vec<Die> = ability_faces.iter().map(|&r| Die { sides: 8, result: r }).collect();
    let pool = Pool::from_dice(2, 8, dice).unwrap();
    let converted = GenesysDice::Ability { base: None, res: Vec::new() }
        .apply(pool)
        .unwrap();
    match converted.value().unwrap() {
        RollValue::Genesys(tally) => {
            // Face 4: two successes. Face 7: a success and an advantage.
            assert_eq!(tally.successes, 3);
            assert_eq!(tally.advantages, 1);
        },
        _ => panic!("expected a symbol tally"),
    }
}

#[test]
fn symbol_tables_per_face() {
    let d = |r| Die { sides: 12, result: r };
    assert_eq!(GeneSymbol::boost(Die { sides: 6, result: 3 }), vec![GeneSymbol::Success]);
    assert_eq!(
        GeneSymbol::boost(Die { sides: 6, result: 5 }),
        vec![GeneSymbol::Advantage, GeneSymbol::Advantage]
    );
    assert_eq!(GeneSymbol::setback(Die { sides: 6, result: 1 }), vec![]);
    assert_eq!(
        GeneSymbol::difficulty(Die { sides: 8, result: 8 }),
        vec![GeneSymbol::Failure, GeneSymbol::Threat]
    );
    assert_eq!(GeneSymbol::proficiency(d(12)), vec![GeneSymbol::Triumph]);
    assert_eq!(GeneSymbol::challenge(d(12)), vec![GeneSymbol::Despair]);
}
