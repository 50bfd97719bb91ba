use sixball_dice::dice_errors::RollError;
use sixball_dice::rolling::{make_tray_id, TrayId, TrayMap};
use sixball_dice::tray::{contains_dice, Tray};

#[test]
fn dice_detection() {
    assert!(contains_dice("2d6+1"));
    assert!(contains_dice("roll 10D8 please"));
    assert!(!contains_dice("1+2*3"));
    assert!(!contains_dice("dd dd"));
    assert!(!contains_dice("2d"));
}

#[test]
fn plain_math_bypasses_the_history() {
    let mut tray = Tray::new();
    let reply = tray.process_roll_command("1+2").unwrap();
    assert_eq!(reply, "3");
    assert_eq!(tray.len(), 0);
}

#[test]
fn unparseable_math_reports_kindly() {
    let mut tray = Tray::new();
    let reply = tray.process_roll_command("1+").unwrap();
    assert!(reply.starts_with("I don't know how to calculate that!"));
}

#[test]
fn rolls_enter_the_history() {
    let mut tray = Tray::new();
    let reply = tray.process_roll_command("3d1").unwrap();
    assert!(reply.contains("**3**"));
    assert_eq!(tray.len(), 1);
    assert_eq!(tray.rolls()[0].command(), "3d1");
}

#[test]
fn tray_capacity_evicts_oldest_first() {
    let mut tray = Tray::with_capacity(2);
    tray.process_roll_command("1d1").unwrap();
    tray.process_roll_command("2d1").unwrap();
    tray.process_roll_command("3d1").unwrap();
    assert_eq!(tray.len(), 2);
    assert_eq!(tray.rolls()[0].command(), "2d1");
    assert_eq!(tray.rolls()[1].command(), "3d1");
}

#[test]
fn failed_commands_leave_the_history_alone() {
    let mut tray = Tray::with_capacity(2);
    tray.process_roll_command("1d1").unwrap();
    assert!(tray.process_roll_command("2d0").is_err());
    assert_eq!(tray.len(), 1);
    assert_eq!(tray.rolls()[0].command(), "1d1");
}

#[test]
fn newest_roll_retrieval() {
    let mut tray = Tray::new();
    assert!(matches!(
        tray.get_newest_roll(),
        Err(RollError::RetrieveError)
    ));
    tray.process_roll_command("2d1").unwrap();
    assert_eq!(tray.get_newest_roll().unwrap().command(), "2d1");
}

#[test]
fn reroll_latest_replaces_in_place() {
    let mut tray = Tray::new();
    assert!(matches!(
        tray.reroll_latest(),
        Err(RollError::RetrieveError)
    ));
    tray.process_roll_command("4d1").unwrap();
    let rerolled = tray.reroll_latest().unwrap();
    assert_eq!(rerolled, "4");
    assert_eq!(tray.len(), 1);
    assert_eq!(tray.rolls()[0].command(), "4d1");
}

#[test]
fn tray_map_keeps_conversations_apart() {
    let mut map = TrayMap::new();
    let private = make_tray_id(true, 7, None);
    let guild = make_tray_id(false, 7, Some(9));
    map.process(private, "2d1").unwrap();
    map.process(guild, "3d1").unwrap();
    let private_tray = map.get_tray(&private).unwrap();
    assert_eq!(private_tray.rolls()[0].command(), "2d1");
    let guild_tray = map.get_tray(&guild).unwrap();
    assert_eq!(guild_tray.rolls()[0].command(), "3d1");
    assert!(map.get_tray(&make_tray_id(false, 0, None)).is_none());
}

#[test]
fn tray_id_identities() {
    assert_eq!(make_tray_id(true, 1, Some(2)), TrayId::Private(1));
    assert_eq!(make_tray_id(false, 1, Some(2)), TrayId::Guild(Some(2)));
    assert_ne!(TrayId::Private(1), TrayId::Private(2));
}
