use rusty_fusion::perms::{
    parse_pc_id, perms_decision, perms_reply, perms_target, perms_usage, PermsOutcome, PermsTarget,
};

fn words(v: &[&str]) -> Vec<String> {
    v.iter().map(|s| s.to_string()).collect()
}

#[test]
fn pc_ids() {
    assert_eq!(parse_pc_id("."), Ok(None));
    assert_eq!(parse_pc_id("42"), Ok(Some(42)));
    assert_eq!(parse_pc_id("-7"), Ok(Some(-7)));
    assert_eq!(parse_pc_id("+7"), Ok(Some(7)));
    assert_eq!(parse_pc_id("x"), Err(()));
    assert_eq!(parse_pc_id(".."), Err(()));
    assert_eq!(parse_pc_id("2147483648"), Err(()));
}

#[test]
fn targets() {
    assert_eq!(perms_target(&words(&["perms"]), 5), PermsTarget::Usage);
    assert_eq!(perms_target(&words(&["perms", "."]), 5), PermsTarget::Player(5));
    assert_eq!(perms_target(&words(&["perms", "9", "30"]), 5), PermsTarget::Player(9));
    assert_eq!(perms_target(&words(&["perms", "nine"]), 5), PermsTarget::InvalidPlayerId);
    assert!(perms_usage().starts_with("Usage: /perms <pc_id>"));
}

#[test]
fn decisions() {
    let t = |w: &[&str], own_id: i32, own: i16, target: i32, target_perms: i16| {
        perms_decision(&words(w), own_id, own, target, target_perms)
    };
    assert_eq!(t(&["perms", "9"], 1, 10, 9, 50), PermsOutcome::ShowLevel);
    assert_eq!(t(&["perms", "9", "abc"], 1, 10, 9, 50), PermsOutcome::InvalidLevel);
    assert_eq!(t(&["perms", "9", "40000"], 1, 10, 9, 50), PermsOutcome::InvalidLevel);
    assert_eq!(t(&["perms", "9", "0"], 1, 10, 9, 50), PermsOutcome::OutOfRange);
    assert_eq!(t(&["perms", "9", "100"], 1, 10, 9, 50), PermsOutcome::OutOfRange);
    assert_eq!(t(&["perms", "9", "10"], 1, 10, 9, 50), PermsOutcome::NotWeaker);
    assert_eq!(t(&["perms", "9", "5"], 1, 10, 9, 50), PermsOutcome::NotWeaker);
    assert_eq!(t(&["perms", "9", "30"], 1, 10, 9, 10), PermsOutcome::TargetNotWeaker);
    assert_eq!(t(&["perms", "9", "30"], 1, 10, 9, 50), PermsOutcome::Change { new_perms: 30, save: false });
    assert_eq!(t(&["perms", ".", "30", "save"], 1, 10, 1, 10), PermsOutcome::Change { new_perms: 30, save: true });
    assert_eq!(t(&["perms", ".", "30", "keep"], 1, 10, 1, 10), PermsOutcome::Change { new_perms: 30, save: false });
}

#[test]
fn replies() {
    assert_eq!(perms_reply(PermsOutcome::InvalidLevel, 10).as_deref(), Some("Invalid permissions level"));
    assert_eq!(perms_reply(PermsOutcome::OutOfRange, 10).as_deref(), Some("Permissions level out of range [1, 99]"));
    assert_eq!(
        perms_reply(PermsOutcome::NotWeaker, 10).as_deref(),
        Some("Can only grant weaker permissions than your own (> 10)")
    );
    assert_eq!(
        perms_reply(PermsOutcome::TargetNotWeaker, 3).as_deref(),
        Some("Can only change the permissions of a player with weaker ones than your own (> 3)")
    );
    assert!(perms_reply(PermsOutcome::ShowLevel, 3).is_none());
    assert!(perms_reply(PermsOutcome::Change { new_perms: 4, save: false }, 3).is_none());
}
