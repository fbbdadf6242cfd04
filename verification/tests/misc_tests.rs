use rusty_fusion::ai::{get_script_name, make_for_npc, CombatantTeam, NpcAiInfo};
use rusty_fusion::chunk::TickMode;
use rusty_fusion::entity::EntityID;
use rusty_fusion::text::{find_char, split_once_char, strip_prefix_str, trim_start_matches_char};
use rusty_fusion::trade::{trade_offer_cancel, trade_offer_refusal, TradeOfferIds};

fn npc(is_combatant: bool, team: CombatantTeam, tight_follow: bool, has_path: bool, ai_type: i32) -> NpcAiInfo {
    NpcAiInfo { is_combatant, team, tight_follow, has_path, ai_type }
}

#[test]
fn scripts_by_team() {
    assert_eq!(get_script_name(&npc(true, CombatantTeam::Friendly, false, false, 1)), Some("friendly_combatant"));
    assert_eq!(get_script_name(&npc(true, CombatantTeam::Mob, true, false, 1)), Some("mob_pack_member"));
    assert_eq!(get_script_name(&npc(true, CombatantTeam::Mob, false, false, 1)), Some("mob"));
    assert_eq!(get_script_name(&npc(true, CombatantTeam::Other, false, false, 1)), None);
    assert_eq!(get_script_name(&npc(false, CombatantTeam::Mob, false, false, 1)), None);
}

#[test]
fn idle_npc_never_ticks() {
    let (name, mode) = make_for_npc(&npc(true, CombatantTeam::Mob, false, false, 0), false);
    assert!(name.is_none());
    assert!(matches!(mode, TickMode::Never));
}

#[test]
fn forced_or_pathed_npcs_get_behavior() {
    let (name, mode) = make_for_npc(&npc(true, CombatantTeam::Mob, false, false, 0), true);
    assert_eq!(name.as_deref(), Some("mob"));
    assert!(matches!(mode, TickMode::WhenLoaded));
    let (name, mode) = make_for_npc(&npc(false, CombatantTeam::Friendly, false, true, 0), false);
    assert!(name.is_none());
    assert!(matches!(mode, TickMode::Always));
    let (name, mode) = make_for_npc(&npc(true, CombatantTeam::Friendly, false, false, 3), false);
    assert_eq!(name.as_deref(), Some("friendly_combatant"));
    assert!(matches!(mode, TickMode::WhenLoaded));
}

#[test]
fn trade_replies_go_back_to_the_offerer() {
    let req = TradeOfferIds { id_request: 7, id_from: 11, id_to: 12 };
    let (resp, to) = trade_offer_refusal(req);
    assert_eq!(resp, req);
    assert_eq!(to, 11);
    let (resp, to) = trade_offer_cancel(req);
    assert_eq!(resp, req);
    assert_eq!(to, 11);
}

#[test]
fn text_helpers() {
    assert_eq!(find_char("a.b.c", '.'), Some(1));
    assert_eq!(find_char("abc", '.'), None);
    assert_eq!(split_once_char("k=v=w", '='), Some(("k", "v=w")));
    assert_eq!(split_once_char("kv", '='), None);
    assert_eq!(trim_start_matches_char("--x-", '-'), "x-");
    assert_eq!(strip_prefix_str("config=a", "config="), Some("a"));
    assert_eq!(strip_prefix_str("conf", "config="), None);
    assert_eq!(find_char("é.x", '.'), Some(1));
}

#[test]
fn entity_debug_text() {
    assert_eq!(EntityID::Player(5).debug_string(), "Player(5)");
    assert_eq!(EntityID::NPC(-3).debug_string(), "NPC(-3)");
    assert_eq!(EntityID::Slider(0).debug_string(), "Slider(0)");
    assert_eq!(EntityID::Egg(12).debug_string(), "Egg(12)");
    assert_eq!(format!("{:?}", EntityID::Egg(12)), EntityID::Egg(12).debug_string());
    assert!(EntityID::Player(1).is_player());
    assert!(!EntityID::NPC(1).is_player());
}
