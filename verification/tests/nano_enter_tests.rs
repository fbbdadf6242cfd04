use rusty_fusion::chunk::{ChunkCoords, EntityMap, InstanceID, TickMode};
use rusty_fusion::enter::{enter_channel, EnterBegin, EnterRefusal, EnteringPlayers, LoadOutcome};
use rusty_fusion::entity::EntityID;
use rusty_fusion::login::ban_announcement;
use rusty_fusion::nano::{nano_skill_decision, NanoSkillInfo, NanoSkillPlan, NanoSkillRefusal, SkillInfo};

fn nano(stamina: i16, cost: i16, targeting: bool) -> Option<NanoSkillInfo> {
    Some(NanoSkillInfo { stamina, skill: Some(SkillInfo { cost, has_targeting_type: targeting }), max_targets: 4 })
}

#[test]
fn nano_skill_refusals() {
    assert_eq!(nano_skill_decision(None, 1), Err(NanoSkillRefusal::NoActiveNano));
    let no_skill = Some(NanoSkillInfo { stamina: 50, skill: None, max_targets: 4 });
    assert_eq!(nano_skill_decision(no_skill, 1), Err(NanoSkillRefusal::NoSkill));
    assert_eq!(nano_skill_decision(nano(5, 10, true), 1), Err(NanoSkillRefusal::NotEnoughStamina { needed: 10, available: 5 }));
    assert_eq!(nano_skill_decision(nano(50, 10, false), 2), Err(NanoSkillRefusal::NoTargetingType));
}

#[test]
fn nano_skill_plans() {
    assert_eq!(nano_skill_decision(nano(50, 10, false), 0), Ok(NanoSkillPlan::NoTargets));
    assert_eq!(
        nano_skill_decision(nano(50, 10, true), 2),
        Ok(NanoSkillPlan::Use { targets: 2, new_stamina: 40, deactivates: false })
    );
    assert_eq!(
        nano_skill_decision(nano(10, 10, true), 9),
        Ok(NanoSkillPlan::Use { targets: 4, new_stamina: 0, deactivates: true })
    );
}

#[test]
fn nano_skill_inputs_that_subtract_nothing() {
    assert_eq!(
        nano_skill_decision(nano(i16::MIN, 1, true), 1),
        Err(NanoSkillRefusal::NotEnoughStamina { needed: 1, available: i16::MIN })
    );
    assert_eq!(nano_skill_decision(nano(i16::MAX, -5, true), 0), Ok(NanoSkillPlan::NoTargets));
    assert_eq!(nano_skill_decision(nano(i16::MAX, -5, false), 3), Err(NanoSkillRefusal::NoTargetingType));
}

#[test]
fn channel_given_with_no_channels() {
    let map = EntityMap::new(1, 0);
    assert_eq!(map.num_channels(), 0);
    assert_eq!(enter_channel(2, &map), 2);
}

#[test]
fn entering_players() {
    let mut e = EnteringPlayers::new();
    assert_eq!(e.begin(false, 7, None), EnterBegin::Refuse(EnterRefusal::LoginDataMissing));
    assert_eq!(e.begin(true, 7, None), EnterBegin::LoadFromDatabase);
    assert_eq!(e.begin(true, 7, None), EnterBegin::Refuse(EnterRefusal::AlreadyEntering));
    assert_eq!(e.begin(true, 8, Some(3)), EnterBegin::KickExisting(3));
    assert_eq!(e.finish(7, LoadOutcome::NotFound), Err(EnterRefusal::PlayerNotFound));
    assert_eq!(e.begin(true, 7, None), EnterBegin::LoadFromDatabase);
    assert_eq!(e.finish(7, LoadOutcome::Failed), Err(EnterRefusal::LoadFailed));
    assert_eq!(e.finish(8, LoadOutcome::Found), Ok(()));
    assert_eq!(e.begin(true, 8, None), EnterBegin::LoadFromDatabase);
}

#[test]
fn channel_on_entering() {
    let mut map = EntityMap::new(1, 3);
    let ch1 = InstanceID { channel_num: 1, map_num: 0, instance_num: None };
    map.track(EntityID::Player(1), TickMode::WhenLoaded);
    map.update(EntityID::Player(1), Some(ChunkCoords { i: ch1, x: 5, y: 5 }));
    assert_eq!(enter_channel(3, &map), 3);
    assert_eq!(enter_channel(0, &map), 2);
}

#[test]
fn bans() {
    assert_eq!(ban_announcement(100, 100, "0s", "x"), None);
    assert_eq!(
        ban_announcement(200, 100, "1m 40s", "cheating").as_deref(),
        Some("You are banned for 1m 40s.\nReason: cheating")
    );
}
