use rusty_fusion::mission::{
    task_end_check, task_start_check, EscortCheck, NpcCheck, QuestItemNeed, TaskEndFacts,
    TaskEndRefusal, TaskEndVerdict, TaskStartFacts, TaskStartRefusal,
};

fn start_ok() -> TaskStartFacts {
    TaskStartFacts {
        giver: Some(NpcCheck { required_type: 10, actual_type: 10, near: true }),
        min_level: Some(3),
        level: 5,
        guide: Some((1, 1)),
        nanos: vec![(4, true)],
        mission_id: 77,
        mission_completed: false,
        prereq_missions: vec![(70, true), (71, true)],
        map: Some((0, 0)),
        previous_task_done: true,
        escort: Some(EscortCheck { required_type: 8, actual_type: 8, same_instance: true, has_path: true, near: true }),
    }
}

#[test]
fn task_starts_when_every_prerequisite_holds() {
    assert_eq!(task_start_check(&start_ok()), None);
    let mut f = start_ok();
    f.giver = None;
    f.min_level = None;
    f.guide = None;
    f.map = None;
    f.escort = None;
    f.nanos.clear();
    f.prereq_missions.clear();
    assert_eq!(task_start_check(&f), None);
}

#[test]
fn task_start_reports_the_first_failure() {
    let mut f = start_ok();
    f.giver = Some(NpcCheck { required_type: 10, actual_type: 11, near: false });
    f.level = 1;
    assert_eq!(task_start_check(&f), Some(TaskStartRefusal::WrongGiverType { actual: 11, required: 10 }));
    f.giver = Some(NpcCheck { required_type: 10, actual_type: 10, near: false });
    assert_eq!(task_start_check(&f), Some(TaskStartRefusal::GiverTooFar));
    f.giver = None;
    assert_eq!(task_start_check(&f), Some(TaskStartRefusal::LevelTooLow { level: 1, min: 3 }));
    f.level = 3;
    f.guide = Some((1, 2));
    assert_eq!(task_start_check(&f), Some(TaskStartRefusal::WrongGuide { actual: 2, required: 1 }));
    f.guide = None;
    f.nanos = vec![(4, true), (5, false), (6, false)];
    assert_eq!(task_start_check(&f), Some(TaskStartRefusal::MissingNano(5)));
    f.nanos.clear();
    f.mission_completed = true;
    assert_eq!(task_start_check(&f), Some(TaskStartRefusal::MissionCompleted(77)));
    f.mission_completed = false;
    f.prereq_missions = vec![(70, true), (71, false)];
    assert_eq!(task_start_check(&f), Some(TaskStartRefusal::MissingPrereqMission(71)));
    f.prereq_missions.clear();
    f.map = Some((4, 9));
    assert_eq!(task_start_check(&f), Some(TaskStartRefusal::WrongMap { actual_map: 9, required_map: 4 }));
    f.map = None;
    f.previous_task_done = false;
    assert_eq!(task_start_check(&f), Some(TaskStartRefusal::PreviousTaskNotDone));
    f.previous_task_done = true;
    f.escort = Some(EscortCheck { required_type: 8, actual_type: 9, same_instance: false, has_path: false, near: false });
    assert_eq!(task_start_check(&f), Some(TaskStartRefusal::EscortInOtherInstance));
    f.escort = Some(EscortCheck { required_type: 8, actual_type: 9, same_instance: true, has_path: false, near: false });
    assert_eq!(task_start_check(&f), Some(TaskStartRefusal::WrongEscortType { actual: 9, required: 8 }));
    f.escort = Some(EscortCheck { required_type: 8, actual_type: 8, same_instance: true, has_path: false, near: false });
    assert_eq!(task_start_check(&f), Some(TaskStartRefusal::EscortHasNoPath));
    f.escort = Some(EscortCheck { required_type: 8, actual_type: 8, same_instance: true, has_path: true, near: false });
    assert_eq!(task_start_check(&f), Some(TaskStartRefusal::EscortTooFar));
}

fn end_ok() -> TaskEndFacts {
    TaskEndFacts {
        active: true,
        failed: false,
        objective: Some(NpcCheck { required_type: 3, actual_type: 3, near: true }),
        quest_items: vec![QuestItemNeed { id: 1, needed: 2, held: 2 }],
        enemies_left: vec![(9, 0)],
        escort: Some((44, true)),
        too_late: false,
        reward_items: Some((2, 2)),
    }
}

#[test]
fn task_ends_when_every_objective_is_met() {
    assert_eq!(task_end_check(&end_ok()), TaskEndVerdict::Complete);
}

#[test]
fn task_end_reports_the_first_unmet_objective() {
    let mut f = end_ok();
    f.active = false;
    f.failed = true;
    assert_eq!(task_end_check(&f), TaskEndVerdict::Refuse(TaskEndRefusal::NotActive));
    f.active = true;
    assert_eq!(task_end_check(&f), TaskEndVerdict::Ignore);
    f.failed = false;
    f.objective = Some(NpcCheck { required_type: 3, actual_type: 4, near: false });
    assert_eq!(task_end_check(&f), TaskEndVerdict::Refuse(TaskEndRefusal::WrongObjectiveType { actual: 4, required: 3 }));
    f.objective = Some(NpcCheck { required_type: 3, actual_type: 3, near: false });
    assert_eq!(task_end_check(&f), TaskEndVerdict::Refuse(TaskEndRefusal::ObjectiveTooFar));
    f.objective = None;
    f.quest_items = vec![QuestItemNeed { id: 1, needed: 2, held: 2 }, QuestItemNeed { id: 5, needed: 3, held: 1 }];
    assert_eq!(task_end_check(&f), TaskEndVerdict::Refuse(TaskEndRefusal::MissingQuestItem { id: 5, held: 1, needed: 3 }));
    f.quest_items.clear();
    f.enemies_left = vec![(9, 0), (10, 2)];
    assert_eq!(task_end_check(&f), TaskEndVerdict::Refuse(TaskEndRefusal::EnemiesLeft { id: 10, left: 2 }));
    f.enemies_left.clear();
    f.escort = Some((44, false));
    assert_eq!(task_end_check(&f), TaskEndVerdict::Refuse(TaskEndRefusal::EscortNotArrived(44)));
    f.escort = None;
    f.too_late = true;
    assert_eq!(task_end_check(&f), TaskEndVerdict::Refuse(TaskEndRefusal::TooLate));
    f.too_late = false;
    f.reward_items = Some((3, 2));
    assert_eq!(task_end_check(&f), TaskEndVerdict::Refuse(TaskEndRefusal::InventoryFull { items: 3, free: 2 }));
    f.reward_items = None;
    assert_eq!(task_end_check(&f), TaskEndVerdict::Complete);
}
