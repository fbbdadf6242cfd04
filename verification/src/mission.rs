use vstd::prelude::*;

verus! {

/// The first identity in `items` whose flag is false.
pub open spec fn first_unmet(items: Seq<(i32, bool)>) -> Option<i32>
    decreases items.len(),
{
    if items.len() == 0 {
        None
    } else if !items[0].1 {
        Some(items[0].0)
    } else {
        first_unmet(items.drop_first())
    }
}

/// The first identity in `items` whose flag is false.
fn find_unmet(items: &Vec<(i32, bool)>) -> (r: Option<i32>)
    ensures
        r == first_unmet(items@),
{
    let mut i: usize = 0;
    proof {
        assert(items@.subrange(0, items@.len() as int) =~= items@);
    }
    while i < items.len()
        invariant
            0 <= i <= items@.len(),
            first_unmet(items@) == first_unmet(items@.subrange(i as int, items@.len() as int)),
        decreases items@.len() - i,
    {
        let ghost rest = items@.subrange(i as int, items@.len() as int);
        proof {
            assert(rest.drop_first() =~= items@.subrange(i + 1, items@.len() as int));
            assert(rest[0] == items@[i as int]);
        }
        if !items[i].1 {
            return Some(items[i].0);
        }
        i = i + 1;
    }
    proof {
        assert(items@.subrange(i as int, items@.len() as int) =~= Seq::<(i32, bool)>::empty());
    }
    None
}

/// An NPC a task names, as the request found it.
#[derive(Debug, Clone, Copy, PartialEq, Eq, Structural)]
pub struct NpcCheck {
    /// The NPC type the task wants.
    pub required_type: i32,
    /// The type of the NPC the request names.
    pub actual_type: i32,
    /// The player is within reach of the NPC.
    pub near: bool,
}

/// The escort NPC a task names, as the request found it.
#[derive(Debug, Clone, Copy, PartialEq, Eq, Structural)]
pub struct EscortCheck {
    /// The NPC type the task wants.
    pub required_type: i32,
    /// The type of the NPC the request names.
    pub actual_type: i32,
    /// The NPC is in the player's instance.
    pub same_instance: bool,
    /// The NPC has a path to walk.
    pub has_path: bool,
    /// The player is within reach of the NPC.
    pub near: bool,
}

/// What starting a task depends on: the task's prerequisites beside what the
/// player and the named NPCs are.
pub struct TaskStartFacts {
    /// The NPC that gives the task, if the task needs one.
    pub giver: Option<NpcCheck>,
    /// The lowest level the task allows, if any, and the player's level.
    pub min_level: Option<i16>,
    pub level: i16,
    /// The guide the task needs, if any, and the player's guide.
    pub guide: Option<(i32, i32)>,
    /// Each nano the task needs, and whether the player has it.
    pub nanos: Vec<(i32, bool)>,
    /// The task's mission, and whether the player has completed it.
    pub mission_id: i32,
    pub mission_completed: bool,
    /// Each mission the task needs completed, and whether it is.
    pub prereq_missions: Vec<(i32, bool)>,
    /// The map the task needs, if any, and the player's map.
    pub map: Option<(u32, u32)>,
    /// The task before this one was completed or failed.
    pub previous_task_done: bool,
    /// The escort NPC, if the task has one.
    pub escort: Option<EscortCheck>,
}

/// Why a task cannot start.
#[derive(Debug, Clone, Copy, PartialEq, Eq, Structural)]
pub enum TaskStartRefusal {
    WrongGiverType { actual: i32, required: i32 },
    GiverTooFar,
    LevelTooLow { level: i16, min: i16 },
    WrongGuide { actual: i32, required: i32 },
    MissingNano(i32),
    MissionCompleted(i32),
    MissingPrereqMission(i32),
    WrongMap { actual_map: u32, required_map: u32 },
    PreviousTaskNotDone,
    EscortInOtherInstance,
    WrongEscortType { actual: i32, required: i32 },
    EscortHasNoPath,
    EscortTooFar,
}

/// The first prerequisite of starting a task that fails, in the order they
/// are checked: the giver's type and distance, the level, the guide, the
/// nanos, the mission not yet completed, the missions needed before it, the
/// map, the task before, and the escort's instance, type, path and distance.
pub open spec fn task_start_refusal(f: &TaskStartFacts) -> Option<TaskStartRefusal> {
    if f.giver matches Some(g) && g.actual_type != g.required_type {
        Some(TaskStartRefusal::WrongGiverType { actual: f.giver.unwrap().actual_type, required: f.giver.unwrap().required_type })
    } else if f.giver matches Some(g) && !g.near {
        Some(TaskStartRefusal::GiverTooFar)
    } else if f.min_level matches Some(m) && f.level < m {
        Some(TaskStartRefusal::LevelTooLow { level: f.level, min: f.min_level->0 })
    } else if f.guide matches Some(g) && g.1 != g.0 {
        Some(TaskStartRefusal::WrongGuide { actual: f.guide.unwrap().1, required: f.guide.unwrap().0 })
    } else if first_unmet(f.nanos@) is Some {
        Some(TaskStartRefusal::MissingNano(first_unmet(f.nanos@).unwrap()))
    } else if f.mission_completed {
        Some(TaskStartRefusal::MissionCompleted(f.mission_id))
    } else if first_unmet(f.prereq_missions@) is Some {
        Some(TaskStartRefusal::MissingPrereqMission(first_unmet(f.prereq_missions@).unwrap()))
    } else if f.map matches Some(m) && m.1 != m.0 {
        Some(TaskStartRefusal::WrongMap { actual_map: f.map.unwrap().1, required_map: f.map.unwrap().0 })
    } else if !f.previous_task_done {
        Some(TaskStartRefusal::PreviousTaskNotDone)
    } else if f.escort matches Some(e) && !e.same_instance {
        Some(TaskStartRefusal::EscortInOtherInstance)
    } else if f.escort matches Some(e) && e.actual_type != e.required_type {
        Some(TaskStartRefusal::WrongEscortType { actual: f.escort.unwrap().actual_type, required: f.escort.unwrap().required_type })
    } else if f.escort matches Some(e) && !e.has_path {
        Some(TaskStartRefusal::EscortHasNoPath)
    } else if f.escort matches Some(e) && !e.near {
        Some(TaskStartRefusal::EscortTooFar)
    } else {
        None
    }
}

/// Checks the prerequisites of starting a task; `None` when all hold.
pub fn task_start_check(f: &TaskStartFacts) -> (r: Option<TaskStartRefusal>)
    ensures
        r == task_start_refusal(f),
{
    if let Some(g) = f.giver {
        if g.actual_type != g.required_type {
            return Some(TaskStartRefusal::WrongGiverType { actual: g.actual_type, required: g.required_type });
        }
        if !g.near {
            return Some(TaskStartRefusal::GiverTooFar);
        }
    }
    if let Some(m) = f.min_level {
        if f.level < m {
            return Some(TaskStartRefusal::LevelTooLow { level: f.level, min: m });
        }
    }
    if let Some(g) = f.guide {
        if g.1 != g.0 {
            return Some(TaskStartRefusal::WrongGuide { actual: g.1, required: g.0 });
        }
    }
    if let Some(n) = find_unmet(&f.nanos) {
        return Some(TaskStartRefusal::MissingNano(n));
    }
    if f.mission_completed {
        return Some(TaskStartRefusal::MissionCompleted(f.mission_id));
    }
    if let Some(m) = find_unmet(&f.prereq_missions) {
        return Some(TaskStartRefusal::MissingPrereqMission(m));
    }
    if let Some(m) = f.map {
        if m.1 != m.0 {
            return Some(TaskStartRefusal::WrongMap { actual_map: m.1, required_map: m.0 });
        }
    }
    if !f.previous_task_done {
        return Some(TaskStartRefusal::PreviousTaskNotDone);
    }
    if let Some(e) = f.escort {
        if !e.same_instance {
            return Some(TaskStartRefusal::EscortInOtherInstance);
        }
        if e.actual_type != e.required_type {
            return Some(TaskStartRefusal::WrongEscortType { actual: e.actual_type, required: e.required_type });
        }
        if !e.has_path {
            return Some(TaskStartRefusal::EscortHasNoPath);
        }
        if !e.near {
            return Some(TaskStartRefusal::EscortTooFar);
        }
    }
    None
}

/// No identity is left unmet exactly when `first_unmet` finds none, and
/// what it finds is the identity of an unmet entry.
proof fn lemma_first_unmet(items: Seq<(i32, bool)>)
    ensures
        first_unmet(items) is None <==> forall|i: int| 0 <= i < items.len() ==> #[trigger] items[i].1,
        first_unmet(items) matches Some(id) ==> exists|i: int| 0 <= i < items.len() && #[trigger] items[i] == (id, false),
    decreases items.len(),
{
    if items.len() > 0 {
        let t = items.drop_first();
        lemma_first_unmet(t);
        assert forall|i: int| 0 <= i < t.len() implies #[trigger] t[i] == items[i + 1] by {}
        if first_unmet(items) is None {
            assert forall|i: int| 0 <= i < items.len() implies #[trigger] items[i].1 by {
                if i > 0 {
                    assert(t[i - 1] == items[i]);
                }
            }
        }
        if items[0].1 {
            if let Some(id) = first_unmet(t) {
                let j = choose|j: int| 0 <= j < t.len() && #[trigger] t[j] == (id, false);
                assert(items[j + 1] == (id, false));
            }
        } else {
            assert(items[0] == (items[0].0, false));
        }
    }
}

/// A task starts exactly when every prerequisite holds: the giver is the
/// right NPC and near, the player's level is at least the task's minimum,
/// the guide is the one needed, every nano needed is held, the mission is
/// not yet completed, every mission needed before it is completed, the map
/// is the one needed, the task before is done, and the escort is in the
/// player's instance, of the right type, has a path and is near.
pub proof fn lemma_task_starts_only_when_all_met(f: &TaskStartFacts)
    ensures
        task_start_refusal(f) is None <==> {
            &&& f.giver matches Some(g) ==> g.actual_type == g.required_type && g.near
            &&& f.min_level matches Some(m) ==> m <= f.level
            &&& f.guide matches Some(g) ==> g.0 == g.1
            &&& forall|i: int| 0 <= i < f.nanos@.len() ==> #[trigger] f.nanos@[i].1
            &&& !f.mission_completed
            &&& forall|i: int| 0 <= i < f.prereq_missions@.len() ==> #[trigger] f.prereq_missions@[i].1
            &&& f.map matches Some(m) ==> m.0 == m.1
            &&& f.previous_task_done
            &&& f.escort matches Some(e) ==> e.same_instance && e.actual_type == e.required_type && e.has_path && e.near
        },
{
    lemma_first_unmet(f.nanos@);
    lemma_first_unmet(f.prereq_missions@);
}

/// Every refusal to start a task names a prerequisite that really fails,
/// with the values that make it fail.
pub proof fn lemma_task_start_refusal_is_real(f: &TaskStartFacts)
    ensures
        match task_start_refusal(f) {
            None => true,
            Some(TaskStartRefusal::WrongGiverType { actual, required }) => f.giver matches Some(g)
                && g.actual_type == actual && g.required_type == required && actual != required,
            Some(TaskStartRefusal::GiverTooFar) => f.giver matches Some(g) && !g.near,
            Some(TaskStartRefusal::LevelTooLow { level, min }) => f.min_level == Some(min) && level == f.level
                && level < min,
            Some(TaskStartRefusal::WrongGuide { actual, required }) => f.guide == Some((required, actual))
                && actual != required,
            Some(TaskStartRefusal::MissingNano(id)) => exists|i: int|
                0 <= i < f.nanos@.len() && #[trigger] f.nanos@[i] == (id, false),
            Some(TaskStartRefusal::MissionCompleted(id)) => f.mission_completed && id == f.mission_id,
            Some(TaskStartRefusal::MissingPrereqMission(id)) => exists|i: int|
                0 <= i < f.prereq_missions@.len() && #[trigger] f.prereq_missions@[i] == (id, false),
            Some(TaskStartRefusal::WrongMap { actual_map, required_map }) => f.map == Some((required_map, actual_map))
                && actual_map != required_map,
            Some(TaskStartRefusal::PreviousTaskNotDone) => !f.previous_task_done,
            Some(TaskStartRefusal::EscortInOtherInstance) => f.escort matches Some(e) && !e.same_instance,
            Some(TaskStartRefusal::WrongEscortType { actual, required }) => f.escort matches Some(e)
                && e.actual_type == actual && e.required_type == required && actual != required,
            Some(TaskStartRefusal::EscortHasNoPath) => f.escort matches Some(e) && !e.has_path,
            Some(TaskStartRefusal::EscortTooFar) => f.escort matches Some(e) && !e.near,
        },
{
    lemma_first_unmet(f.nanos@);
    lemma_first_unmet(f.prereq_missions@);
}

/// A quest item a task needs: its identity, how many are needed and how
/// many the player has.
#[derive(Debug, Clone, Copy, PartialEq, Eq, Structural)]
pub struct QuestItemNeed {
    pub id: i32,
    pub needed: i32,
    pub held: i32,
}

/// What ending a task depends on.
pub struct TaskEndFacts {
    /// The player is running the task.
    pub active: bool,
    /// The task has already failed.
    pub failed: bool,
    /// The NPC the task ends at, if it has one.
    pub objective: Option<NpcCheck>,
    /// The quest items the task needs.
    pub quest_items: Vec<QuestItemNeed>,
    /// Each enemy type the task has the player defeat, with how many are left.
    pub enemies_left: Vec<(i32, u32)>,
    /// The escort NPC, if the task has one, and whether it has arrived.
    pub escort: Option<(i32, bool)>,
    /// The task's time limit has passed.
    pub too_late: bool,
    /// The number of items the task rewards, if it has a reward, and the
    /// player's free inventory slots.
    pub reward_items: Option<(usize, usize)>,
}

/// Why a task cannot end.
#[derive(Debug, Clone, Copy, PartialEq, Eq, Structural)]
pub enum TaskEndRefusal {
    NotActive,
    WrongObjectiveType { actual: i32, required: i32 },
    ObjectiveTooFar,
    MissingQuestItem { id: i32, held: i32, needed: i32 },
    EnemiesLeft { id: i32, left: u32 },
    EscortNotArrived(i32),
    TooLate,
    /// The client is told its inventory is full.
    InventoryFull { items: usize, free: usize },
}

/// How a request to end a task goes.
#[derive(Debug, Clone, Copy, PartialEq, Eq, Structural)]
pub enum TaskEndVerdict {
    /// The task has failed: nothing happens until the next start.
    Ignore,
    /// The request is refused.
    Refuse(TaskEndRefusal),
    /// The task is completed and its rewards are handed out.
    Complete,
}

/// The first quest item held short of what is needed.
pub open spec fn first_short(items: Seq<QuestItemNeed>) -> Option<QuestItemNeed>
    decreases items.len(),
{
    if items.len() == 0 {
        None
    } else if items[0].held < items[0].needed {
        Some(items[0])
    } else {
        first_short(items.drop_first())
    }
}

/// The first enemy type with defeats left.
pub open spec fn first_left(enemies: Seq<(i32, u32)>) -> Option<(i32, u32)>
    decreases enemies.len(),
{
    if enemies.len() == 0 {
        None
    } else if enemies[0].1 > 0 {
        Some(enemies[0])
    } else {
        first_left(enemies.drop_first())
    }
}

fn find_short(items: &Vec<QuestItemNeed>) -> (r: Option<QuestItemNeed>)
    ensures
        r == first_short(items@),
{
    let mut i: usize = 0;
    proof {
        assert(items@.subrange(0, items@.len() as int) =~= items@);
    }
    while i < items.len()
        invariant
            0 <= i <= items@.len(),
            first_short(items@) == first_short(items@.subrange(i as int, items@.len() as int)),
        decreases items@.len() - i,
    {
        let ghost rest = items@.subrange(i as int, items@.len() as int);
        proof {
            assert(rest.drop_first() =~= items@.subrange(i + 1, items@.len() as int));
            assert(rest[0] == items@[i as int]);
        }
        if items[i].held < items[i].needed {
            return Some(items[i]);
        }
        i = i + 1;
    }
    proof {
        assert(items@.subrange(i as int, items@.len() as int) =~= Seq::<QuestItemNeed>::empty());
    }
    None
}

fn find_left(enemies: &Vec<(i32, u32)>) -> (r: Option<(i32, u32)>)
    ensures
        r == first_left(enemies@),
{
    let mut i: usize = 0;
    proof {
        assert(enemies@.subrange(0, enemies@.len() as int) =~= enemies@);
    }
    while i < enemies.len()
        invariant
            0 <= i <= enemies@.len(),
            first_left(enemies@) == first_left(enemies@.subrange(i as int, enemies@.len() as int)),
        decreases enemies@.len() - i,
    {
        let ghost rest = enemies@.subrange(i as int, enemies@.len() as int);
        proof {
            assert(rest.drop_first() =~= enemies@.subrange(i + 1, enemies@.len() as int));
            assert(rest[0] == enemies@[i as int]);
        }
        if enemies[i].1 > 0 {
            return Some(enemies[i]);
        }
        i = i + 1;
    }
    proof {
        assert(enemies@.subrange(i as int, enemies@.len() as int) =~= Seq::<(i32, u32)>::empty());
    }
    None
}

/// How ending a task goes: refused when the player is not running it;
/// ignored when it has failed; otherwise refused at the first unmet
/// objective, in the order they are checked (the objective NPC's type and
/// distance, the quest items, the enemies, the escort, the time limit, room
/// for the reward items), and completed when all are met.
pub open spec fn task_end_verdict(f: &TaskEndFacts) -> TaskEndVerdict {
    if !f.active {
        TaskEndVerdict::Refuse(TaskEndRefusal::NotActive)
    } else if f.failed {
        TaskEndVerdict::Ignore
    } else if f.objective matches Some(o) && o.actual_type != o.required_type {
        TaskEndVerdict::Refuse(
            TaskEndRefusal::WrongObjectiveType { actual: f.objective.unwrap().actual_type, required: f.objective.unwrap().required_type },
        )
    } else if f.objective matches Some(o) && !o.near {
        TaskEndVerdict::Refuse(TaskEndRefusal::ObjectiveTooFar)
    } else if first_short(f.quest_items@) is Some {
        let q = first_short(f.quest_items@).unwrap();
        TaskEndVerdict::Refuse(TaskEndRefusal::MissingQuestItem { id: q.id, held: q.held, needed: q.needed })
    } else if first_left(f.enemies_left@) is Some {
        let e = first_left(f.enemies_left@).unwrap();
        TaskEndVerdict::Refuse(TaskEndRefusal::EnemiesLeft { id: e.0, left: e.1 })
    } else if f.escort matches Some(e) && !e.1 {
        TaskEndVerdict::Refuse(TaskEndRefusal::EscortNotArrived(f.escort.unwrap().0))
    } else if f.too_late {
        TaskEndVerdict::Refuse(TaskEndRefusal::TooLate)
    } else if f.reward_items matches Some(r) && r.0 > r.1 {
        TaskEndVerdict::Refuse(TaskEndRefusal::InventoryFull { items: f.reward_items.unwrap().0, free: f.reward_items.unwrap().1 })
    } else {
        TaskEndVerdict::Complete
    }
}

/// Decides a request to end a task.
pub fn task_end_check(f: &TaskEndFacts) -> (r: TaskEndVerdict)
    ensures
        r == task_end_verdict(f),
{
    if !f.active {
        return TaskEndVerdict::Refuse(TaskEndRefusal::NotActive);
    }
    if f.failed {
        return TaskEndVerdict::Ignore;
    }
    if let Some(o) = f.objective {
        if o.actual_type != o.required_type {
            return TaskEndVerdict::Refuse(TaskEndRefusal::WrongObjectiveType { actual: o.actual_type, required: o.required_type });
        }
        if !o.near {
            return TaskEndVerdict::Refuse(TaskEndRefusal::ObjectiveTooFar);
        }
    }
    if let Some(q) = find_short(&f.quest_items) {
        return TaskEndVerdict::Refuse(TaskEndRefusal::MissingQuestItem { id: q.id, held: q.held, needed: q.needed });
    }
    if let Some(e) = find_left(&f.enemies_left) {
        return TaskEndVerdict::Refuse(TaskEndRefusal::EnemiesLeft { id: e.0, left: e.1 });
    }
    if let Some(e) = f.escort {
        if !e.1 {
            return TaskEndVerdict::Refuse(TaskEndRefusal::EscortNotArrived(e.0));
        }
    }
    if f.too_late {
        return TaskEndVerdict::Refuse(TaskEndRefusal::TooLate);
    }
    if let Some(r) = f.reward_items {
        if r.0 > r.1 {
            return TaskEndVerdict::Refuse(TaskEndRefusal::InventoryFull { items: r.0, free: r.1 });
        }
    }
    TaskEndVerdict::Complete
}

/// A task completes only when every objective is met: the player runs it,
/// it has not failed, the objective NPC is the right one and near, no quest
/// item is short, no enemy is left, the escort has arrived, time is not up
/// and the reward fits the inventory.
pub proof fn lemma_complete_only_when_all_met(f: &TaskEndFacts)
    ensures
        task_end_verdict(f) == TaskEndVerdict::Complete <==> {
            &&& f.active && !f.failed
            &&& f.objective matches Some(o) ==> o.actual_type == o.required_type && o.near
            &&& forall|i: int| 0 <= i < f.quest_items@.len() ==> #[trigger] f.quest_items@[i].held >= f.quest_items@[i].needed
            &&& forall|i: int| 0 <= i < f.enemies_left@.len() ==> #[trigger] f.enemies_left@[i].1 == 0
            &&& f.escort matches Some(e) ==> e.1
            &&& !f.too_late
            &&& f.reward_items matches Some(r) ==> r.0 <= r.1
        },
{
    lemma_first_short(f.quest_items@);
    lemma_first_left(f.enemies_left@);
}

/// A request to end a task is ignored exactly when the player runs the task
/// and it has already failed, whatever else holds; a player not running the
/// task is refused as such.
pub proof fn lemma_failed_task_end_ignored(f: &TaskEndFacts)
    ensures
        task_end_verdict(f) == TaskEndVerdict::Ignore <==> f.active && f.failed,
        !f.active ==> task_end_verdict(f) == TaskEndVerdict::Refuse(TaskEndRefusal::NotActive),
{
}

/// Every refusal to end a task names an objective that really is unmet,
/// with the values that leave it unmet.
pub proof fn lemma_task_end_refusal_is_real(f: &TaskEndFacts)
    ensures
        task_end_verdict(f) matches TaskEndVerdict::Refuse(r) ==> !f.failed || !f.active,
        match task_end_verdict(f) {
            TaskEndVerdict::Refuse(TaskEndRefusal::NotActive) => !f.active,
            TaskEndVerdict::Refuse(TaskEndRefusal::WrongObjectiveType { actual, required }) => f.objective matches Some(o)
                && o.actual_type == actual && o.required_type == required && actual != required,
            TaskEndVerdict::Refuse(TaskEndRefusal::ObjectiveTooFar) => f.objective matches Some(o) && !o.near,
            TaskEndVerdict::Refuse(TaskEndRefusal::MissingQuestItem { id, held, needed }) => exists|i: int|
                0 <= i < f.quest_items@.len() && #[trigger] f.quest_items@[i] == (QuestItemNeed { id, needed, held })
                    && held < needed,
            TaskEndVerdict::Refuse(TaskEndRefusal::EnemiesLeft { id, left }) => exists|i: int|
                0 <= i < f.enemies_left@.len() && #[trigger] f.enemies_left@[i] == (id, left) && left > 0,
            TaskEndVerdict::Refuse(TaskEndRefusal::EscortNotArrived(id)) => f.escort == Some((id, false)),
            TaskEndVerdict::Refuse(TaskEndRefusal::TooLate) => f.too_late,
            TaskEndVerdict::Refuse(TaskEndRefusal::InventoryFull { items, free }) => f.reward_items == Some((items, free))
                && items > free,
            _ => true,
        },
{
    lemma_first_short_found(f.quest_items@);
    lemma_first_left_found(f.enemies_left@);
}

/// What `first_short` finds is an entry of the list that is short.
proof fn lemma_first_short_found(items: Seq<QuestItemNeed>)
    ensures
        first_short(items) matches Some(q) ==> q.held < q.needed && exists|i: int|
            0 <= i < items.len() && #[trigger] items[i] == q,
    decreases items.len(),
{
    if items.len() > 0 && items[0].held >= items[0].needed {
        let t = items.drop_first();
        lemma_first_short_found(t);
        if let Some(q) = first_short(t) {
            let j = choose|j: int| 0 <= j < t.len() && #[trigger] t[j] == q;
            assert(items[j + 1] == q);
        }
    }
}

/// What `first_left` finds is an entry of the list with defeats left.
proof fn lemma_first_left_found(enemies: Seq<(i32, u32)>)
    ensures
        first_left(enemies) matches Some(e) ==> e.1 > 0 && exists|i: int|
            0 <= i < enemies.len() && #[trigger] enemies[i] == e,
    decreases enemies.len(),
{
    if enemies.len() > 0 && enemies[0].1 == 0 {
        let t = enemies.drop_first();
        lemma_first_left_found(t);
        if let Some(e) = first_left(t) {
            let j = choose|j: int| 0 <= j < t.len() && #[trigger] t[j] == e;
            assert(enemies[j + 1] == e);
        }
    }
}

/// No quest item is short exactly when `first_short` finds none.
proof fn lemma_first_short(items: Seq<QuestItemNeed>)
    ensures
        first_short(items) is None <==> forall|i: int| 0 <= i < items.len() ==> #[trigger] items[i].held >= items[i].needed,
    decreases items.len(),
{
    if items.len() > 0 {
        let t = items.drop_first();
        lemma_first_short(t);
        assert forall|i: int| 0 <= i < t.len() implies #[trigger] t[i] == items[i + 1] by {}
        if first_short(items) is None {
            assert forall|i: int| 0 <= i < items.len() implies #[trigger] items[i].held >= items[i].needed by {
                if i > 0 {
                    assert(t[i - 1] == items[i]);
                }
            }
        }
    }
}

/// No enemy type has defeats left exactly when `first_left` finds none.
proof fn lemma_first_left(enemies: Seq<(i32, u32)>)
    ensures
        first_left(enemies) is None <==> forall|i: int| 0 <= i < enemies.len() ==> #[trigger] enemies[i].1 == 0,
    decreases enemies.len(),
{
    if enemies.len() > 0 {
        let t = enemies.drop_first();
        lemma_first_left(t);
        assert forall|i: int| 0 <= i < t.len() implies #[trigger] t[i] == enemies[i + 1] by {}
        if first_left(enemies) is None {
            assert forall|i: int| 0 <= i < enemies.len() implies #[trigger] enemies[i].1 == 0 by {
                if i > 0 {
                    assert(t[i - 1] == enemies[i]);
                }
            }
        }
    }
}

} // verus!
