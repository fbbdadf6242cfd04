use vstd::prelude::*;
use vstd::string::*;

use crate::chunk::TickMode;

verus! {

/// The side an NPC fights on, from its stats in the table data.
#[derive(Debug, Clone, Copy, PartialEq, Eq, Structural)]
pub enum CombatantTeam {
    Friendly,
    Mob,
    /// Any other team: no behavior script drives it.
    Other,
}

/// What the choice of an NPC's behavior reads of the NPC and of its stats.
#[derive(Debug, Clone, Copy)]
pub struct NpcAiInfo {
    /// The NPC can take part in combat.
    pub is_combatant: bool,
    /// Its team.
    pub team: CombatantTeam,
    /// It keeps close behind another entity, as a member of a pack.
    pub tight_follow: bool,
    /// It walks a path.
    pub has_path: bool,
    /// Its AI type; zero for none.
    pub ai_type: i32,
}

/// The behavior script that drives `npc`, if any: combatants on the friendly
/// side run `friendly_combatant`; mobs run `mob_pack_member` when they follow
/// a pack leader closely and `mob` otherwise.
pub open spec fn script_name(npc: NpcAiInfo) -> Option<Seq<char>> {
    if !npc.is_combatant {
        None
    } else {
        match npc.team {
            CombatantTeam::Friendly => Some("friendly_combatant"@),
            CombatantTeam::Mob => if npc.tight_follow {
                Some("mob_pack_member"@)
            } else {
                Some("mob"@)
            },
            CombatantTeam::Other => None,
        }
    }
}

/// The behavior script that drives `npc`, if any.
pub fn get_script_name(npc: &NpcAiInfo) -> (r: Option<&'static str>)
    ensures
        match r {
            Some(s) => script_name(*npc) == Some(s@),
            None => script_name(*npc) is None,
        },
{
    if !npc.is_combatant {
        return None;
    }
    match npc.team {
        CombatantTeam::Friendly => Some("friendly_combatant"),
        CombatantTeam::Mob => {
            if npc.tight_follow {
                Some("mob_pack_member")
            } else {
                Some("mob")
            }
        },
        CombatantTeam::Other => None,
    }
}

/// The behavior of `npc` and how it ticks. An NPC with no path and no AI
/// type gets no behavior and never ticks, unless `force`; otherwise it gets
/// its script, and ticks always when it walks a path and only in loaded
/// chunks when not.
pub fn make_for_npc(npc: &NpcAiInfo, force: bool) -> (r: (Option<String>, TickMode))
    ensures
        !force && !npc.has_path && npc.ai_type == 0 ==> r.0 is None && r.1 == TickMode::Never,
        force || npc.has_path || npc.ai_type != 0 ==> {
            &&& match r.0 {
                Some(s) => script_name(*npc) == Some(s@),
                None => script_name(*npc) is None,
            }
            &&& r.1 == if npc.has_path {
                TickMode::Always
            } else {
                TickMode::WhenLoaded
            }
        },
{
    if !force && !npc.has_path && npc.ai_type == 0 {
        return (None, TickMode::Never);
    }
    let behavior_name = get_script_name(npc);
    let tick_mode = if npc.has_path {
        TickMode::Always
    } else {
        TickMode::WhenLoaded
    };
    let name = match behavior_name {
        Some(n) => Some(String::from_str(n)),
        None => None,
    };
    (name, tick_mode)
}

} // verus!
