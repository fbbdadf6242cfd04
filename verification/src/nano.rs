use vstd::prelude::*;

verus! {

/// The skill of a player's active nano, as a skill use reads it.
#[derive(Debug, Clone, Copy, PartialEq, Eq, Structural)]
pub struct SkillInfo {
    /// The stamina a use costs at the skill's first level.
    pub cost: i16,
    /// The skill says how it picks its targets.
    pub has_targeting_type: bool,
}

/// The player's active nano, as a skill use reads it.
#[derive(Debug, Clone, Copy, PartialEq, Eq, Structural)]
pub struct NanoSkillInfo {
    /// The nano's stamina.
    pub stamina: i16,
    /// The nano's skill, if it has one.
    pub skill: Option<SkillInfo>,
    /// The most targets one use takes; further targets are ignored.
    pub max_targets: usize,
}

/// Why a nano skill cannot be used.
#[derive(Debug, Clone, Copy, PartialEq, Eq, Structural)]
pub enum NanoSkillRefusal {
    /// The player has no active nano.
    NoActiveNano,
    /// The active nano has no skill.
    NoSkill,
    /// The nano's stamina is below the skill's cost.
    NotEnoughStamina { needed: i16, available: i16 },
    /// The skill has no targeting type.
    NoTargetingType,
}

/// What a nano skill use does.
#[derive(Debug, Clone, Copy, PartialEq, Eq, Structural)]
pub enum NanoSkillPlan {
    /// The request names no target: nothing happens.
    NoTargets,
    /// Use the skill on the first `targets` targets named; the nano's stamina
    /// becomes `new_stamina`, and the nano is put away when that is zero.
    Use { targets: usize, new_stamina: i16, deactivates: bool },
}

/// The outcome of a nano skill use naming `target_count` targets: refused
/// without an active nano, without a skill, or with stamina below the cost;
/// no effect with no target; refused for a skill without targeting type;
/// otherwise the skill is used on at most `max_targets` targets and its cost
/// is drained from the stamina.
pub open spec fn nano_skill_decision_spec(nano: Option<NanoSkillInfo>, target_count: usize) -> Result<
    NanoSkillPlan,
    NanoSkillRefusal,
> {
    match nano {
        None => Err(NanoSkillRefusal::NoActiveNano),
        Some(n) => match n.skill {
            None => Err(NanoSkillRefusal::NoSkill),
            Some(sk) => if n.stamina < sk.cost {
                Err(NanoSkillRefusal::NotEnoughStamina { needed: sk.cost, available: n.stamina })
            } else if target_count == 0 {
                Ok(NanoSkillPlan::NoTargets)
            } else if !sk.has_targeting_type {
                Err(NanoSkillRefusal::NoTargetingType)
            } else {
                Ok(
                    NanoSkillPlan::Use {
                        targets: if target_count < n.max_targets {
                            target_count
                        } else {
                            n.max_targets
                        },
                        new_stamina: (n.stamina - sk.cost) as i16,
                        deactivates: n.stamina - sk.cost == 0,
                    },
                )
            },
        },
    }
}

/// Where a skill use goes ahead (a nano with a skill, stamina at least the
/// cost, a target named, a targeting type), the stamina left over fits an
/// `i16`. Nothing is asked of the other inputs: they subtract nothing.
pub open spec fn skill_use_cost_fits(nano: Option<NanoSkillInfo>, target_count: usize) -> bool {
    match nano {
        Some(n) => match n.skill {
            Some(sk) => sk.cost <= n.stamina && target_count > 0 && sk.has_targeting_type
                ==> n.stamina - sk.cost <= i16::MAX,
            None => true,
        },
        None => true,
    }
}

/// Decides a nano skill use naming `target_count` targets. Only a use that
/// goes ahead subtracts the cost, so only there must the difference fit.
pub fn nano_skill_decision(nano: Option<NanoSkillInfo>, target_count: usize) -> (r: Result<
    NanoSkillPlan,
    NanoSkillRefusal,
>)
    requires
        skill_use_cost_fits(nano, target_count),
    ensures
        r == nano_skill_decision_spec(nano, target_count),
{
    let n = match nano {
        None => {
            return Err(NanoSkillRefusal::NoActiveNano);
        },
        Some(n) => n,
    };
    let sk = match n.skill {
        None => {
            return Err(NanoSkillRefusal::NoSkill);
        },
        Some(sk) => sk,
    };
    if n.stamina < sk.cost {
        return Err(NanoSkillRefusal::NotEnoughStamina { needed: sk.cost, available: n.stamina });
    }
    if target_count == 0 {
        return Ok(NanoSkillPlan::NoTargets);
    }
    if !sk.has_targeting_type {
        return Err(NanoSkillRefusal::NoTargetingType);
    }
    let targets = if target_count < n.max_targets {
        target_count
    } else {
        n.max_targets
    };
    let new_stamina = n.stamina - sk.cost;
    Ok(NanoSkillPlan::Use { targets, new_stamina, deactivates: new_stamina == 0 })
}

/// A skill use never takes more targets than allowed, never drives the
/// stamina below zero, and drains exactly the skill's cost.
pub proof fn lemma_skill_use_drains_cost(nano: Option<NanoSkillInfo>, target_count: usize)
    requires
        skill_use_cost_fits(nano, target_count),
    ensures
        nano_skill_decision_spec(nano, target_count) matches Ok(NanoSkillPlan::Use { targets, new_stamina, .. }) ==> {
            &&& targets <= nano.unwrap().max_targets
            &&& targets <= target_count
            &&& 0 <= new_stamina
            &&& new_stamina == nano.unwrap().stamina - nano.unwrap().skill.unwrap().cost
        },
{
}

/// What a nano skill use decides, over every input: without an active nano,
/// or with a nano without a skill, it is refused as such; with stamina below
/// the cost it is refused, naming both; otherwise a request naming no target
/// does nothing, a skill without targeting type is refused, and else the
/// skill is used on as many of the targets named as the nano allows, the
/// cost is drained from the stamina, and the nano is put away exactly when
/// no stamina is left.
pub proof fn lemma_nano_skill_outcomes(nano: Option<NanoSkillInfo>, target_count: usize)
    requires
        skill_use_cost_fits(nano, target_count),
    ensures
        ({
            let r = nano_skill_decision_spec(nano, target_count);
            let n = nano->0;
            let sk = n.skill->0;
            &&& nano is None ==> r == Err::<NanoSkillPlan, NanoSkillRefusal>(NanoSkillRefusal::NoActiveNano)
            &&& nano is Some && n.skill is None ==> r == Err::<NanoSkillPlan, NanoSkillRefusal>(NanoSkillRefusal::NoSkill)
            &&& nano is Some && n.skill is Some && n.stamina < sk.cost ==> r == Err::<NanoSkillPlan, NanoSkillRefusal>(
                NanoSkillRefusal::NotEnoughStamina { needed: sk.cost, available: n.stamina },
            )
            &&& nano is Some && n.skill is Some && sk.cost <= n.stamina && target_count == 0 ==> r == Ok::<
                NanoSkillPlan,
                NanoSkillRefusal,
            >(NanoSkillPlan::NoTargets)
            &&& nano is Some && n.skill is Some && sk.cost <= n.stamina && target_count > 0 && !sk.has_targeting_type
                ==> r == Err::<NanoSkillPlan, NanoSkillRefusal>(NanoSkillRefusal::NoTargetingType)
            &&& nano is Some && n.skill is Some && sk.cost <= n.stamina && target_count > 0 && sk.has_targeting_type
                ==> r is Ok && r->Ok_0 is Use
            &&& r is Ok && r->Ok_0 is Use ==> {
                let targets = r->Ok_0->targets;
                let new_stamina = r->Ok_0->new_stamina;
                let deactivates = r->Ok_0->deactivates;
                &&& nano is Some && n.skill is Some && sk.cost <= n.stamina && target_count > 0 && sk.has_targeting_type
                &&& targets <= target_count && targets <= n.max_targets
                &&& (targets == target_count || targets == n.max_targets)
                &&& new_stamina == n.stamina - sk.cost
                &&& (deactivates <==> n.stamina - sk.cost == 0)
                &&& (deactivates <==> new_stamina == 0)
            }
        }),
{
}

} // verus!
