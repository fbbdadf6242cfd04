use vstd::prelude::*;
use vstd::string::*;

use crate::config::overrides::texts;
use crate::config::toml_value::{all_digits, digits_value, unsigned_part};

verus! {

/// The number that an optionally signed run of decimal digits writes.
pub open spec fn signed_value(s: Seq<char>) -> int {
    let (neg, d) = unsigned_part(s);
    if neg {
        -digits_value(d)
    } else {
        digits_value(d)
    }
}

/// The texts that `str::parse` accepts for an integer type whose values run
/// from `lo` to `hi`: an optional sign, then decimal digits, for a value in
/// range.
pub open spec fn int_syntax(s: Seq<char>, lo: int, hi: int) -> bool {
    all_digits(unsigned_part(s).1) && lo <= signed_value(s) <= hi
}

/// `s` as an `i32`, by `str::parse`.
#[verifier::external_body]
fn parse_i32(s: &str) -> (r: Option<i32>)
    ensures
        match r {
            Some(v) => int_syntax(s@, i32::MIN as int, i32::MAX as int) && v == signed_value(s@),
            None => !int_syntax(s@, i32::MIN as int, i32::MAX as int),
        },
{
    s.parse::<i32>().ok()
}

/// `s` as an `i16`, by `str::parse`.
#[verifier::external_body]
fn parse_i16(s: &str) -> (r: Option<i16>)
    ensures
        match r {
            Some(v) => int_syntax(s@, i16::MIN as int, i16::MAX as int) && v == signed_value(s@),
            None => !int_syntax(s@, i16::MIN as int, i16::MAX as int),
        },
{
    s.parse::<i16>().ok()
}

/// The player a command names: `.` for the player giving it (`None`), else
/// a player identity; an error for anything else.
pub open spec fn pc_id_of(token: Seq<char>) -> Result<Option<i32>, ()> {
    if token == "."@ {
        Ok(None)
    } else if int_syntax(token, i32::MIN as int, i32::MAX as int) {
        Ok(Some(signed_value(token) as i32))
    } else {
        Err(())
    }
}

/// The player a command names: `.` for the player giving it, else a player
/// identity.
pub fn parse_pc_id(token: &str) -> (r: Result<Option<i32>, ()>)
    ensures
        r == pc_id_of(token@),
{
    if crate::text::str_eq(token, ".") {
        return Ok(None);
    }
    match parse_i32(token) {
        Some(v) => Ok(Some(v)),
        None => Err(()),
    }
}

/// The first answer to `/perms`, before its target is looked up.
#[derive(Debug, Clone, Copy, PartialEq, Eq, Structural)]
pub enum PermsTarget {
    /// Too few arguments: show how the command is used.
    Usage,
    /// The player argument is neither `.` nor a player identity.
    InvalidPlayerId,
    /// The command is about this player.
    Player(i32),
}

/// What `/perms <pc_id> ...`, given by player `own_pc_id`, is about.
pub open spec fn perms_target_of(tokens: Seq<Seq<char>>, own_pc_id: i32) -> PermsTarget {
    if tokens.len() < 2 {
        PermsTarget::Usage
    } else {
        match pc_id_of(tokens[1]) {
            Ok(Some(id)) => PermsTarget::Player(id),
            Ok(None) => PermsTarget::Player(own_pc_id),
            Err(_) => PermsTarget::InvalidPlayerId,
        }
    }
}

/// What `/perms` is about: the usage with fewer than two words, else the
/// player its second word names (`.` for the player giving it).
pub fn perms_target(tokens: &Vec<String>, own_pc_id: i32) -> (r: PermsTarget)
    ensures
        r == perms_target_of(texts(tokens@), own_pc_id),
{
    if tokens.len() < 2 {
        return PermsTarget::Usage;
    }
    proof {
        assert(texts(tokens@)[1] == tokens@[1]@);
    }
    match parse_pc_id(tokens[1].as_str()) {
        Ok(Some(id)) => PermsTarget::Player(id),
        Ok(None) => PermsTarget::Player(own_pc_id),
        Err(_) => PermsTarget::InvalidPlayerId,
    }
}

/// `/perms` with fewer than two words shows how it is used; otherwise it is
/// about the player giving it when the second word is `.`, about the player
/// whose identity the second word writes when it is a number, and refused
/// as an invalid identity exactly when the second word is neither.
pub proof fn lemma_perms_target_named(tokens: Seq<Seq<char>>, own_pc_id: i32)
    ensures
        perms_target_of(tokens, own_pc_id) == PermsTarget::Usage <==> tokens.len() < 2,
        tokens.len() >= 2 && tokens[1] == "."@ ==> perms_target_of(tokens, own_pc_id) == PermsTarget::Player(own_pc_id),
        tokens.len() >= 2 && tokens[1] != "."@ && int_syntax(tokens[1], i32::MIN as int, i32::MAX as int)
            ==> (perms_target_of(tokens, own_pc_id) matches PermsTarget::Player(id) && id == signed_value(tokens[1])),
        perms_target_of(tokens, own_pc_id) == PermsTarget::InvalidPlayerId <==> tokens.len() >= 2 && tokens[1]
            != "."@ && !int_syntax(tokens[1], i32::MIN as int, i32::MAX as int),
{
}

/// The answer to `/perms` once its target is known. Lower levels are
/// stronger.
#[derive(Debug, Clone, Copy, PartialEq, Eq, Structural)]
pub enum PermsOutcome {
    /// No new level given: show the target's level.
    ShowLevel,
    /// The new level is not a number.
    InvalidLevel,
    /// The new level is outside 1 to 99.
    OutOfRange,
    /// The new level is not weaker than the level of the player giving the
    /// command.
    NotWeaker,
    /// The target is another player whose level is not weaker.
    TargetNotWeaker,
    /// Set the target's level to `new_perms`, and save it to the account when
    /// `save`.
    Change { new_perms: i16, save: bool },
}

/// The answer to `/perms` from a player of level `own_perms` about a target
/// of level `target_perms`.
pub open spec fn perms_outcome_of(
    tokens: Seq<Seq<char>>,
    own_pc_id: i32,
    own_perms: i16,
    target_pc_id: i32,
    target_perms: i16,
) -> PermsOutcome {
    if tokens.len() < 3 {
        PermsOutcome::ShowLevel
    } else if !int_syntax(tokens[2], i16::MIN as int, i16::MAX as int) {
        PermsOutcome::InvalidLevel
    } else {
        let new_perms = signed_value(tokens[2]);
        if !(1 <= new_perms <= 99) {
            PermsOutcome::OutOfRange
        } else if new_perms <= own_perms {
            PermsOutcome::NotWeaker
        } else if own_pc_id != target_pc_id && target_perms <= own_perms {
            PermsOutcome::TargetNotWeaker
        } else {
            PermsOutcome::Change {
                new_perms: new_perms as i16,
                save: tokens.len() > 3 && tokens[3] == "save"@,
            }
        }
    }
}

/// Decides `/perms <pc_id> [new_level] ["save"]` once its target is known:
/// without a level it shows the target's level; a level must be a number
/// from 1 to 99, weaker than the commanding player's own, and may be given
/// to the commanding player or to a player whose level is weaker than the
/// commanding player's; `save` as the fourth word saves it to the account.
pub fn perms_decision(
    tokens: &Vec<String>,
    own_pc_id: i32,
    own_perms: i16,
    target_pc_id: i32,
    target_perms: i16,
) -> (r: PermsOutcome)
    ensures
        r == perms_outcome_of(texts(tokens@), own_pc_id, own_perms, target_pc_id, target_perms),
{
    let ghost t = texts(tokens@);
    if tokens.len() < 3 {
        return PermsOutcome::ShowLevel;
    }
    proof {
        assert(t[2] == tokens@[2]@);
    }
    let new_perms = match parse_i16(tokens[2].as_str()) {
        Some(v) => v,
        None => {
            return PermsOutcome::InvalidLevel;
        },
    };
    if !(1 <= new_perms && new_perms <= 99) {
        return PermsOutcome::OutOfRange;
    }
    if new_perms <= own_perms {
        return PermsOutcome::NotWeaker;
    }
    if own_pc_id != target_pc_id && target_perms <= own_perms {
        return PermsOutcome::TargetNotWeaker;
    }
    let save = tokens.len() > 3 && {
        proof {
            assert(t[3] == tokens@[3]@);
        }
        crate::text::str_eq(tokens[3].as_str(), "save")
    };
    PermsOutcome::Change { new_perms, save }
}

/// No `/perms` ever makes a level at or above the commanding player's own,
/// nor changes the level of another player whose level is at or above the
/// commanding player's; every level it sets lies from 1 to 99.
pub proof fn lemma_perms_never_escalate(
    tokens: Seq<Seq<char>>,
    own_pc_id: i32,
    own_perms: i16,
    target_pc_id: i32,
    target_perms: i16,
)
    ensures
        perms_outcome_of(tokens, own_pc_id, own_perms, target_pc_id, target_perms) matches PermsOutcome::Change {
            new_perms,
            ..
        } ==> {
            &&& own_perms < new_perms <= 99
            &&& 1 <= new_perms
            &&& target_pc_id == own_pc_id || own_perms < target_perms
        },
{
}

/// `/perms` with a new level changes the target's level to it whenever the
/// level is a number from 1 to 99, weaker than the commanding player's own,
/// and the target is the commanding player or a player weaker than it;
/// without a level it only shows the target's level, and a change is made on
/// no other inputs.
pub proof fn lemma_perms_change_when_allowed(
    tokens: Seq<Seq<char>>,
    own_pc_id: i32,
    own_perms: i16,
    target_pc_id: i32,
    target_perms: i16,
)
    ensures
        tokens.len() >= 3 && int_syntax(tokens[2], i16::MIN as int, i16::MAX as int) ==> {
            let v = signed_value(tokens[2]);
            (1 <= v <= 99 && own_perms < v && (own_pc_id == target_pc_id || own_perms < target_perms))
                <==> (perms_outcome_of(tokens, own_pc_id, own_perms, target_pc_id, target_perms) matches PermsOutcome::Change {
                new_perms,
                ..
            } && new_perms == v)
        },
        tokens.len() < 3 ==> perms_outcome_of(tokens, own_pc_id, own_perms, target_pc_id, target_perms)
            == PermsOutcome::ShowLevel,
        perms_outcome_of(tokens, own_pc_id, own_perms, target_pc_id, target_perms) is Change ==> tokens.len() >= 3
            && int_syntax(tokens[2], i16::MIN as int, i16::MAX as int),
        perms_outcome_of(tokens, own_pc_id, own_perms, target_pc_id, target_perms) matches PermsOutcome::Change {
            save,
            ..
        } ==> (save <==> tokens.len() > 3 && tokens[3] == "save"@),
{
}

/// How `/perms` is used.
pub fn perms_usage() -> (m: &'static str)
    ensures
        m@ == "Usage: /perms <pc_id> [new_level] [\"save\"]\nUse . for pc_id to select yourself\nLeave new_level empty to view the current level\nAdd \"save\" to save the new level to the account"@,
{
    "Usage: /perms <pc_id> [new_level] [\"save\"]\nUse . for pc_id to select yourself\nLeave new_level empty to view the current level\nAdd \"save\" to save the new level to the account"
}

/// The reply to a `/perms` outcome that needs no player's name, for a
/// commanding player of level `own_perms`: `None` for the outcomes whose
/// reply names the target.
pub fn perms_reply(outcome: PermsOutcome, own_perms: i16) -> (m: Option<String>)
    ensures
        m matches Some(s) ==> s@ == match outcome {
            PermsOutcome::InvalidLevel => "Invalid permissions level"@,
            PermsOutcome::OutOfRange => "Permissions level out of range [1, 99]"@,
            PermsOutcome::NotWeaker => "Can only grant weaker permissions than your own (> "@
                + crate::entity::decimal_text(own_perms as i32) + ")"@,
            PermsOutcome::TargetNotWeaker => "Can only change the permissions of a player with weaker ones than your own (> "@
                + crate::entity::decimal_text(own_perms as i32) + ")"@,
            _ => Seq::empty(),
        },
        m is None <==> (outcome is ShowLevel || outcome is Change),
{
    match outcome {
        PermsOutcome::InvalidLevel => Some(String::from_str("Invalid permissions level")),
        PermsOutcome::OutOfRange => Some(String::from_str("Permissions level out of range [1, 99]")),
        PermsOutcome::NotWeaker => {
            let mut s = String::from_str("Can only grant weaker permissions than your own (> ");
            let n = crate::entity::i32_to_string(own_perms as i32);
            s.append(n.as_str());
            s.append(")");
            Some(s)
        },
        PermsOutcome::TargetNotWeaker => {
            let mut s = String::from_str(
                "Can only change the permissions of a player with weaker ones than your own (> ",
            );
            let n = crate::entity::i32_to_string(own_perms as i32);
            s.append(n.as_str());
            s.append(")");
            Some(s)
        },
        _ => None,
    }
}

} // verus!
