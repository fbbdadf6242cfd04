use vstd::prelude::*;

use crate::chunk::EntityMap;
use std::collections::HashSet;

verus! {

/// The channel a player enters: the one the login server asked for, or,
/// when it asked for none (zero), the lowest-numbered of the least populated
/// channels. Only that search needs a channel to exist.
pub fn enter_channel(requested: u8, map: &EntityMap) -> (ch: u8)
    requires
        map.wf(),
        requested == 0 ==> map.channels() >= 1,
    ensures
        requested > 0 ==> ch == requested,
        requested == 0 ==> {
            &&& 1 <= ch <= map.channels()
            &&& forall|c: u8| 1 <= c <= map.channels() ==> map.channel_population(ch) <= #[trigger] map.channel_population(c)
            &&& forall|c: u8| 1 <= c < ch ==> map.channel_population(ch) < #[trigger] map.channel_population(c)
        },
{
    if requested > 0 {
        requested
    } else {
        map.get_min_pop_channel_num()
    }
}

/// Why a player cannot enter the shard.
#[derive(Debug, Clone, Copy, PartialEq, Eq, Structural)]
pub enum EnterRefusal {
    /// No login data waits under the serial key the client sent.
    LoginDataMissing,
    /// The same player is already entering.
    AlreadyEntering,
    /// The database has no such player for the account.
    PlayerNotFound,
    /// Loading the player from the database failed.
    LoadFailed,
}

/// How entering goes on after its first checks.
#[derive(Debug, Clone, Copy, PartialEq, Eq, Structural)]
pub enum EnterBegin {
    /// The player cannot enter.
    Refuse(EnterRefusal),
    /// Load the player from the database.
    LoadFromDatabase,
    /// The player is already in the shard as this player: kick that session
    /// and take its player over.
    KickExisting(i32),
}

/// How loading an entering player ended.
#[derive(Debug, Clone, Copy, PartialEq, Eq, Structural)]
pub enum LoadOutcome {
    Found,
    NotFound,
    Failed,
}

/// The players whose entering is under way, by unique identity.
pub struct EnteringPlayers {
    uids: HashSet<i64>,
}

impl EnteringPlayers {
    /// The identities of the players entering.
    pub closed spec fn entering(&self) -> Set<i64> {
        self.uids@
    }

    /// Nobody is entering.
    pub fn new() -> (e: Self)
        ensures
            e.entering() == Set::<i64>::empty(),
    {
        EnteringPlayers { uids: HashSet::new() }
    }

    /// The first checks of a player `uid` entering: its login data must have
    /// been found and it must not be entering already; then it counts as
    /// entering, and is either taken over from the session it already has in
    /// the shard (`existing_pc_id`) or loaded from the database.
    pub fn begin(&mut self, login_data_found: bool, uid: i64, existing_pc_id: Option<i32>) -> (r: EnterBegin)
        ensures
            !login_data_found ==> r == EnterBegin::Refuse(EnterRefusal::LoginDataMissing) && final(self).entering()
                == old(self).entering(),
            login_data_found && old(self).entering().contains(uid) ==> r == EnterBegin::Refuse(
                EnterRefusal::AlreadyEntering,
            ) && final(self).entering() == old(self).entering(),
            login_data_found && !old(self).entering().contains(uid) ==> {
                &&& final(self).entering() == old(self).entering().insert(uid)
                &&& r == match existing_pc_id {
                    Some(id) => EnterBegin::KickExisting(id),
                    None => EnterBegin::LoadFromDatabase,
                }
            },
    {
        broadcast use vstd::std_specs::hash::group_hash_axioms;

        if !login_data_found {
            return EnterBegin::Refuse(EnterRefusal::LoginDataMissing);
        }
        if self.uids.contains(&uid) {
            return EnterBegin::Refuse(EnterRefusal::AlreadyEntering);
        }
        self.uids.insert(uid);
        match existing_pc_id {
            Some(id) => EnterBegin::KickExisting(id),
            None => EnterBegin::LoadFromDatabase,
        }
    }

    /// Ends the entering of player `uid` once it was loaded (or taken over):
    /// it no longer counts as entering, and it enters only if it was found.
    pub fn finish(&mut self, uid: i64, outcome: LoadOutcome) -> (r: Result<(), EnterRefusal>)
        ensures
            final(self).entering() == old(self).entering().remove(uid),
            r == match outcome {
                LoadOutcome::Found => Ok(()),
                LoadOutcome::NotFound => Err(EnterRefusal::PlayerNotFound),
                LoadOutcome::Failed => Err(EnterRefusal::LoadFailed),
            },
    {
        broadcast use vstd::std_specs::hash::group_hash_axioms;

        self.uids.remove(&uid);
        match outcome {
            LoadOutcome::Found => Ok(()),
            LoadOutcome::NotFound => Err(EnterRefusal::PlayerNotFound),
            LoadOutcome::Failed => Err(EnterRefusal::LoadFailed),
        }
    }
}

/// Whatever the load gave, a player that began entering and then finished
/// no longer counts as entering, and the others are as they were.
pub proof fn lemma_begin_then_finish(
    before: &EnteringPlayers,
    during: &EnteringPlayers,
    after: &EnteringPlayers,
    uid: i64,
)
    requires
        !before.entering().contains(uid),
        during.entering() == before.entering().insert(uid),
        after.entering() == during.entering().remove(uid),
    ensures
        after.entering() == before.entering(),
{
    assert(after.entering() =~= before.entering());
}

} // verus!
