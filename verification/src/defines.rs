use vstd::prelude::*;

verus! {

/// Map number of the overworld, the map every player starts in.
pub const ID_OVERWORLD: u32 = 0;

/// The account level of an ordinary player.
pub const CN_ACCOUNT_LEVEL__USER: u32 = 99;

} // verus!
