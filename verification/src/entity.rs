use vstd::prelude::*;
use vstd::string::*;

use crate::text::{decimal_digits, push_decimal};

verus! {

/// A point in the game world.
#[derive(Debug, Clone, Copy, PartialEq, Eq, Structural, Hash)]
pub struct Position {
    pub x: i32,
    pub y: i32,
    pub z: i32,
}

/// The identity of an entity known to the shard, by kind.
#[derive(Debug, Clone, Copy, PartialEq, Eq, Structural, Hash)]
pub enum EntityID {
    Player(i32),
    NPC(i32),
    Slider(i32),
    Egg(i32),
}

impl EntityID {
    /// Whether this is the identity of a player character.
    pub open spec fn spec_is_player(&self) -> bool {
        self is Player
    }

    /// Whether this is the identity of a player character.
    #[verifier::when_used_as_spec(spec_is_player)]
    pub fn is_player(&self) -> (r: bool)
        ensures
            r == self.spec_is_player(),
    {
        match self {
            EntityID::Player(_) => true,
            _ => false,
        }
    }
}

} // verus!

verus! {

/// The decimal text of `n`, as `i32`'s `Display` writes it: a minus sign
/// for a negative number, then the digits of its magnitude.
pub open spec fn decimal_text(n: i32) -> Seq<char> {
    if n < 0 {
        seq!['-'] + decimal_digits((-(n as int)) as nat)
    } else {
        decimal_digits(n as nat)
    }
}

/// `n` in decimal.
pub(crate) fn i32_to_string(n: i32) -> (s: String)
    ensures
        s@ == decimal_text(n),
{
    let mut s = String::new();
    if n < 0 {
        s.append("-");
        let m: i64 = -(n as i64);
        proof {
            reveal_strlit("-");
        }
        push_decimal(&mut s, m as usize);
    } else {
        push_decimal(&mut s, n as usize);
    }
    s
}

/// The text that `Debug` writes for an entity identity, e.g. `Player(5)`.
pub open spec fn debug_text(id: EntityID) -> Seq<char> {
    match id {
        EntityID::Player(n) => "Player("@ + decimal_text(n) + ")"@,
        EntityID::NPC(n) => "NPC("@ + decimal_text(n) + ")"@,
        EntityID::Slider(n) => "Slider("@ + decimal_text(n) + ")"@,
        EntityID::Egg(n) => "Egg("@ + decimal_text(n) + ")"@,
    }
}

impl EntityID {
    /// The text that `Debug` writes for this identity, e.g. `Player(5)`.
    pub fn debug_string(&self) -> (s: String)
        ensures
            s@ == debug_text(*self),
    {
        let (mut s, n) = match self {
            EntityID::Player(n) => (String::from_str("Player("), *n),
            EntityID::NPC(n) => (String::from_str("NPC("), *n),
            EntityID::Slider(n) => (String::from_str("Slider("), *n),
            EntityID::Egg(n) => (String::from_str("Egg("), *n),
        };
        let digits = i32_to_string(n);
        s.append(digits.as_str());
        s.append(")");
        s
    }
}

} // verus!
