//! The game a source labels an addon for.

use vstd::prelude::*;

use crate::text::{chars_of, string_of};

verus! {

/// The game a source labels an addon for.
///
/// Every source this build queries is asked for World of Warcraft: Forever,
/// but sources can tag addons with other games' labels too; anything this
/// build does not recognise is preserved as `Unknown` rather than dropped.
#[derive(Debug, PartialEq, Eq, Hash)]
pub enum Expansion {
    /// World of Warcraft: Forever — client 1.60.x.
    Forever,
    Unknown(String),
}

impl Clone for Expansion {
    fn clone(&self) -> (r: Self)
        ensures
            r == *self,
    {
        match self {
            Expansion::Forever => Expansion::Forever,
            Expansion::Unknown(label) => Expansion::Unknown(label.clone()),
        }
    }
}

impl Expansion {
    /// How the expansion reads to a person.
    pub fn label(&self) -> (r: String)
        ensures
            r@ == (match self {
                Expansion::Forever => "WoW Forever"@,
                Expansion::Unknown(label) => label@,
            }),
    {
        match self {
            Expansion::Forever => {
                let v = chars_of("WoW Forever");
                string_of(v.as_slice())
            },
            Expansion::Unknown(label) => label.clone(),
        }
    }

    pub fn is_forever(&self) -> (r: bool)
        ensures
            r == (*self is Forever),
    {
        match self {
            Expansion::Forever => true,
            Expansion::Unknown(_) => false,
        }
    }
}

} // verus!
