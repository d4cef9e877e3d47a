//! A registered mutator.
use vstd::prelude::*;

verus! {

/// A registered mutator.
#[derive(Clone, Copy, Debug, PartialEq, Eq)]
pub struct Mutator {
    /// The stable name, `family.transform`.
    pub name: &'static str,
    /// One-line description.
    pub description: &'static str,
    /// Whether the mutator is enabled by the default preset.
    pub default_on: bool,
    /// Academic or industry aliases that resolve to this mutator.
    pub aliases: &'static [&'static str],
}

/// What a registered mutator says of itself.
pub struct Entry {
    pub name: Seq<char>,
    pub description: Seq<char>,
    pub default_on: bool,
    pub aliases: Seq<Seq<char>>,
}

impl View for Mutator {
    type V = Entry;

    open spec fn view(&self) -> Entry {
        Entry {
            name: self.name@,
            description: self.description@,
            default_on: self.default_on,
            aliases: self.aliases@.map_values(|alias: &'static str| alias@),
        }
    }
}

} // verus!
