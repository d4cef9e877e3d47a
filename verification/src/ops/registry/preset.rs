//! A named set of mutators.
use vstd::prelude::*;

verus! {

/// A named set of mutators.
#[derive(Clone, Copy, Debug)]
pub struct Preset {
    /// The preset name, written `@name` in selectors.
    pub name: &'static str,
    /// One-line description.
    pub description: &'static str,
    /// Families and names that make up the preset.
    pub members: &'static [&'static str],
}

/// What a preset says of itself.
pub struct Group {
    pub name: Seq<char>,
    pub description: Seq<char>,
    pub members: Seq<Seq<char>>,
}

impl View for Preset {
    type V = Group;

    open spec fn view(&self) -> Group {
        Group {
            name: self.name@,
            description: self.description@,
            members: self.members@.map_values(|member: &'static str| member@),
        }
    }
}

} // verus!
