//! Adding and removing owners of the published packages.

use vstd::prelude::*;

verus! {

/// What to do with an owner.
#[derive(Debug, Clone, Copy, PartialEq, Eq, Structural)]
pub enum Action {
    Add,
    Remove,
}

impl Default for Action {
    fn default() -> (r: Action)
        ensures
            r == Action::Add,
    {
        Action::Add
    }
}

impl Action {
    pub open spec fn flag_spec(self) -> Seq<char> {
        match self {
            Action::Add => "--add"@,
            Action::Remove => "--remove"@,
        }
    }

    pub open spec fn description_spec(self) -> Seq<char> {
        match self {
            Action::Add => "adding"@,
            Action::Remove => "removing"@,
        }
    }

    /// The flag of `cargo owner` for this action.
    pub fn flag(&self) -> (r: &'static str)
        ensures
            r@ == self.flag_spec(),
    {
        match self {
            Action::Add => "--add",
            Action::Remove => "--remove",
        }
    }

    /// The word for this action in a report.
    pub fn description(&self) -> (r: &'static str)
        ensures
            r@ == self.description_spec(),
    {
        match self {
            Action::Add => "adding",
            Action::Remove => "removing",
        }
    }
}

} // verus!
