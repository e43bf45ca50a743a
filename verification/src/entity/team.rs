use vstd::prelude::*;

verus! {

/// A row of the `team` table, keyed by the team `number`.
#[derive(Debug, Clone)]
pub struct Model {
    pub number: i32,
    pub name: String,
}

impl Model {
    /// A copy of the row, equal to it.
    pub fn duplicate(&self) -> (r: Self)
        ensures
            r == *self,
    {
        Model { number: self.number, name: self.name.clone() }
    }
}

} // verus!
