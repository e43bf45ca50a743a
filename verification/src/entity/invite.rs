use vstd::prelude::*;

verus! {

/// A row of the `invite` table, keyed by `code`.
#[derive(Debug, Clone)]
pub struct Model {
    pub code: String,
    pub inviter: String,
}

impl Model {
    /// A copy of the row, equal to it.
    pub fn duplicate(&self) -> (r: Self)
        ensures
            r == *self,
    {
        Model { code: self.code.clone(), inviter: self.inviter.clone() }
    }
}

} // verus!
