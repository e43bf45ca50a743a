use vstd::prelude::*;

verus! {

/// A row of the `card` table: one printed card of a design, keyed by `id`.
#[derive(Debug, Clone)]
pub struct Model {
    pub id: String,
    pub design: i32,
}

impl Model {
    /// A copy of the row, equal to it.
    pub fn duplicate(&self) -> (r: Self)
        ensures
            r == *self,
    {
        Model { id: self.id.clone(), design: self.design }
    }
}

} // verus!
