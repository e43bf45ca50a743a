use vstd::prelude::*;

verus! {

/// A row of the `card_design` table, keyed by `id`.
#[derive(Debug, Clone)]
pub struct Model {
    pub id: i32,
    pub team: i32,
    pub name: String,
    pub note: String,
    pub year: i16,
}

impl Model {
    /// A copy of the row, equal to it.
    pub fn duplicate(&self) -> (r: Self)
        ensures
            r == *self,
    {
        Model {
            id: self.id,
            team: self.team,
            name: self.name.clone(),
            note: self.note.clone(),
            year: self.year,
        }
    }
}

} // verus!
