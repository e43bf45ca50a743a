use vstd::prelude::*;

verus! {

/// A row of the `card_ability` table, keyed by `id`; `card` is the design it belongs to.
#[derive(Debug, Clone)]
pub struct Model {
    pub id: i32,
    pub card: i32,
    pub level: i8,
    pub amount: String,
    pub title: String,
    pub description: String,
}

impl Model {
    /// A copy of the row, equal to it.
    pub fn duplicate(&self) -> (r: Self)
        ensures
            r == *self,
    {
        Model {
            id: self.id,
            card: self.card,
            level: self.level,
            amount: self.amount.clone(),
            title: self.title.clone(),
            description: self.description.clone(),
        }
    }
}

} // verus!
