use vstd::prelude::*;

verus! {

/// A row of the `scan` table: `username` scanned `card` at `scan_time`
/// (microseconds since the Unix epoch); keyed by the pair (card, username).
#[derive(Debug, Clone)]
pub struct Model {
    pub username: String,
    pub card: String,
    pub scan_time: i64,
}

impl Model {
    /// A copy of the row, equal to it.
    pub fn duplicate(&self) -> (r: Self)
        ensures
            r == *self,
    {
        Model { username: self.username.clone(), card: self.card.clone(), scan_time: self.scan_time }
    }
}

} // verus!
