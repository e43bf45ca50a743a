use vstd::prelude::*;

verus! {

/// A row of the `auth_token` table, keyed by `token`.
#[derive(Debug, Clone)]
pub struct Model {
    pub user: String,
    pub token: String,
}

impl Model {
    /// A copy of the row, equal to it.
    pub fn duplicate(&self) -> (r: Self)
        ensures
            r == *self,
    {
        Model { user: self.user.clone(), token: self.token.clone() }
    }
}

} // verus!
