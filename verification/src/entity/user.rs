use vstd::prelude::*;
use super::clone_opt_string;

verus! {

/// A row of the `user` table, keyed by `username`.
#[derive(Debug, Clone)]
pub struct Model {
    pub username: String,
    pub password: String,
    pub invited_with_code: Option<String>,
    pub is_admin: bool,
    pub is_verified: bool,
}

impl Model {
    /// A copy of the row, equal to it.
    pub fn duplicate(&self) -> (r: Self)
        ensures
            r == *self,
    {
        Model {
            username: self.username.clone(),
            password: self.password.clone(),
            invited_with_code: clone_opt_string(&self.invited_with_code),
            is_admin: self.is_admin,
            is_verified: self.is_verified,
        }
    }
}

} // verus!
