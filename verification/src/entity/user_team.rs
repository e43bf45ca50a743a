use vstd::prelude::*;
use super::clone_opt_string;

verus! {

/// A row of the `user_team` table: the team a user belongs to, keyed by `user`.
/// `invite` holds the invite code with which the user became a team admin.
#[derive(Debug, Clone)]
pub struct Model {
    pub user: String,
    pub team: i32,
    pub is_admin: bool,
    pub invite: Option<String>,
}

impl Model {
    /// A copy of the row, equal to it.
    pub fn duplicate(&self) -> (r: Self)
        ensures
            r == *self,
    {
        Model {
            user: self.user.clone(),
            team: self.team,
            is_admin: self.is_admin,
            invite: clone_opt_string(&self.invite),
        }
    }
}

} // verus!
