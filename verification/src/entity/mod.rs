//! Rows of the site's tables, one module per table.

pub mod user;
pub mod team;
pub mod user_team;
pub mod invite;
pub mod auth_token;
pub mod card_design;
pub mod card;
pub mod card_ability;
pub mod scan;

use vstd::prelude::*;

verus! {

/// Copies an optional string; the copy equals the source.
pub fn clone_opt_string(s: &Option<String>) -> (r: Option<String>)
    ensures
        r == *s,
{
    match s {
        Some(v) => Some(v.clone()),
        None => None,
    }
}

} // verus!
