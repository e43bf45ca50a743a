//! Who is asking: the `token` cookie, looked up in the `auth_token` table.

use vstd::prelude::*;
use crate::entity::user;
use crate::state::AppState;
use crate::tables::{find, has_key, lemma_find_at, Keyed};

verus! {

/// Whether the request carries a `token` cookie.
pub struct IsAuth(pub bool);

/// The signed-in user.
pub struct Auth(pub user::Model);

/// Why a request that needs a signed-in user is sent to `/signin`; with
/// `remove_cookie` the `token` cookie is removed too.
pub struct Rejection {
    pub remove_cookie: bool,
}

impl IsAuth {
    /// A request with a `token` cookie counts as signed in: the token is
    /// looked up, and only a failed lookup, which cannot happen here, would
    /// turn it away.
    pub fn from_request_parts(state: &AppState, token: Option<&String>) -> (r: Result<IsAuth, Rejection>)
        requires
            state.wf(),
        ensures
            r matches Ok(a) && a.0 == token.is_some(),
    {
        match token {
            Some(tok) => {
                let _lookup = state.find_token(tok);
                Ok(IsAuth(true))
            },
            None => Ok(IsAuth(false)),
        }
    }
}

impl Auth {
    /// The user whose token the request carries. Without a `token` cookie the
    /// request goes to `/signin`; with an unknown token it goes there too and
    /// the cookie is removed.
    pub fn from_request_parts(state: &AppState, token: Option<&String>) -> (r: Result<Auth, Rejection>)
        requires
            state.wf(),
        ensures
            match token {
                None => r matches Err(rej) && !rej.remove_cookie,
                Some(t) => match find(state@.auth_tokens, t@) {
                    Some(row) => r matches Ok(a) && find(state@.users, row.user@) == Some(a.0),
                    None => r matches Err(rej) && rej.remove_cookie,
                },
            },
    {
        match token {
            Some(tok) => {
                match state.get_user_for_token(tok) {
                    Some(u) => Ok(Auth(u)),
                    None => {
                        proof {
                            if let Some(row) = find(state@.auth_tokens, tok@) {
                                let i = choose|i: int| 0 <= i < state@.auth_tokens.len() && #[trigger] state@.auth_tokens[i].key() == tok@;
                                lemma_find_at(state@.auth_tokens, i);
                                assert(has_key(state@.users, state@.auth_tokens[i].user@));
                            }
                        }
                        Err(Rejection { remove_cookie: true })
                    },
                }
            },
            None => Err(Rejection { remove_cookie: false }),
        }
    }
}

} // verus!
