//! The values a page template is rendered with, and the ones every page of a
//! signed-in user shares.

use vstd::prelude::*;
use crate::entity::user;
use crate::state::{AppState, adds_teams, member_team, team_name, only_new_teams, team_inserts, lemma_only_new_teams_refl};
use crate::tables::{Keyed, find, has_key, keys_unique, lemma_find_at, lemma_push_fresh, lemma_update_same_key};

verus! {

/// A value a template can show.
#[derive(Debug, Clone)]
pub enum CtxValue {
    Bool(bool),
    Int(i64),
    Str(String),
    OptInt(Option<i32>),
    Count(usize),
}

/// One named value of a template context.
#[derive(Debug, Clone)]
pub struct Entry {
    pub key: String,
    pub value: CtxValue,
}

impl Keyed for Entry {
    type Key = Seq<char>;

    open spec fn key(self) -> Seq<char> {
        self.key@
    }
}

/// The named values a template is rendered with; a name holds one value.
pub struct Context {
    entries: Vec<Entry>,
}

impl View for Context {
    type V = Seq<Entry>;

    closed spec fn view(&self) -> Seq<Entry> {
        self.entries@
    }
}

impl Context {
    /// No name is used twice.
    pub open spec fn wf(&self) -> bool {
        keys_unique(self@)
    }

    /// The value named `key`, if any.
    pub open spec fn get(&self, key: Seq<char>) -> Option<CtxValue> {
        match find(self@, key) {
            Some(e) => Some(e.value),
            None => None,
        }
    }

    /// The number of names set.
    pub open spec fn size(&self) -> nat {
        self@.len()
    }

    /// An empty context.
    pub fn new() -> (r: Context)
        ensures
            r.wf(),
            r.size() == 0,
            forall|k: Seq<char>| #[trigger] r.get(k) is None,
    {
        Context { entries: Vec::new() }
    }

    /// Sets `key` to `value`, replacing the value it had.
    pub fn insert(&mut self, key: &str, value: CtxValue)
        requires
            old(self).wf(),
        ensures
            final(self).wf(),
            final(self).get(key@) == Some(value),
            forall|k: Seq<char>| k != key@ ==> #[trigger] final(self).get(k) == old(self).get(k),
            final(self).size() == old(self).size() + (if old(self).get(key@) is Some { 0int } else { 1int }),
    {
        let k = String::from_str(key);
        let e = Entry { key: k, value };
        let mut i: usize = 0;
        while i < self.entries.len()
            invariant
                i <= self.entries.len(),
                self.entries@ == old(self).entries@,
                e.key@ == key@,
                e.value == value,
                keys_unique(self@),
                forall|j: int| 0 <= j < i ==> #[trigger] self@[j].key() != key@,
            decreases self.entries.len() - i,
        {
            if self.entries[i].key == e.key {
                proof {
                    lemma_update_same_key(self@, i as int, e);
                    lemma_find_at(self@, i as int);
                }
                let ghost e2 = e;
                self.entries.set(i, e);
                proof {
                    assert(self@ == old(self)@.update(i as int, e2));
                    assert(find(self@, e2.key()) == Some(e2));
                    assert(e2.value == value);
                    assert(e2.key() == key@);
                }
                return;
            }
            i = i + 1;
        }
        proof {
            lemma_push_fresh(self@, e);
        }
        self.entries.push(e);
    }

    /// The entries, in the order they were first set.
    pub fn entries(&self) -> (r: &Vec<Entry>)
        ensures
            r@ == self@,
    {
        &self.entries
    }
}

/// `c` holds `b` under `key`.
pub open spec fn has_bool(c: &Context, key: Seq<char>, b: bool) -> bool {
    c.get(key) == Some(CtxValue::Bool(b))
}

/// `c` holds a string with view `s` under `key`.
pub open spec fn has_str(c: &Context, key: Seq<char>, s: Seq<char>) -> bool {
    c.get(key) matches Some(CtxValue::Str(v)) && v@ == s
}

/// `c` holds the number `n` under `key`.
pub open spec fn has_int(c: &Context, key: Seq<char>, n: int) -> bool {
    c.get(key) matches Some(CtxValue::Int(v)) && v == n
}

/// The values `build_context` sets for `user` against the tables `v`.
pub open spec fn user_entries(v: crate::tables::DbView, user: Option<user::Model>, c: &Context) -> bool {
    &&& has_bool(c, "is_auth"@, user is Some)
    &&& match user {
        None => true,
        Some(u) => {
            &&& has_str(c, "username"@, u.username@)
            &&& has_bool(c, "is_site_admin"@, u.is_admin)
            &&& match find(v.user_teams, u.username@) {
                None => has_bool(c, "has_team"@, false),
                Some(m) => {
                    &&& has_bool(c, "has_team"@, true)
                    &&& has_str(c, "team_name"@, team_name(v, m.team))
                    &&& has_int(c, "team_number"@, m.team as int)
                    &&& has_bool(c, "is_team_admin"@, m.is_admin)
                },
            }
        },
    }
}

/// Every name set in `c` is one of `keys`.
pub open spec fn only_keys(c: &Context, keys: Set<Seq<char>>) -> bool {
    forall|k: Seq<char>| #[trigger] c.get(k) is Some ==> keys.contains(k)
}

/// The names `build_context` sets for `user` against the tables `v`.
pub open spec fn user_keys(v: crate::tables::DbView, user: Option<user::Model>) -> Set<Seq<char>> {
    match user {
        None => set!["is_auth"@],
        Some(u) => if find(v.user_teams, u.username@) is Some {
            set!["is_auth"@, "username"@, "is_site_admin"@, "has_team"@, "team_name"@, "team_number"@, "is_team_admin"@]
        } else {
            set!["is_auth"@, "username"@, "is_site_admin"@, "has_team"@]
        },
    }
}

/// The length and first character of each name a page context uses (and
/// one more character where two names share both), which tell the names
/// apart.
pub proof fn lemma_context_key_shapes()
    ensures
        "is_auth"@.len() == 7 && "is_auth"@[0] == 'i',
        "username"@.len() == 8 && "username"@[0] == 'u',
        "is_site_admin"@.len() == 13 && "is_site_admin"@[0] == 'i' && "is_site_admin"@[3] == 's',
        "has_team"@.len() == 8 && "has_team"@[0] == 'h',
        "team_name"@.len() == 9 && "team_name"@[0] == 't',
        "team_number"@.len() == 11 && "team_number"@[0] == 't',
        "is_team_admin"@.len() == 13 && "is_team_admin"@[0] == 'i' && "is_team_admin"@[3] == 't',
        "site_name"@.len() == 9 && "site_name"@[0] == 's',
        "site_version"@.len() == 12 && "site_version"@[0] == 's',
        "random_design"@.len() == 13 && "random_design"@[0] == 'r',
        "is_error"@.len() == 8 && "is_error"@[0] == 'i',
        "profile_pic"@.len() == 11 && "profile_pic"@[0] == 'p',
        "cards_collected"@.len() == 15 && "cards_collected"@[0] == 'c',
{
    reveal_strlit("is_auth");
    reveal_strlit("username");
    reveal_strlit("is_site_admin");
    reveal_strlit("has_team");
    reveal_strlit("team_name");
    reveal_strlit("team_number");
    reveal_strlit("is_team_admin");
    reveal_strlit("site_name");
    reveal_strlit("site_version");
    reveal_strlit("random_design");
    reveal_strlit("is_error");
    reveal_strlit("profile_pic");
    reveal_strlit("cards_collected");
}

/// What `build_context` gives for `user` against the tables `v`: its values
/// and no others.
pub open spec fn user_context(v: crate::tables::DbView, user: Option<user::Model>, c: &Context) -> bool {
    &&& c.wf()
    &&& user_entries(v, user, c)
    &&& only_keys(c, user_keys(v, user))
}

/// The values every page of the site shows about its visitor: whether they
/// are signed in and, if so, their name, whether they are a site admin, and
/// their team (creating its row, with an empty name, where it has none).
pub fn build_context(user: Option<user::Model>, state: &mut AppState) -> (r: Context)
    requires
        old(state).wf(),
    ensures
        final(state).wf(),
        user_context(old(state)@, user, &r),
        adds_teams(
            old(state)@,
            final(state)@,
            |n: i32| user matches Some(u) && member_team(old(state)@, u.username@) == Some(n),
        ),
        final(state).pending_writes() == old(state).pending_writes() + team_inserts(
            old(state)@,
            final(state)@,
        ),
{
    proof {
        lemma_only_new_teams_refl(state@);
        lemma_context_key_shapes();
    }
    let mut context = Context::new();
    context.insert("is_auth", CtxValue::Bool(user.is_some()));
    match user {
        Some(u) => {
            context.insert("username", CtxValue::Str(u.username.clone()));
            context.insert("is_site_admin", CtxValue::Bool(u.is_admin));
            let membership = state.find_membership(&u.username);
            context.insert("has_team", CtxValue::Bool(membership.is_some()));
            match membership {
                Some(m) => {
                    let ghost v0 = state@;
                    let team = state.get_team(m.team);
                    proof {
                        if !has_key(v0.teams, m.team) {
                            lemma_push_fresh(v0.teams, team);
                        }
                    }
                    context.insert("team_name", CtxValue::Str(team.name));
                    context.insert("team_number", CtxValue::Int(team.number as i64));
                    context.insert("is_team_admin", CtxValue::Bool(state.is_team_admin(&u.username)));
                    proof {
                        lemma_find_unchanged_user_teams(old(state)@, state@, u.username@);
                    }
                },
                None => {
                    proof {
                        assert(state.pending_writes() + team_inserts(state@, state@) =~= state.pending_writes());
                    }
                },
            }
        },
        None => {
            proof {
                assert(state.pending_writes() + team_inserts(state@, state@) =~= state.pending_writes());
            }
        },
    }
    context
}

proof fn lemma_find_unchanged_user_teams(a: crate::tables::DbView, b: crate::tables::DbView, k: Seq<char>)
    requires
        only_new_teams(a, b),
    ensures
        find(b.user_teams, k) == find(a.user_teams, k),
{
}

} // verus!
