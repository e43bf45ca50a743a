//! The JSON and form endpoints under `/api`: what each answers, and what it
//! changes in the tables.

use vstd::prelude::*;
use crate::entity::{auth_token, card, card_ability, card_design, invite, scan, team, user, user_team};
use crate::state::{AppState, Fault, adds_teams, member_team, lemma_adds_teams_same, lemma_adds_teams_trans, new_user_row, only_new_teams, team_inserts, team_or_new, team_name, lemma_only_new_teams_refl, lemma_only_new_teams_trans, lemma_new_teams_names, lemma_team_name_stable};
use crate::structs::{CardAbilityData, CardData, ChangePassword, GetCardsParams, JoinTeamData, LoginForm, TeamData, UserData, UserTeamData, card_data_of, ability_data_of};
use crate::tables::{DbView, DbWrite, Keyed, find, has_key, keys_unique, lemma_find_at, lemma_push_fresh, lemma_remove_at, lemma_update_same_key, pos_auth_token, pos_invite, pos_user, pos_user_team, pos_team, pos_scan};
use crate::secrets::{password_check, is_safe_char};
use crate::decimal::{parse_i32, spec_parse_i32, fmt_i32, spec_fmt_i32};

verus! {

/// What an endpoint answers.
pub enum Reply {
    /// A redirect to the path.
    Redirect(String),
    /// Sets the `token` cookie (path `/`) to `token` and redirects to `to`.
    SignedIn { token: String, to: String },
    /// A plain-text body with the status.
    Text { status: u16, body: String },
    /// An empty body with the status.
    Status(u16),
    /// A JSON list of cards.
    Cards(Vec<CardData>),
    /// A JSON card.
    Card(CardData),
    /// A JSON user.
    User(UserData),
    /// A JSON list of users.
    Users(Vec<UserData>),
    /// A JSON team.
    Team(TeamData),
    /// A JSON list of team members.
    Members(Vec<UserTeamData>),
}

/// `r` is a redirect to `path`.
pub open spec fn is_redirect(r: Reply, path: Seq<char>) -> bool {
    r matches Reply::Redirect(p) && p@ == path
}

/// `r` is a plain-text answer with `status` and `body`.
pub open spec fn is_text(r: Reply, status: u16, body: Seq<char>) -> bool {
    r matches Reply::Text { status: s, body: b } && s == status && b@ == body
}

/// `POST /api/login`: a known user with the right password gets a fresh
/// token and goes to the dashboard; anyone else goes back to the sign-in page
/// with an error.
pub fn login(state: &mut AppState, form: &LoginForm) -> (r: Result<Reply, Fault>)
    requires
        old(state).wf(),
    ensures
        final(state).wf(),
        match find(old(state)@.users, form.username@) {
            None => {
                &&& r matches Ok(rep) && is_redirect(rep, "/signin?error=invalid"@)
                &&& final(state)@ == old(state)@
                &&& final(state).pending_writes() == old(state).pending_writes()
            },
            Some(u) => match password_check(u.password@, form.password@) {
                None => {
                    &&& r == Err::<Reply, Fault>(Fault::MalformedPasswordHash)
                    &&& final(state)@ == old(state)@
                    &&& final(state).pending_writes() == old(state).pending_writes()
                },
                Some(false) => {
                    &&& r matches Ok(rep) && is_redirect(rep, "/signin?error=invalid"@)
                    &&& final(state)@ == old(state)@
                    &&& final(state).pending_writes() == old(state).pending_writes()
                },
                Some(true) => match r {
                    Ok(Reply::SignedIn { token, to }) => {
                        let t = final(state)@.auth_tokens.last();
                        &&& to@ == "/dashboard"@
                        &&& t.token@ == token@
                        &&& t.user@ == form.username@
                        &&& token@.len() == 64
                        &&& forall|i: int| 0 <= i < token@.len() ==> is_safe_char(#[trigger] token@[i])
                        &&& final(state)@ == (DbView { auth_tokens: old(state)@.auth_tokens.push(t), ..old(state)@ })
                        &&& final(state).pending_writes() == old(state).pending_writes().push(DbWrite::InsertAuthToken(t))
                    },
                    Err(f) => {
                        &&& f == Fault::IdCollision
                        &&& final(state)@ == old(state)@
                        &&& final(state).pending_writes() == old(state).pending_writes()
                    },
                    _ => false,
                },
            },
        },
{
    match state.find_user(&form.username) {
        Some(u) => {
            match state.try_check_user_password(&u.password, &form.password) {
                None => Err(Fault::MalformedPasswordHash),
                Some(false) => Ok(Reply::Redirect(String::from_str("/signin?error=invalid"))),
                Some(true) => {
                    proof {
                        let i = choose|i: int| 0 <= i < state@.users.len() && #[trigger] state@.users[i].key() == form.username@;
                        lemma_find_at(state@.users, i);
                    }
                    match state.register_token(&u.username) {
                        Ok(token) => Ok(Reply::SignedIn { token, to: String::from_str("/dashboard") }),
                        Err(f) => Err(f),
                    }
                },
            }
        },
        None => Ok(Reply::Redirect(String::from_str("/signin?error=invalid"))),
    }
}

/// `GET /api/logout`: forgets the request's token and goes home. The
/// request must carry a `token` cookie.
pub fn logout(state: &mut AppState, token: Option<&String>) -> (r: Result<Reply, Fault>)
    requires
        old(state).wf(),
    ensures
        final(state).wf(),
        match token {
            None => {
                &&& r == Err::<Reply, Fault>(Fault::NoTokenCookie)
                &&& final(state)@ == old(state)@
                &&& final(state).pending_writes() == old(state).pending_writes()
            },
            Some(t) => {
                &&& r matches Ok(rep) && is_redirect(rep, "/"@)
                &&& final(state)@ == (DbView { auth_tokens: final(state)@.auth_tokens, ..old(state)@ })
                &&& !has_key(final(state)@.auth_tokens, t@)
                &&& forall|k: Seq<char>| k != t@ ==> #[trigger] find(final(state)@.auth_tokens, k) == find(old(state)@.auth_tokens, k)
                &&& forall|k: Seq<char>| #[trigger] has_key(final(state)@.auth_tokens, k) == (has_key(old(state)@.auth_tokens, k) && k != t@)
            },
        },
{
    match token {
        None => Err(Fault::NoTokenCookie),
        Some(t) => {
            let tokens = state.auth_tokens_rows();
            match pos_auth_token(tokens, t, tokens.len()) {
                Some(i) => {
                    proof {
                        lemma_remove_at(state@.auth_tokens, i as int);
                    }
                    state.delete_auth_token_at(i);
                },
                None => {},
            }
            Ok(Reply::Redirect(String::from_str("/")))
        },
    }
}

/// `POST /api/register`: a free user name gets a new user (with the table's
/// defaults), a fresh token and the dashboard; a taken one goes back to the
/// sign-up page with an error.
pub fn register(state: &mut AppState, form: &LoginForm) -> (r: Result<Reply, Fault>)
    requires
        old(state).wf(),
    ensures
        final(state).wf(),
        if has_key(old(state)@.users, form.username@) {
            &&& r matches Ok(rep) && is_redirect(rep, "/signup?error=taken"@)
            &&& final(state)@ == old(state)@
            &&& final(state).pending_writes() == old(state).pending_writes()
        } else {
            match r {
                Ok(Reply::SignedIn { token, to }) => {
                    let u = final(state)@.users.last();
                    let t = final(state)@.auth_tokens.last();
                    &&& to@ == "/dashboard"@
                    &&& new_user_row(u, form.username@, form.password@)
                    &&& t.token@ == token@
                    &&& t.user@ == form.username@
                    &&& token@.len() == 64
                    &&& forall|i: int| 0 <= i < token@.len() ==> is_safe_char(#[trigger] token@[i])
                    &&& final(state)@ == (DbView {
                        users: old(state)@.users.push(u),
                        auth_tokens: old(state)@.auth_tokens.push(t),
                        ..old(state)@
                    })
                    &&& final(state).pending_writes() == old(state).pending_writes().push(DbWrite::InsertUser(u)).push(DbWrite::InsertAuthToken(t))
                },
                Err(Fault::HashFailed) => {
                    &&& form.password@.len() >= 0x4000_0000
                    &&& final(state)@ == old(state)@
                    &&& final(state).pending_writes() == old(state).pending_writes()
                },
                Err(Fault::IdCollision) => {
                    let u = final(state)@.users.last();
                    &&& new_user_row(u, form.username@, form.password@)
                    &&& final(state)@ == (DbView { users: old(state)@.users.push(u), ..old(state)@ })
                    &&& final(state).pending_writes() == old(state).pending_writes().push(DbWrite::InsertUser(u))
                },
                _ => false,
            }
        },
{
    if state.find_user(&form.username).is_some() {
        return Ok(Reply::Redirect(String::from_str("/signup?error=taken")));
    }
    match state.create_user(None, &form.username, &form.password) {
        Ok(()) => {},
        Err(f) => {
            return Err(f);
        },
    }
    proof {
        lemma_find_at(state@.users, state@.users.len() - 1);
    }
    match state.register_token(&form.username) {
        Ok(token) => Ok(Reply::SignedIn { token, to: String::from_str("/dashboard") }),
        Err(f) => Err(f),
    }
}

/// `PUT /api/invites`: a site admin or verified user gets a fresh invite code;
/// anyone else is refused.
pub fn create_invite_code(user: &user::Model, state: &mut AppState) -> (r: Result<Reply, Fault>)
    requires
        old(state).wf(),
    ensures
        final(state).wf(),
        if user.is_admin || user.is_verified {
            match r {
                Ok(Reply::Text { status, body }) => {
                    let inv = final(state)@.invites.last();
                    &&& status == 200
                    &&& inv.code@ == body@
                    &&& inv.inviter@ == user.username@
                    &&& body@.len() == 64
                    &&& forall|i: int| 0 <= i < body@.len() ==> is_safe_char(#[trigger] body@[i])
                    &&& final(state)@ == (DbView { invites: old(state)@.invites.push(inv), ..old(state)@ })
                    &&& final(state).pending_writes() == old(state).pending_writes().push(DbWrite::InsertInvite(inv))
                },
                Err(f) => {
                    &&& f == Fault::IdCollision
                    &&& final(state)@ == old(state)@
                    &&& final(state).pending_writes() == old(state).pending_writes()
                },
                _ => false,
            }
        } else {
            &&& r matches Ok(rep) && is_text(rep, 403, "You are not allowed to create invite codes"@)
            &&& final(state)@ == old(state)@
            &&& final(state).pending_writes() == old(state).pending_writes()
        },
{
    if user.is_admin || user.is_verified {
        match state.create_invite_code(&user.username) {
            Ok(code) => Ok(Reply::Text { status: 200, body: code }),
            Err(f) => Err(f),
        }
    } else {
        Ok(Reply::Text { status: 403, body: String::from_str("You are not allowed to create invite codes") })
    }
}


/// Whether `user` may manage team `team_num`: site admins may; others must
/// be an admin of that very team. `None` where a non-admin belongs to no team
/// (the site gives up there).
pub open spec fn may_manage(v: DbView, user: user::Model, team_num: u32) -> Option<bool> {
    if user.is_admin {
        Some(true)
    } else {
        match find(v.user_teams, user.username@) {
            None => None,
            Some(m) => Some(m.team == team_num as i32 && m.is_admin),
        }
    }
}

/// `user` is not a site admin and belongs to team `n`: checking whether they
/// may manage a team looks their own team up.
pub open spec fn checks_own_team(v: DbView, user: user::Model, n: i32) -> bool {
    !user.is_admin && (find(v.user_teams, user.username@) matches Some(m) && m.team == n)
}

/// The permission check of the team endpoints (`may_manage`); looking up the
/// caller's team creates its row, with an empty name, where it has none.
pub fn can_manage_team(state: &mut AppState, user: &user::Model, team_num: u32) -> (r: Result<bool, Fault>)
    requires
        old(state).wf(),
    ensures
        final(state).wf(),
        match may_manage(old(state)@, *user, team_num) {
            None => r == Err::<bool, Fault>(Fault::NotMember),
            Some(b) => r == Ok::<bool, Fault>(b),
        },
        adds_teams(old(state)@, final(state)@, |n: i32| checks_own_team(old(state)@, *user, n)),
        final(state).pending_writes() == old(state).pending_writes() + team_inserts(old(state)@, final(state)@),
        user.is_admin ==> final(state)@ == old(state)@,
        r is Err ==> final(state)@ == old(state)@,
{
    proof {
        lemma_only_new_teams_refl(state@);
    }
    if user.is_admin {
        proof {
            assert(state.pending_writes() + team_inserts(state@, state@) =~= state.pending_writes());
        }
        return Ok(true);
    }
    let ghost v0 = state@;
    match state.get_user_team(&user.username) {
        None => Err(Fault::NotMember),
        Some(t) => {
            proof {
                let m = find(v0.user_teams, user.username@).unwrap();
                if !has_key(v0.teams, m.team) {
                    lemma_push_fresh(v0.teams, t);
                }
            }
            let is_admin = state.is_team_admin(&user.username);
            Ok(t.number == team_num as i32 && is_admin)
        },
    }
}


/// `GET /api/team/{team_num}`: the team with that number, or 404.
pub fn get_team(state: &AppState, team_num: u32) -> (r: Reply)
    requires
        state.wf(),
    ensures
        match find(state@.teams, team_num as i32) {
            Some(t) => r matches Reply::Team(d) && d.number == t.number && d.name@ == t.name@,
            None => r matches Reply::Status(404),
        },
{
    match state.find_team(team_num as i32) {
        Some(t) => Reply::Team(TeamData { number: t.number, name: t.name }),
        None => Reply::Status(404),
    }
}

/// `final` is `old` with team `n` renamed to `name` (and created first where
/// it had no row), nothing else changed.
pub open spec fn team_renamed(old: DbView, new: DbView, n: i32, name: Seq<char>) -> bool {
    &&& new == (DbView { teams: new.teams, ..old })
    &&& find(new.teams, n) matches Some(t) && t.name@ == name
    &&& forall|k: i32| k != n ==> #[trigger] find(new.teams, k) == find(old.teams, k)
    &&& forall|k: i32| #[trigger] has_key(new.teams, k) == (has_key(old.teams, k) || k == n)
}

/// `POST /api/team/{team_num}`: renames the team, where the caller may manage
/// it (`may_manage`); answers an empty 200 either way.
pub fn modify_team(state: &mut AppState, user: &user::Model, team_num: u32, form: &TeamData) -> (r: Result<Reply, Fault>)
    requires
        old(state).wf(),
    ensures
        final(state).wf(),
        old(state).pending_writes().is_prefix_of(final(state).pending_writes()),
        match may_manage(old(state)@, *user, team_num) {
            None => r == Err::<Reply, Fault>(Fault::NotMember) && final(state)@ == old(state)@,
            Some(false) => r matches Ok(Reply::Status(200))
                && adds_teams(old(state)@, final(state)@, |n: i32| checks_own_team(old(state)@, *user, n)),
            Some(true) => if user.is_admin && !has_key(old(state)@.teams, team_num as i32) {
                r == Err::<Reply, Fault>(Fault::NoSuchTeam) && final(state)@ == old(state)@
            } else {
                r matches Ok(Reply::Status(200)) && team_renamed(old(state)@, final(state)@, team_num as i32, form.name@)
            },
        },
{
    let ghost v0 = state@;
    let allowed = match can_manage_team(state, user, team_num) {
        Ok(b) => b,
        Err(f) => {
            return Err(f);
        },
    };
    proof {
        assert(old(state).pending_writes().is_prefix_of(state.pending_writes()));
    }
    if !allowed {
        return Ok(Reply::Status(200));
    }
    let n = team_num as i32;
    let ghost v1 = state@;
    let ghost p1 = state.pending_writes();
    match pos_team(state.teams_rows(), n, state.teams_rows().len()) {
        None => {
            proof {
                assert(has_key(v1.teams, n) == (has_key(v0.teams, n) || checks_own_team(v0, *user, n)));
                assert(!has_key(v1.teams, n));
            }
            Err(Fault::NoSuchTeam)
        },
        Some(i) => {
            let t = team::Model { number: n, name: form.name.clone() };
            proof {
                lemma_update_same_key(state@.teams, i as int, t);
                assert(forall|k: i32| k != n ==> #[trigger] find(v1.teams, k) == find(v0.teams, k)) by {
                    assert forall|k: i32| k != n implies #[trigger] find(v1.teams, k) == find(v0.teams, k) by {
                        lemma_new_teams_names(v0, v1, k);
                        if has_key(v1.teams, k) {
                            assert(has_key(v0.teams, k));
                            let a = choose|a: int| 0 <= a < v0.teams.len() && #[trigger] v0.teams[a].key() == k;
                            lemma_find_at(v0.teams, a);
                            assert(v1.teams.take(v0.teams.len() as int)[a] == v1.teams[a]);
                            lemma_find_at(v1.teams, a);
                        }
                    }
                }
            }
            state.update_team_at(i, t);
            proof {
                assert(p1.is_prefix_of(state.pending_writes()));
            }
            Ok(Reply::Status(200))
        },
    }
}

/// The memberships of team `n`, in table order (the column is compared as a
/// number, so a `team_num` beyond `i32::MAX` matches nothing).
pub open spec fn members_of(s: Seq<user_team::Model>, n: u32) -> Seq<user_team::Model>
    decreases s.len(),
{
    if s.len() == 0 {
        s
    } else {
        let rest = members_of(s.drop_last(), n);
        if s.last().team as int == n as int {
            rest.push(s.last())
        } else {
            rest
        }
    }
}

/// `d` shows membership `m`.
pub open spec fn member_data_of(m: user_team::Model, d: UserTeamData) -> bool {
    d.username@ == m.user@ && d.is_admin == m.is_admin
}

/// `GET /api/team/{team_num}/members`: the team's members, for a caller who
/// may manage it; 403 for anyone else.
pub fn get_team_members(state: &mut AppState, user: &user::Model, team_num: u32) -> (r: Result<Reply, Fault>)
    requires
        old(state).wf(),
    ensures
        final(state).wf(),
        adds_teams(old(state)@, final(state)@, |n: i32| checks_own_team(old(state)@, *user, n)),
        final(state).pending_writes() == old(state).pending_writes() + team_inserts(old(state)@, final(state)@),
        match may_manage(old(state)@, *user, team_num) {
            None => r == Err::<Reply, Fault>(Fault::NotMember),
            Some(false) => r matches Ok(Reply::Status(403)),
            Some(true) => r matches Ok(Reply::Members(list)) && {
                let ms = members_of(old(state)@.user_teams, team_num);
                &&& list@.len() == ms.len()
                &&& forall|i: int| 0 <= i < ms.len() ==> member_data_of(ms[i], #[trigger] list@[i])
            },
        },
{
    let allowed = match can_manage_team(state, user, team_num) {
        Ok(b) => b,
        Err(f) => {
            return Err(f);
        },
    };
    if !allowed {
        return Ok(Reply::Status(403));
    }
    let rows = state.user_teams_rows();
    let mut list: Vec<UserTeamData> = Vec::new();
    let mut i: usize = 0;
    while i < rows.len()
        invariant
            i <= rows.len(),
            list@.len() == members_of(rows@.take(i as int), team_num).len(),
            forall|j: int| 0 <= j < list@.len() ==> member_data_of(members_of(rows@.take(i as int), team_num)[j], #[trigger] list@[j]),
        decreases rows.len() - i,
    {
        proof {
            assert(rows@.take(i + 1).drop_last() =~= rows@.take(i as int));
        }
        if rows[i].team as i64 == team_num as i64 {
            list.push(UserTeamData { username: rows[i].user.clone(), is_admin: rows[i].is_admin });
        }
        i = i + 1;
    }
    proof {
        assert(rows@.take(rows.len() as int) =~= rows@);
    }
    Ok(Reply::Members(list))
}

/// `PUT /api/team/{team_num}/member/{username}`: sets a member's team-admin
/// flag, for a caller who may manage the team; 403 for anyone else. The user
/// named must belong to that team.
pub fn modify_team_member(state: &mut AppState, user: &user::Model, team_num: u32, username: &String, data: &UserTeamData) -> (r: Result<Reply, Fault>)
    requires
        old(state).wf(),
    ensures
        final(state).wf(),
        old(state).pending_writes().is_prefix_of(final(state).pending_writes()),
        match may_manage(old(state)@, *user, team_num) {
            None => r == Err::<Reply, Fault>(Fault::NotMember) && final(state)@ == old(state)@,
            Some(false) => r matches Ok(Reply::Status(403))
                && adds_teams(old(state)@, final(state)@, |n: i32| checks_own_team(old(state)@, *user, n)),
            Some(true) => match find(old(state)@.user_teams, username@) {
                Some(m) => if m.team as int == team_num as int {
                    &&& r matches Ok(Reply::Status(200))
                    &&& find(final(state)@.user_teams, username@) == Some(user_team::Model { is_admin: data.is_admin, ..m })
                    &&& forall|k: Seq<char>| k != username@ ==> #[trigger] find(final(state)@.user_teams, k) == find(old(state)@.user_teams, k)
                    &&& final(state)@ == (DbView { user_teams: final(state)@.user_teams, teams: final(state)@.teams, ..old(state)@ })
                    &&& adds_teams(
                        old(state)@,
                        DbView { user_teams: old(state)@.user_teams, ..final(state)@ },
                        |n: i32| checks_own_team(old(state)@, *user, n),
                    )
                } else {
                    r == Err::<Reply, Fault>(Fault::NotMember)
                        && adds_teams(old(state)@, final(state)@, |n: i32| checks_own_team(old(state)@, *user, n))
                },
                None => r == Err::<Reply, Fault>(Fault::NotMember)
                    && adds_teams(old(state)@, final(state)@, |n: i32| checks_own_team(old(state)@, *user, n)),
            },
        },
{
    let allowed = match can_manage_team(state, user, team_num) {
        Ok(b) => b,
        Err(f) => {
            return Err(f);
        },
    };
    proof {
        assert(old(state).pending_writes().is_prefix_of(state.pending_writes()));
    }
    if !allowed {
        return Ok(Reply::Status(403));
    }
    let ghost v1 = state@;
    let ghost p1 = state.pending_writes();
    let rows = state.user_teams_rows();
    match pos_user_team(rows, username, rows.len()) {
        Some(i) => {
            if rows[i].team as i64 == team_num as i64 {
                let m = user_team::Model {
                    user: rows[i].user.clone(),
                    team: rows[i].team,
                    is_admin: data.is_admin,
                    invite: crate::entity::clone_opt_string(&rows[i].invite),
                };
                proof {
                    lemma_find_at(state@.user_teams, i as int);
                    lemma_update_same_key(state@.user_teams, i as int, m);
                }
                state.update_user_team_at(i, m);
                proof {
                    assert(p1.is_prefix_of(state.pending_writes()));
                    assert(DbView { user_teams: old(state)@.user_teams, ..state@ } == v1);
                }
                Ok(Reply::Status(200))
            } else {
                proof {
                    lemma_find_at(state@.user_teams, i as int);
                }
                Err(Fault::NotMember)
            }
        },
        None => Err(Fault::NotMember),
    }
}


/// Membership `m` became a team admin with invite code `code`.
pub open spec fn used_code(m: user_team::Model, code: Seq<char>) -> bool {
    match m.invite {
        Some(c) => c@ == code,
        None => false,
    }
}

/// Some member became a team admin with invite code `code`.
pub open spec fn invite_used(v: DbView, code: Seq<char>) -> bool {
    exists|i: int| 0 <= i < v.user_teams.len() && used_code(#[trigger] v.user_teams[i], code)
}

/// Joining with `join_code` makes the user a team admin: the code is given,
/// not empty, is an invite code of the `invite` table, and nobody has used
/// it yet.
pub open spec fn joins_as_admin(v: DbView, join_code: Option<String>) -> bool {
    match join_code {
        Some(c) => c@.len() > 0 && has_key(v.invites, c@) && !invite_used(v, c@),
        None => false,
    }
}

fn code_is_used(rows: &Vec<user_team::Model>, code: &String) -> (r: bool)
    ensures
        r == exists|i: int| 0 <= i < rows@.len() && used_code(#[trigger] rows@[i], code@),
{
    let mut i: usize = 0;
    while i < rows.len()
        invariant
            i <= rows.len(),
            forall|j: int| 0 <= j < i ==> !used_code(#[trigger] rows@[j], code@),
        decreases rows.len() - i,
    {
        match &rows[i].invite {
            Some(c) => {
                if *c == *code {
                    proof {
                        assert(used_code(rows@[i as int], code@));
                    }
                    return true;
                }
            },
            None => {},
        }
        i = i + 1;
    }
    false
}

/// `POST /api/account/join_team`: the caller joins the team (whose row is
/// created, with an empty name, where it has none); they become its admin
/// where `joins_as_admin`, and the code is then kept on the membership.
pub fn join_team(state: &mut AppState, user: &user::Model, form: &JoinTeamData) -> (r: Result<Reply, Fault>)
    requires
        old(state).wf(),
    ensures
        final(state).wf(),
        old(state).pending_writes().is_prefix_of(final(state).pending_writes()),
        match spec_parse_i32(form.team_number@) {
            None => r == Err::<Reply, Fault>(Fault::BadTeamNumber) && final(state)@ == old(state)@,
            Some(n) => {
                &&& has_key(final(state)@.teams, n)
                &&& adds_teams(old(state)@, DbView { user_teams: old(state)@.user_teams, ..final(state)@ }, |k: i32| k == n)
                &&& if has_key(old(state)@.user_teams, user.username@) {
                    r == Err::<Reply, Fault>(Fault::AlreadyMember) && final(state)@.user_teams == old(state)@.user_teams
                } else {
                    let adm = joins_as_admin(old(state)@, form.join_code);
                    let m = final(state)@.user_teams.last();
                    &&& r matches Ok(rep) && is_redirect(rep, "/account"@)
                    &&& final(state)@.user_teams == old(state)@.user_teams.push(m)
                    &&& m.user@ == user.username@
                    &&& m.team == n
                    &&& m.is_admin == adm
                    &&& m.invite == (if adm { form.join_code } else { None })
                }
            },
        },
{
    let n = match parse_i32(form.team_number.as_str()) {
        Some(n) => n,
        None => {
            return Err(Fault::BadTeamNumber);
        },
    };
    let is_admin = match &form.join_code {
        Some(code) => {
            if code.unicode_len() == 0 {
                false
            } else if pos_invite(state.invites_rows(), code, state.invites_rows().len()).is_none() {
                false
            } else {
                !code_is_used(state.user_teams_rows(), code)
            }
        },
        None => false,
    };
    let ghost v0 = state@;
    let _team = state.get_team(n);
    proof {
        if !has_key(v0.teams, n) {
            lemma_push_fresh(v0.teams, _team);
        }
        assert(old(state).pending_writes().is_prefix_of(state.pending_writes()));
    }
    let invite = if is_admin { crate::entity::clone_opt_string(&form.join_code) } else { None };
    let m = user_team::Model { user: user.username.clone(), team: n, is_admin, invite };
    let rows = state.user_teams_rows();
    if pos_user_team(rows, &user.username, rows.len()).is_some() {
        return Err(Fault::AlreadyMember);
    }
    let ghost p1 = state.pending_writes();
    state.insert_user_team(m);
    proof {
        assert(p1.is_prefix_of(state.pending_writes()));
    }
    Ok(Reply::Redirect(String::from_str("/account")))
}

/// `POST /api/account/leave_team`: the caller leaves their team; an invite
/// code that made them its admin is deleted so it cannot be used again.
pub fn leave_team(state: &mut AppState, user: &user::Model) -> (r: Result<Reply, Fault>)
    requires
        old(state).wf(),
    ensures
        final(state).wf(),
        old(state).pending_writes().is_prefix_of(final(state).pending_writes()),
        match find(old(state)@.user_teams, user.username@) {
            None => r == Err::<Reply, Fault>(Fault::NotMember) && final(state)@ == old(state)@,
            Some(m) => {
                &&& r matches Ok(rep) && is_redirect(rep, "/account"@)
                &&& final(state)@ == (DbView { user_teams: final(state)@.user_teams, invites: final(state)@.invites, ..old(state)@ })
                &&& !has_key(final(state)@.user_teams, user.username@)
                &&& forall|k: Seq<char>| k != user.username@ ==> #[trigger] find(final(state)@.user_teams, k) == find(old(state)@.user_teams, k)
                &&& match m.invite {
                    Some(c) => {
                        &&& !has_key(final(state)@.invites, c@)
                        &&& forall|k: Seq<char>| k != c@ ==> #[trigger] find(final(state)@.invites, k) == find(old(state)@.invites, k)
                    },
                    None => final(state)@.invites == old(state)@.invites,
                }
            },
        },
{
    let m = match state.find_membership(&user.username) {
        Some(m) => m,
        None => {
            return Err(Fault::NotMember);
        },
    };
    let ghost v0 = state@;
    match &m.invite {
        Some(code) => {
            let invites = state.invites_rows();
            match pos_invite(invites, code, invites.len()) {
                Some(i) => {
                    proof {
                        lemma_remove_at(state@.invites, i as int);
                    }
                    state.delete_invite_at(i);
                },
                None => {},
            }
        },
        None => {},
    }
    proof {
        assert(old(state).pending_writes().is_prefix_of(state.pending_writes()));
    }
    let ghost p1 = state.pending_writes();
    let rows = state.user_teams_rows();
    match pos_user_team(rows, &user.username, rows.len()) {
        Some(i) => {
            proof {
                lemma_remove_at(state@.user_teams, i as int);
            }
            state.delete_user_team_at(i);
        },
        None => {},
    }
    proof {
        assert(p1.is_prefix_of(state.pending_writes()));
    }
    Ok(Reply::Redirect(String::from_str("/account")))
}

/// `POST /api/account/change_password`: with the right current password the
/// caller's row gets an argon2 hash of the new one and the caller goes to
/// the account page; with a wrong one, 400.
pub fn change_password(state: &mut AppState, user: &user::Model, form: &ChangePassword) -> (r: Result<Reply, Fault>)
    requires
        old(state).wf(),
    ensures
        final(state).wf(),
        old(state).pending_writes().is_prefix_of(final(state).pending_writes()),
        match password_check(user.password@, form.current_password@) {
            None => r == Err::<Reply, Fault>(Fault::MalformedPasswordHash) && final(state)@ == old(state)@,
            Some(false) => r matches Ok(rep) && is_text(rep, 400, "Incorrect password"@) && final(state)@ == old(state)@,
            Some(true) => match r {
                Ok(rep) => {
                    &&& is_redirect(rep, "/account"@)
                    &&& find(old(state)@.users, user.username@) matches Some(u)
                    &&& find(final(state)@.users, user.username@) matches Some(u2)
                    &&& u2 == (user::Model { password: u2.password, ..u })
                    &&& password_check(u2.password@, form.new_password@) == Some(true)
                    &&& "$argon2id$"@.is_prefix_of(u2.password@)
                    &&& final(state)@ == (DbView { users: final(state)@.users, ..old(state)@ })
                    &&& forall|k: Seq<char>| k != user.username@ ==> #[trigger] find(final(state)@.users, k) == find(old(state)@.users, k)
                    &&& forall|k: Seq<char>| #[trigger] has_key(final(state)@.users, k) == has_key(old(state)@.users, k)
                },
                Err(f) => {
                    &&& (f == Fault::HashFailed && form.new_password@.len() >= 0x4000_0000)
                        || (f == Fault::NoSuchUser && !has_key(old(state)@.users, user.username@))
                    &&& final(state)@ == old(state)@
                },
            },
        },
{
    match state.try_check_user_password(&user.password, &form.current_password) {
        None => Err(Fault::MalformedPasswordHash),
        Some(false) => Ok(Reply::Text { status: 400, body: String::from_str("Incorrect password") }),
        Some(true) => {
            let hash = match crate::secrets::argon2_hash(form.new_password.as_str()) {
                Some(h) => h,
                None => {
                    return Err(Fault::HashFailed);
                },
            };
            let rows = state.users_rows();
            match pos_user(rows, &user.username, rows.len()) {
                Some(i) => {
                    let u = &rows[i];
                    let u2 = user::Model {
                        username: u.username.clone(),
                        password: hash,
                        invited_with_code: crate::entity::clone_opt_string(&u.invited_with_code),
                        is_admin: u.is_admin,
                        is_verified: u.is_verified,
                    };
                    proof {
                        lemma_find_at(state@.users, i as int);
                        lemma_update_same_key(state@.users, i as int, u2);
                    }
                    state.update_user_at(i, u2);
                    Ok(Reply::Redirect(String::from_str("/account")))
                },
                None => Err(Fault::NoSuchUser),
            }
        },
    }
}


/// `d` shows user `u` against the tables `v`: name, flags, team number in
/// decimal (if any) and whether they are its admin.
pub open spec fn user_data_of(v: DbView, u: user::Model, d: UserData) -> bool {
    &&& d.username@ == u.username@
    &&& d.is_admin == u.is_admin
    &&& d.is_verified == u.is_verified
    &&& match find(v.user_teams, u.username@) {
        Some(m) => {
            &&& d.team matches Some(t) && t@ == spec_fmt_i32(m.team)
            &&& d.is_team_admin == Some(m.is_admin)
        },
        None => {
            &&& d.team is None
            &&& d.is_team_admin == Some(false)
        },
    }
}

/// User `u` as the admin API shows it; looking up the user's team creates its
/// row, with an empty name, where it has none.
fn user_data(state: &mut AppState, u: &user::Model) -> (d: UserData)
    requires
        old(state).wf(),
    ensures
        final(state).wf(),
        user_data_of(old(state)@, *u, d),
        adds_teams(old(state)@, final(state)@, |n: i32| member_team(old(state)@, u.username@) == Some(n)),
        final(state).pending_writes() == old(state).pending_writes() + team_inserts(old(state)@, final(state)@),
{
    let team = match state.get_user_team(&u.username) {
        Some(t) => Some(fmt_i32(t.number)),
        None => None,
    };
    let is_team_admin = state.is_team_admin(&u.username);
    UserData {
        username: u.username.clone(),
        is_admin: u.is_admin,
        is_verified: u.is_verified,
        team,
        is_team_admin: Some(is_team_admin),
    }
}

/// `GET /api/user/{username}`: the user, for a site admin; 403 for anyone else.
pub fn get_user(state: &mut AppState, user: &user::Model, username: &String) -> (r: Result<Reply, Fault>)
    requires
        old(state).wf(),
    ensures
        final(state).wf(),
        adds_teams(
            old(state)@,
            final(state)@,
            |n: i32| user.is_admin && has_key(old(state)@.users, username@) && member_team(old(state)@, username@) == Some(n),
        ),
        final(state).pending_writes() == old(state).pending_writes() + team_inserts(old(state)@, final(state)@),
        if !user.is_admin {
            r matches Ok(rep) && is_text(rep, 403, "You are not an admin"@)
        } else {
            match find(old(state)@.users, username@) {
                None => r == Err::<Reply, Fault>(Fault::NoSuchUser),
                Some(u) => r matches Ok(Reply::User(d)) && user_data_of(old(state)@, u, d),
            }
        },
{
    proof {
        lemma_only_new_teams_refl(state@);
        assert(state.pending_writes() + team_inserts(state@, state@) =~= state.pending_writes());
    }
    if !user.is_admin {
        return Ok(Reply::Text { status: 403, body: String::from_str("You are not an admin") });
    }
    match state.find_user(username) {
        Some(u) => Ok(Reply::User(user_data(state, &u))),
        None => Err(Fault::NoSuchUser),
    }
}

/// `GET /api/users`: every user, in table order, for a site admin; 403 for
/// anyone else.
pub fn get_users(state: &mut AppState, user: &user::Model) -> (r: Reply)
    requires
        old(state).wf(),
    ensures
        final(state).wf(),
        adds_teams(
            old(state)@,
            final(state)@,
            |n: i32| user.is_admin && exists|j: int| 0 <= j < old(state)@.users.len()
                && member_team(old(state)@, old(state)@.users[j].username@) == Some(n),
        ),
        final(state).pending_writes() == old(state).pending_writes() + team_inserts(old(state)@, final(state)@),
        if !user.is_admin {
            is_text(r, 403, "You are not an admin"@)
        } else {
            r matches Reply::Users(list) && list@.len() == old(state)@.users.len()
                && forall|i: int| 0 <= i < list@.len() ==> user_data_of(old(state)@, old(state)@.users[i], #[trigger] list@[i])
        },
{
    proof {
        lemma_only_new_teams_refl(state@);
        assert(state.pending_writes() + team_inserts(state@, state@) =~= state.pending_writes());
    }
    if !user.is_admin {
        return Reply::Text { status: 403, body: String::from_str("You are not an admin") };
    }
    let ghost v0 = state@;
    let ghost p0 = state.pending_writes();
    let n = state.users_rows().len();
    let mut list: Vec<UserData> = Vec::new();
    let mut i: usize = 0;
    while i < n
        invariant
            state.wf(),
            i <= n,
            n == v0.users.len(),
            adds_teams(v0, state@, |k: i32| exists|j: int| 0 <= j < i && member_team(v0, v0.users[j].username@) == Some(k)),
            state.pending_writes() == p0 + team_inserts(v0, state@),
            list@.len() == i,
            forall|j: int| 0 <= j < i ==> user_data_of(v0, v0.users[j], #[trigger] list@[j]),
        decreases n - i,
    {
        let u = state.users_rows()[i].duplicate();
        let ghost v1 = state@;
        let d = user_data(state, &u);
        proof {
            let p = |k: i32| exists|j: int| 0 <= j < i && member_team(v0, v0.users[j].username@) == Some(k);
            let q = |k: i32| member_team(v1, u.username@) == Some(k);
            let r = |k: i32| exists|j: int| 0 <= j < i + 1 && member_team(v0, v0.users[j].username@) == Some(k);
            assert forall|k: i32| #[trigger] r(k) == (p(k) || q(k)) by {
                assert(member_team(v1, u.username@) == member_team(v0, v0.users[i as int].username@));
                if r(k) {
                    let j = choose|j: int| 0 <= j < i + 1 && member_team(v0, v0.users[j].username@) == Some(k);
                    if j < i {
                        assert(p(k));
                    }
                }
                if p(k) {
                    let j = choose|j: int| 0 <= j < i && member_team(v0, v0.users[j].username@) == Some(k);
                    assert(0 <= j < i + 1 && member_team(v0, v0.users[j].username@) == Some(k));
                }
                if q(k) {
                    assert(0 <= i < i + 1 && member_team(v0, v0.users[i as int].username@) == Some(k));
                }
            }
            lemma_adds_teams_trans(v0, v1, state@, p, q, r);
        }
        list.push(d);
        i = i + 1;
    }
    Reply::Users(list)
}

/// `PUT /api/user/{username}`: for a site admin, sets the user's admin and
/// verified flags, then their team (`team` parsed as a number; `None` takes
/// them out of any team) and team-admin flag, which must be given; 403 for
/// anyone else. The flags are written before the team fields are checked.
pub fn modify_user(state: &mut AppState, user: &user::Model, username: &String, data: &UserData) -> (r: Result<Reply, Fault>)
    requires
        old(state).wf(),
    ensures
        final(state).wf(),
        old(state).pending_writes().is_prefix_of(final(state).pending_writes()),
        if !user.is_admin {
            r matches Ok(rep) && is_text(rep, 403, "You are not an admin"@) && final(state)@ == old(state)@
        } else {
            match find(old(state)@.users, username@) {
                None => r == Err::<Reply, Fault>(Fault::NoSuchUser) && final(state)@ == old(state)@,
                Some(u) => {
                    let parsed = match data.team {
                        Some(t) => Some(spec_parse_i32(t@)),
                        None => None,
                    };
                    &&& find(final(state)@.users, username@) == Some(user::Model { is_admin: data.is_admin, is_verified: data.is_verified, ..u })
                    &&& forall|k: Seq<char>| k != username@ ==> #[trigger] find(final(state)@.users, k) == find(old(state)@.users, k)
                    &&& final(state)@.invites == old(state)@.invites
                    &&& final(state)@.auth_tokens == old(state)@.auth_tokens
                    &&& final(state)@.card_designs == old(state)@.card_designs
                    &&& final(state)@.cards == old(state)@.cards
                    &&& final(state)@.card_abilities == old(state)@.card_abilities
                    &&& final(state)@.scans == old(state)@.scans
                    &&& if parsed matches Some(None) {
                        r == Err::<Reply, Fault>(Fault::BadTeamNumber) && final(state)@.user_teams == old(state)@.user_teams
                            && final(state)@.teams == old(state)@.teams
                    } else if data.is_team_admin is None {
                        r == Err::<Reply, Fault>(Fault::MissingField) && final(state)@.user_teams == old(state)@.user_teams
                            && final(state)@.teams == old(state)@.teams
                    } else {
                        &&& r matches Ok(rep) && is_text(rep, 200, "User updated"@)
                        &&& forall|k: Seq<char>| k != username@ ==> #[trigger] find(final(state)@.user_teams, k) == find(old(state)@.user_teams, k)
                        &&& match parsed {
                            Some(Some(n)) => {
                                &&& find(final(state)@.user_teams, username@) matches Some(m)
                                &&& m.team == n
                                &&& Some(m.is_admin) == data.is_team_admin
                                &&& m.invite is None
                                &&& has_key(final(state)@.teams, n)
                                &&& find(final(state)@.teams, n) matches Some(row) && row.number == n
                                    && (has_key(old(state)@.teams, n) ==> find(old(state)@.teams, n) == Some(row))
                                    && (!has_key(old(state)@.teams, n) ==> row.name@.len() == 0)
                                &&& forall|k: i32| #[trigger] has_key(final(state)@.teams, k) == (has_key(old(state)@.teams, k) || k == n)
                                &&& forall|k: i32| k != n ==> #[trigger] find(final(state)@.teams, k) == find(old(state)@.teams, k)
                            },
                            _ => find(final(state)@.user_teams, username@) is None && final(state)@.teams == old(state)@.teams,
                        }
                    }
                },
            }
        },
{
    if !user.is_admin {
        return Ok(Reply::Text { status: 403, body: String::from_str("You are not an admin") });
    }
    let rows = state.users_rows();
    let i = match pos_user(rows, username, rows.len()) {
        Some(i) => i,
        None => {
            return Err(Fault::NoSuchUser);
        },
    };
    let u = &rows[i];
    let u2 = user::Model {
        username: u.username.clone(),
        password: u.password.clone(),
        invited_with_code: crate::entity::clone_opt_string(&u.invited_with_code),
        is_admin: data.is_admin,
        is_verified: data.is_verified,
    };
    proof {
        lemma_find_at(state@.users, i as int);
        lemma_update_same_key(state@.users, i as int, u2);
    }
    state.update_user_at(i, u2);
    let team = match &data.team {
        Some(t) => match parse_i32(t.as_str()) {
            Some(n) => Some(n),
            None => {
                return Err(Fault::BadTeamNumber);
            },
        },
        None => None,
    };
    let flag = match data.is_team_admin {
        Some(b) => b,
        None => {
            return Err(Fault::MissingField);
        },
    };
    let ghost p1 = state.pending_writes();
    state.set_user_team(username, team, flag, None);
    proof {
        assert(p1.is_prefix_of(state.pending_writes()));
    }
    Ok(Reply::Text { status: 200, body: String::from_str("User updated") })
}


/// The scans of user `name`, in table order.
pub open spec fn scans_of(s: Seq<scan::Model>, name: Seq<char>) -> Seq<scan::Model>
    decreases s.len(),
{
    if s.len() == 0 {
        s
    } else {
        let rest = scans_of(s.drop_last(), name);
        if s.last().username@ == name {
            rest.push(s.last())
        } else {
            rest
        }
    }
}

/// Design `d` passes the optional team and year filters.
pub open spec fn design_passes(d: card_design::Model, team: Option<i32>, year: Option<i16>) -> bool {
    &&& (team matches Some(t) ==> d.team == t)
    &&& (year matches Some(y) ==> d.year == y)
}

/// The designs that pass the filters, in table order.
pub open spec fn designs_matching(s: Seq<card_design::Model>, team: Option<i32>, year: Option<i16>) -> Seq<card_design::Model>
    decreases s.len(),
{
    if s.len() == 0 {
        s
    } else {
        let rest = designs_matching(s.drop_last(), team, year);
        if design_passes(s.last(), team, year) {
            rest.push(s.last())
        } else {
            rest
        }
    }
}

/// The first card, in table order, of design `design`.
pub open spec fn first_card(s: Seq<card::Model>, design: i32) -> Option<card::Model>
    decreases s.len(),
{
    if s.len() == 0 {
        None
    } else if s[0].design == design {
        Some(s[0])
    } else {
        first_card(s.drop_first(), design)
    }
}

/// Every design of `ds` has a card.
pub open spec fn all_have_cards(cards: Seq<card::Model>, ds: Seq<card_design::Model>) -> bool {
    forall|i: int| 0 <= i < ds.len() ==> (#[trigger] first_card(cards, ds[i].id)) is Some
}

proof fn lemma_first_card_skip(s: Seq<card::Model>, design: i32, i: int)
    requires
        0 <= i < s.len(),
        forall|j: int| 0 <= j < i ==> #[trigger] s[j].design != design,
    ensures
        first_card(s, design) == first_card(s.skip(i), design),
    decreases i,
{
    if i > 0 {
        lemma_first_card_skip(s.drop_first(), design, i - 1);
        assert(s.drop_first().skip(i - 1) =~= s.skip(i));
    } else {
        assert(s.skip(0) =~= s);
    }
}

fn first_card_of(cards: &Vec<card::Model>, design: i32) -> (r: Option<card::Model>)
    ensures
        r == first_card(cards@, design),
{
    let mut i: usize = 0;
    while i < cards.len()
        invariant
            i <= cards.len(),
            forall|j: int| 0 <= j < i ==> #[trigger] cards@[j].design != design,
        decreases cards.len() - i,
    {
        if cards[i].design == design {
            proof {
                lemma_first_card_skip(cards@, design, i as int);
                assert(cards@.skip(i as int)[0] == cards@[i as int]);
            }
            return Some(cards[i].duplicate());
        }
        i = i + 1;
    }
    proof {
        assert forall|k: int| 0 <= k <= cards@.len() implies first_card(cards@.skip(k), design) is None by {
            lemma_no_first_card(cards@, design, k);
        }
        assert(cards@.skip(0) =~= cards@);
    }
    None
}

proof fn lemma_no_first_card(s: Seq<card::Model>, design: i32, k: int)
    requires
        0 <= k <= s.len(),
        forall|j: int| 0 <= j < s.len() ==> #[trigger] s[j].design != design,
    ensures
        first_card(s.skip(k), design) is None,
    decreases s.len() - k,
{
    if k < s.len() {
        lemma_no_first_card(s, design, k + 1);
        assert(s.skip(k).drop_first() =~= s.skip(k + 1));
        assert(s.skip(k)[0] == s[k]);
    }
}

proof fn lemma_first_card_in(s: Seq<card::Model>, design: i32)
    ensures
        first_card(s, design) matches Some(c) ==> c.design == design && exists|k: int| 0 <= k < s.len() && s[k] == c,
    decreases s.len(),
{
    if s.len() > 0 && s[0].design != design {
        lemma_first_card_in(s.drop_first(), design);
        if let Some(c) = first_card(s, design) {
            let k = choose|k: int| 0 <= k < s.drop_first().len() && s.drop_first()[k] == c;
            assert(s[k + 1] == c);
        }
    } else if s.len() > 0 {
        assert(s[0] == s[0]);
    }
}

/// Filtering a prefix gives a prefix of the filtered whole.
proof fn lemma_matching_prefix(s: Seq<card_design::Model>, team: Option<i32>, year: Option<i16>, k: int, m: int)
    requires
        0 <= k <= m <= s.len(),
    ensures
        designs_matching(s.take(k), team, year).len() <= designs_matching(s.take(m), team, year).len(),
        forall|j: int| 0 <= j < designs_matching(s.take(k), team, year).len() ==>
            #[trigger] designs_matching(s.take(m), team, year)[j] == designs_matching(s.take(k), team, year)[j],
    decreases m - k,
{
    if k < m {
        lemma_matching_prefix(s, team, year, k, m - 1);
        assert(s.take(m).drop_last() =~= s.take(m - 1));
    }
}

/// Card data stays the same while only new (empty-named) teams are added.
proof fn lemma_card_data_stable(a: DbView, b: DbView, c: card::Model, unlocked: bool, r: CardData)
    requires
        only_new_teams(a, b),
        keys_unique(b.teams),
        card_data_of(b, c, unlocked, r),
    ensures
        card_data_of(a, c, unlocked, r),
{
    let d = find(b.card_designs, c.design).unwrap();
    lemma_team_name_stable(a, b, d.team);
}

/// Showing one more card adds the team of its design: the teams added are
/// those of the cards shown.
proof fn lemma_cards_add_team(
    v0: DbView,
    v1: DbView,
    v2: DbView,
    before: Seq<CardData>,
    after: Seq<CardData>,
    c: card::Model,
    d: CardData,
)
    requires
        adds_teams(v0, v1, |k: i32| exists|j: int| 0 <= j < before.len() && before[j].team_number == k),
        adds_teams(v1, v2, |n: i32| n == find(v1.card_designs, c.design).unwrap().team),
        keys_unique(v2.teams),
        d.team_number == find(v1.card_designs, c.design).unwrap().team,
        after == before.push(d),
    ensures
        adds_teams(v0, v2, |k: i32| exists|j: int| 0 <= j < after.len() && after[j].team_number == k),
{
    let p = |k: i32| exists|j: int| 0 <= j < before.len() && before[j].team_number == k;
    let q = |n: i32| n == find(v1.card_designs, c.design).unwrap().team;
    let r = |k: i32| exists|j: int| 0 <= j < after.len() && after[j].team_number == k;
    assert forall|k: i32| #[trigger] r(k) == (p(k) || q(k)) by {
        if r(k) {
            let j = choose|j: int| 0 <= j < after.len() && after[j].team_number == k;
            if j < before.len() {
                assert(after[j] == before[j]);
            }
        }
        if p(k) {
            let j = choose|j: int| 0 <= j < before.len() && before[j].team_number == k;
            assert(after[j] == before[j]);
        }
        if q(k) {
            assert(after[before.len() as int] == d);
        }
    }
    lemma_adds_teams_trans(v0, v1, v2, p, q, r);
}

/// `GET /api/cards`: with `user`, the cards that user scanned, unlocked, in
/// table order of the scans; otherwise, for each design that passes the team
/// and year filters (in table order), its first card, locked. Showing a card
/// creates its team's row, with an empty name, where it has none.
pub fn get_cards(state: &mut AppState, params: &GetCardsParams) -> (r: Result<Reply, Fault>)
    requires
        old(state).wf(),
    ensures
        final(state).wf(),
        only_new_teams(old(state)@, final(state)@),
        final(state).pending_writes() == old(state).pending_writes() + team_inserts(old(state)@, final(state)@),
        r matches Ok(Reply::Cards(list)) ==> adds_teams(
            old(state)@,
            final(state)@,
            |k: i32| exists|j: int| 0 <= j < list@.len() && list@[j].team_number == k,
        ),
        r is Err ==> forall|k: i32| #[trigger] has_key(final(state)@.teams, k) ==> has_key(old(state)@.teams, k)
            || exists|j: int| 0 <= j < designs_matching(old(state)@.card_designs, params.team, params.year).len()
                && designs_matching(old(state)@.card_designs, params.team, params.year)[j].team == k,
        match params.user {
            Some(u) => {
                let sel = scans_of(old(state)@.scans, u@);
                r matches Ok(Reply::Cards(list)) && list@.len() == sel.len()
                    && forall|i: int| 0 <= i < sel.len() ==> card_data_of(
                        old(state)@,
                        find(old(state)@.cards, sel[i].card@).unwrap(),
                        true,
                        #[trigger] list@[i],
                    )
            },
            None => {
                let ds = designs_matching(old(state)@.card_designs, params.team, params.year);
                if all_have_cards(old(state)@.cards, ds) {
                    r matches Ok(Reply::Cards(list)) && list@.len() == ds.len()
                        && forall|i: int| 0 <= i < ds.len() ==> card_data_of(
                            old(state)@,
                            first_card(old(state)@.cards, ds[i].id).unwrap(),
                            false,
                            #[trigger] list@[i],
                        )
                } else {
                    r == Err::<Reply, Fault>(Fault::DesignWithoutCard)
                }
            },
        },
{
    proof {
        lemma_only_new_teams_refl(state@);
        assert(state.pending_writes() + team_inserts(state@, state@) =~= state.pending_writes());
    }
    let ghost v0 = state@;
    let ghost p0 = state.pending_writes();
    let mut cards: Vec<CardData> = Vec::new();
    match &params.user {
        Some(u) => {
            let n = state.scans_rows().len();
            let mut i: usize = 0;
            while i < n
                invariant
                    state.wf(),
                    i <= n,
                    n == v0.scans.len(),
                    v0.wf(),
                    adds_teams(v0, state@, |k: i32| exists|j: int| 0 <= j < cards@.len() && cards@[j].team_number == k),
                    state.pending_writes() == p0 + team_inserts(v0, state@),
                    cards@.len() == scans_of(v0.scans.take(i as int), u@).len(),
                    forall|j: int| 0 <= j < cards@.len() ==> card_data_of(
                        v0,
                        find(v0.cards, scans_of(v0.scans.take(i as int), u@)[j].card@).unwrap(),
                        true,
                        #[trigger] cards@[j],
                    ),
                decreases n - i,
            {
                proof {
                    assert(v0.scans.take(i + 1).drop_last() =~= v0.scans.take(i as int));
                }
                let sc = state.scans_rows()[i].duplicate();
                if sc.username == *u {
                    let c = state.find_card(&sc.card).unwrap();
                    proof {
                        assert(crate::tables::has_key(v0.cards, v0.scans[i as int].card@));
                        assert(crate::tables::has_key(v0.card_designs, c.design)) by {
                            let k = choose|k: int| 0 <= k < v0.cards.len() && #[trigger] v0.cards[k].key() == sc.card@;
                            lemma_find_at(v0.cards, k);
                        }
                    }
                    let ghost v1 = state@;
                    let d = CardData::from_card(c, state, true);
                    proof {
                        lemma_only_new_teams_trans(v0, v1, state@);
                        lemma_card_data_stable(v0, v1, c, true, d);
                    }
                    let ghost c0 = cards@;
                    cards.push(d);
                    proof {
                        lemma_cards_add_team(v0, v1, state@, c0, cards@, c, d);
                    }
                }
                i = i + 1;
            }
            proof {
                assert(v0.scans.take(n as int) =~= v0.scans);
            }
        },
        None => {
            let n = state.card_designs_rows().len();
            let mut i: usize = 0;
            while i < n
                invariant
                    state.wf(),
                    i <= n,
                    n == v0.card_designs.len(),
                    v0.wf(),
                    v0 == old(state)@,
                    p0 == old(state).pending_writes(),
                    params.user is None,
                    adds_teams(v0, state@, |k: i32| exists|j: int| 0 <= j < cards@.len() && cards@[j].team_number == k),
                    forall|j: int| 0 <= j < cards@.len() ==> #[trigger] cards@[j].team_number
                        == designs_matching(v0.card_designs.take(i as int), params.team, params.year)[j].team,
                    state.pending_writes() == p0 + team_inserts(v0, state@),
                    cards@.len() == designs_matching(v0.card_designs.take(i as int), params.team, params.year).len(),
                    all_have_cards(v0.cards, designs_matching(v0.card_designs.take(i as int), params.team, params.year)),
                    forall|j: int| 0 <= j < cards@.len() ==> card_data_of(
                        v0,
                        first_card(v0.cards, designs_matching(v0.card_designs.take(i as int), params.team, params.year)[j].id).unwrap(),
                        false,
                        #[trigger] cards@[j],
                    ),
                decreases n - i,
            {
                proof {
                    assert(v0.card_designs.take(i + 1).drop_last() =~= v0.card_designs.take(i as int));
                }
                let d = state.card_designs_rows()[i].duplicate();
                let passes = (match params.team {
                    Some(t) => d.team == t,
                    None => true,
                }) && (match params.year {
                    Some(y) => d.year == y,
                    None => true,
                });
                if passes {
                    let c = match first_card_of(state.cards_rows(), d.id) {
                        Some(c) => c,
                        None => {
                            proof {
                                let ds = designs_matching(v0.card_designs, params.team, params.year);
                                lemma_matching_prefix(v0.card_designs, params.team, params.year, i as int + 1, n as int);
                                assert(v0.card_designs.take(n as int) =~= v0.card_designs);
                                let dsi = designs_matching(v0.card_designs.take(i + 1), params.team, params.year);
                                assert(ds[dsi.len() - 1] == d);
                                assert(!all_have_cards(v0.cards, ds));
                                lemma_matching_prefix(v0.card_designs, params.team, params.year, i as int, n as int);
                                let dsp = designs_matching(v0.card_designs.take(i as int), params.team, params.year);
                                assert forall|k: i32| #[trigger] has_key(state@.teams, k) implies has_key(v0.teams, k)
                                    || exists|j: int| 0 <= j < ds.len() && ds[j].team == k by {
                                    if !has_key(v0.teams, k) {
                                        let j = choose|j: int| 0 <= j < cards@.len() && cards@[j].team_number == k;
                                        assert(dsp[j] == ds[j]);
                                        assert(ds[j].team == k);
                                    }
                                }
                            }
                            return Err(Fault::DesignWithoutCard);
                        },
                    };
                    proof {
                        lemma_first_card_in(v0.cards, d.id);
                        let k = choose|k: int| 0 <= k < v0.cards.len() && v0.cards[k] == c;
                        assert(crate::tables::has_key(v0.card_designs, v0.cards[k].design));
                    }
                    let ghost v1 = state@;
                    let cd = CardData::from_card(c, state, false);
                    proof {
                        lemma_only_new_teams_trans(v0, v1, state@);
                        lemma_card_data_stable(v0, v1, c, false, cd);
                        lemma_find_at(v0.card_designs, i as int);
                        assert(c.design == d.id);
                        assert(cd.team_number == d.team);
                    }
                    let ghost c0 = cards@;
                    cards.push(cd);
                    proof {
                        lemma_cards_add_team(v0, v1, state@, c0, cards@, c, cd);
                    }
                }
                i = i + 1;
            }
            proof {
                assert(v0.card_designs.take(n as int) =~= v0.card_designs);
            }
        },
    }
    Ok(Reply::Cards(cards))
}


/// `PUT /api/scans/{id}`: the caller scans card `id`; the scan is recorded (at the
/// current time) and the card is answered unlocked; an unknown card is a 404.
pub fn do_scan(state: &mut AppState, user: &user::Model, id: &String) -> (r: Result<Reply, Fault>)
    requires
        old(state).wf(),
    ensures
        final(state).wf(),
        match find(old(state)@.cards, id@) {
            None => {
                &&& r matches Ok(Reply::Status(404))
                &&& final(state)@ == old(state)@
                &&& final(state).pending_writes() == old(state).pending_writes()
            },
            Some(c) => if has_key(old(state)@.scans, (id@, user.username@)) {
                &&& r == Err::<Reply, Fault>(Fault::AlreadyScanned)
                &&& final(state)@ == old(state)@
                &&& final(state).pending_writes() == old(state).pending_writes()
            } else {
                let sc = final(state)@.scans.last();
                let mid = DbView { scans: old(state)@.scans.push(sc), ..old(state)@ };
                &&& r matches Ok(Reply::Card(d)) && card_data_of(old(state)@, c, true, d)
                &&& sc.username@ == user.username@
                &&& sc.card@ == id@
                &&& final(state)@.scans == old(state)@.scans.push(sc)
                &&& adds_teams(mid, final(state)@, |k: i32| k == find(old(state)@.card_designs, c.design).unwrap().team)
                &&& final(state).pending_writes() == old(state).pending_writes().push(DbWrite::InsertScan(sc)) + team_inserts(mid, final(state)@)
            },
        },
{
    let c = match state.find_card(id) {
        Some(c) => c,
        None => {
            return Ok(Reply::Status(404));
        },
    };
    let scans = state.scans_rows();
    if pos_scan(scans, id, &user.username, scans.len()).is_some() {
        return Err(Fault::AlreadyScanned);
    }
    let sc = scan::Model { username: user.username.clone(), card: id.clone(), scan_time: crate::secrets::now_micros() };
    proof {
        let k = choose|k: int| 0 <= k < state@.cards.len() && #[trigger] state@.cards[k].key() == id@;
        lemma_find_at(state@.cards, k);
        assert(has_key(state@.card_designs, state@.cards[k].design));
    }
    state.insert_scan(sc);
    let ghost mid = state@;
    let d = CardData::from_card(c, state, true);
    proof {
        assert(card_data_of(old(state)@, c, true, d));
    }
    Ok(Reply::Card(d))
}

/// Where scan `x` goes in a list ordered newest first: after every scan at
/// least as new.
pub open spec fn insert_index(s: Seq<scan::Model>, x: scan::Model) -> int
    decreases s.len(),
{
    if s.len() == 0 {
        0
    } else if s[0].scan_time < x.scan_time {
        0
    } else {
        1 + insert_index(s.drop_first(), x)
    }
}

/// The scans of `s` ordered newest first; scans made at the same time keep
/// their table order.
pub open spec fn newest_first(s: Seq<scan::Model>) -> Seq<scan::Model>
    decreases s.len(),
{
    if s.len() == 0 {
        s
    } else {
        let rest = newest_first(s.drop_last());
        rest.insert(insert_index(rest, s.last()), s.last())
    }
}

/// Every scan of `s` is at least as new as the ones after it.
pub open spec fn is_newest_first(s: Seq<scan::Model>) -> bool {
    forall|i: int, j: int| 0 <= i < j < s.len() ==> #[trigger] s[i].scan_time >= #[trigger] s[j].scan_time
}

proof fn lemma_insert_index(s: Seq<scan::Model>, x: scan::Model)
    ensures
        0 <= insert_index(s, x) <= s.len(),
        forall|j: int| 0 <= j < insert_index(s, x) ==> #[trigger] s[j].scan_time >= x.scan_time,
        insert_index(s, x) < s.len() ==> s[insert_index(s, x)].scan_time < x.scan_time,
    decreases s.len(),
{
    if s.len() > 0 && s[0].scan_time >= x.scan_time {
        lemma_insert_index(s.drop_first(), x);
        assert forall|j: int| 0 <= j < insert_index(s, x) implies #[trigger] s[j].scan_time >= x.scan_time by {
            if j > 0 {
                assert(s[j] == s.drop_first()[j - 1]);
            }
        }
    }
}

/// Ordering newest first keeps every scan and yields a list ordered newest
/// first.
pub proof fn lemma_newest_first(s: Seq<scan::Model>)
    ensures
        newest_first(s).to_multiset() == s.to_multiset(),
        newest_first(s).len() == s.len(),
        is_newest_first(newest_first(s)),
    decreases s.len(),
{
    broadcast use vstd::seq_lib::group_to_multiset_ensures;
    if s.len() > 0 {
        let rest = newest_first(s.drop_last());
        let x = s.last();
        lemma_newest_first(s.drop_last());
        lemma_insert_index(rest, x);
        let k = insert_index(rest, x);
        vstd::seq_lib::to_multiset_insert(rest, k, x);
        vstd::seq_lib::to_multiset_build(s.drop_last(), x);
        assert(s.drop_last().push(x) =~= s);
        let t = rest.insert(k, x);
        assert forall|i: int, j: int| 0 <= i < j < t.len() implies #[trigger] t[i].scan_time >= #[trigger] t[j].scan_time by {
            if j < k {
            } else if j == k {
                assert(t[i] == rest[i]);
            } else if i < k {
                assert(t[i] == rest[i]);
                assert(t[j] == rest[j - 1]);
            } else if i == k {
                assert(t[j] == rest[j - 1]);
                if k < rest.len() {
                    assert(rest[k].scan_time >= rest[j - 1].scan_time || k == j - 1);
                }
            } else {
                assert(t[i] == rest[i - 1]);
                assert(t[j] == rest[j - 1]);
            }
        }
    }
}

/// Orders scans newest first, as `newest_first` does.
pub fn sort_newest_first(v: Vec<scan::Model>) -> (r: Vec<scan::Model>)
    ensures
        r@ == newest_first(v@),
{
    let mut out: Vec<scan::Model> = Vec::new();
    let mut i: usize = 0;
    while i < v.len()
        invariant
            i <= v.len(),
            out@ == newest_first(v@.take(i as int)),
        decreases v.len() - i,
    {
        let x = v[i].duplicate();
        let mut k: usize = 0;
        proof {
            lemma_insert_index(out@, x);
        }
        while k < out.len() && out[k].scan_time >= x.scan_time
            invariant
                k <= out.len(),
                k <= insert_index(out@, x),
                0 <= insert_index(out@, x) <= out@.len(),
                forall|j: int| 0 <= j < insert_index(out@, x) ==> #[trigger] out@[j].scan_time >= x.scan_time,
                insert_index(out@, x) < out@.len() ==> out@[insert_index(out@, x)].scan_time < x.scan_time,
            decreases out.len() - k,
        {
            k = k + 1;
        }
        proof {
            assert(v@.take(i + 1).drop_last() =~= v@.take(i as int));
            assert(v@.take(i + 1).last() == x);
        }
        out.insert(k, x);
        i = i + 1;
    }
    proof {
        assert(v@.take(v.len() as int) =~= v@);
    }
    out
}

/// `GET /api/scans`: the cards the caller scanned, unlocked, newest scan
/// first.
pub fn get_scans(state: &mut AppState, user: &user::Model) -> (r: Reply)
    requires
        old(state).wf(),
    ensures
        final(state).wf(),
        final(state).pending_writes() == old(state).pending_writes() + team_inserts(old(state)@, final(state)@),
        ({
            let sorted = newest_first(scans_of(old(state)@.scans, user.username@));
            r matches Reply::Cards(list) && list@.len() == sorted.len()
                && adds_teams(
                    old(state)@,
                    final(state)@,
                    |k: i32| exists|j: int| 0 <= j < list@.len() && list@[j].team_number == k,
                )
                && forall|i: int| 0 <= i < sorted.len() ==> card_data_of(
                    old(state)@,
                    find(old(state)@.cards, sorted[i].card@).unwrap(),
                    true,
                    #[trigger] list@[i],
                )
        }),
{
    proof {
        lemma_only_new_teams_refl(state@);
        assert(state.pending_writes() + team_inserts(state@, state@) =~= state.pending_writes());
    }
    let ghost v0 = state@;
    let ghost p0 = state.pending_writes();
    let rows = state.scans_rows();
    let mut mine: Vec<scan::Model> = Vec::new();
    let mut i: usize = 0;
    while i < rows.len()
        invariant
            i <= rows.len(),
            mine@ == scans_of(rows@.take(i as int), user.username@),
        decreases rows.len() - i,
    {
        proof {
            assert(rows@.take(i + 1).drop_last() =~= rows@.take(i as int));
        }
        if rows[i].username == user.username {
            mine.push(rows[i].duplicate());
        }
        i = i + 1;
    }
    proof {
        assert(rows@.take(rows.len() as int) =~= rows@);
    }
    let sorted = sort_newest_first(mine);
    proof {
        lemma_newest_first(scans_of(v0.scans, user.username@));
        assert forall|j: int| 0 <= j < sorted@.len() implies has_key(v0.cards, #[trigger] sorted@[j].card@) by {
            broadcast use vstd::seq_lib::group_to_multiset_ensures;
            assert(sorted@.contains(sorted@[j]));
            assert(sorted@.to_multiset().contains(sorted@[j]));
            lemma_scans_of_in(v0.scans, user.username@, sorted@[j]);
            let k = choose|k: int| 0 <= k < v0.scans.len() && v0.scans[k] == sorted@[j];
            assert(has_key(v0.cards, v0.scans[k].card@));
        }
    }
    let mut cards: Vec<CardData> = Vec::new();
    let mut j: usize = 0;
    while j < sorted.len()
        invariant
            state.wf(),
            j <= sorted.len(),
            v0.wf(),
            adds_teams(v0, state@, |k: i32| exists|i: int| 0 <= i < cards@.len() && cards@[i].team_number == k),
            state.pending_writes() == p0 + team_inserts(v0, state@),
            forall|k: int| 0 <= k < sorted@.len() ==> has_key(v0.cards, #[trigger] sorted@[k].card@),
            cards@.len() == j,
            forall|k: int| 0 <= k < j ==> card_data_of(v0, find(v0.cards, sorted@[k].card@).unwrap(), true, #[trigger] cards@[k]),
        decreases sorted.len() - j,
    {
        let c = state.find_card(&sorted[j].card).unwrap();
        proof {
            assert(has_key(v0.cards, sorted@[j as int].card@));
            let k = choose|k: int| 0 <= k < v0.cards.len() && #[trigger] v0.cards[k].key() == sorted@[j as int].card@;
            lemma_find_at(v0.cards, k);
            assert(has_key(v0.card_designs, v0.cards[k].design));
        }
        let ghost v1 = state@;
        let d = CardData::from_card(c, state, true);
        proof {
            lemma_only_new_teams_trans(v0, v1, state@);
            lemma_card_data_stable(v0, v1, c, true, d);
        }
        let ghost c0 = cards@;
        cards.push(d);
        proof {
            lemma_cards_add_team(v0, v1, state@, c0, cards@, c, d);
        }
        j = j + 1;
    }
    Reply::Cards(cards)
}

/// A scan of `scans_of(s, name)` is a scan of `s`.
proof fn lemma_scans_of_in(s: Seq<scan::Model>, name: Seq<char>, x: scan::Model)
    requires
        scans_of(s, name).to_multiset().contains(x),
    ensures
        exists|k: int| 0 <= k < s.len() && s[k] == x,
    decreases s.len(),
{
    broadcast use vstd::seq_lib::group_to_multiset_ensures;
    if s.len() > 0 {
        let rest = scans_of(s.drop_last(), name);
        if s.last() == x {
            assert(s[s.len() - 1] == x);
        } else {
            if s.last().username@ == name {
                vstd::seq_lib::to_multiset_build(rest, s.last());
            }
            lemma_scans_of_in(s.drop_last(), name, x);
            let k = choose|k: int| 0 <= k < s.drop_last().len() && s.drop_last()[k] == x;
            assert(s[k] == x);
        }
    }
}

} // verus!
