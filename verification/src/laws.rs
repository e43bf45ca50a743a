//! Properties that span several operations of the site: what one request
//! leaves behind for the next.

use vstd::prelude::*;
use crate::entity::{scan, user, user_team};
use crate::state::{new_user_row, team_name, team_or_new};
use crate::tables::{DbView, DbWrite, Keyed, apply_all, find, has_key, lemma_find_at, lemma_push_fresh};
use crate::secrets::password_check;
use crate::api::{joins_as_admin, used_code, invite_used, scans_of, members_of, designs_matching};
use crate::designs::{design_ids, max_id, next_id};
use crate::entity::card_design;
use crate::context::{Context, has_bool, has_str, user_entries};
use crate::frontend::{member_context, standard_context};

verus! {

/// A user who has just registered can sign in with the same password: in the
/// tables `register` leaves (its new row `u` added to `before`), the name
/// finds `u`, and the password checks against `u`'s hash, which is the case
/// in which `login` hands out a token.
pub proof fn law_register_then_login(before: DbView, u: user::Model, name: Seq<char>, password: Seq<char>)
    requires
        before.wf(),
        !has_key(before.users, name),
        new_user_row(u, name, password),
    ensures
        find(before.users.push(u), name) == Some(u),
        password_check(u.password@, password) == Some(true),
{
    lemma_push_fresh(before.users, u);
}

/// The token a sign-in hands out leads back to the user who signed in: in
/// well-formed tables whose last token row (the one `login` and `register`
/// add) holds `token` for `name`, the token finds that row, and its user
/// exists, so `Auth` accepts the token as that user.
pub proof fn law_signed_in_token_resolves(after: DbView, token: Seq<char>, name: Seq<char>)
    requires
        after.wf(),
        after.auth_tokens.len() > 0,
        after.auth_tokens.last().token@ == token,
        after.auth_tokens.last().user@ == name,
    ensures
        find(after.auth_tokens, token) matches Some(t) && t.user@ == name,
        has_key(after.users, name),
{
    lemma_find_at(after.auth_tokens, after.auth_tokens.len() - 1);
    assert(has_key(after.users, after.auth_tokens[after.auth_tokens.len() - 1].user@));
}

/// Asking for a team twice gives the same team: after `get_team(n)` (which
/// adds the row `r` only where the team had none) the team has a row, and
/// its name is the one the first call gave, so a second call adds nothing.
pub proof fn law_get_team_twice(before: DbView, after: DbView, n: i32, r: crate::entity::team::Model)
    requires
        before.wf(),
        team_or_new(before, n, r),
        after.teams == (if has_key(before.teams, n) {
            before.teams
        } else {
            before.teams.push(r)
        }),
    ensures
        has_key(after.teams, n),
        team_name(after, n) == team_name(before, n),
        team_or_new(after, n, r),
{
    if has_key(before.teams, n) {
    } else {
        lemma_push_fresh(before.teams, r);
        assert(r.key() == n);
    }
}

/// A join code makes at most one team admin: once a membership holds the
/// code it was made admin with, joining with the same code again does not
/// make an admin.
pub proof fn law_join_code_used_once(v: DbView, m: user_team::Model, code: String)
    requires
        v.user_teams.len() > 0,
        v.user_teams.last() == m,
        m.is_admin,
        m.invite == Some(code),
    ensures
        invite_used(v, code@),
        !joins_as_admin(v, Some(code)),
{
    assert(used_code(v.user_teams[v.user_teams.len() - 1], code@));
}

/// An invite that made a team admin cannot be used again after that admin
/// leaves: `leave_team` deletes the invite row, and a code with no invite
/// row makes no admin.
pub proof fn law_left_invite_not_reused(before: DbView, after: DbView, name: Seq<char>, code: String)
    requires
        find(before.user_teams, name) matches Some(m) && m.invite == Some(code),
        !has_key(after.invites, code@),
    ensures
        !joins_as_admin(after, Some(code)),
{
}

/// A scan is listed among its user's scans, after the ones made before it,
/// and a second scan of the same card by the same user is refused: the
/// tables then hold its key.
pub proof fn law_scan_then_listed(before: DbView, sc: scan::Model, name: Seq<char>)
    requires
        sc.username@ == name,
    ensures
        scans_of(before.scans.push(sc), name) == scans_of(before.scans, name).push(sc),
        has_key(before.scans.push(sc), (sc.card@, name)),
{
    let s = before.scans.push(sc);
    assert(s.drop_last() =~= before.scans);
    assert(s[s.len() - 1].key() == (sc.card@, name));
}

/// Each new card design is numbered one above the one before it: after a
/// design with the table's next id is added, the next id is one more.
pub proof fn law_design_ids_increase(before: Seq<card_design::Model>, d: card_design::Model)
    requires
        d.id == next_id(design_ids(before)),
    ensures
        next_id(design_ids(before.push(d))) == d.id + 1,
{
    let ids = design_ids(before);
    let ids2 = design_ids(before.push(d));
    assert(ids2 =~= ids.push(d.id));
    assert(ids2.drop_last() =~= ids);
    if ids.len() > 0 {
        assert(max_id(ids2) == (if max_id(ids) < d.id { d.id as int } else { max_id(ids) }));
    }
}

/// Storing writes in two batches, as two `take_pending` calls hand them out,
/// gives the tables that storing them all at once gives.
pub proof fn law_writes_in_batches(v: DbView, first: Seq<DbWrite>, second: Seq<DbWrite>)
    ensures
        apply_all(v, first + second) == apply_all(apply_all(v, first), second),
    decreases second.len(),
{
    if second.len() == 0 {
        assert(first + second =~= first);
    } else {
        law_writes_in_batches(v, first, second.drop_last());
        assert((first + second).drop_last() =~= first + second.drop_last());
        assert((first + second).last() == second.last());
    }
}

/// Every page carries the same standard values: the context of a page that
/// reads no tables (`create_standard_context`) and that of a signed-in
/// user's page (`signed_in_context`) both name the site (`FRCC`, version
/// `1.0.0`) and say whether the visitor is signed in; the signed-in one
/// also holds every value `build_context` sets for that user.
pub proof fn law_every_page_names_the_site(
    v: DbView,
    is_auth: bool,
    user: Option<user::Model>,
    member: user::Model,
    c: &Context,
)
    ensures
        standard_context(c, is_auth, user) ==> {
            &&& has_str(c, "site_name"@, "FRCC"@)
            &&& has_str(c, "site_version"@, "1.0.0"@)
            &&& has_bool(c, "is_auth"@, is_auth)
        },
        member_context(v, member, c) ==> {
            &&& has_str(c, "site_name"@, "FRCC"@)
            &&& has_str(c, "site_version"@, "1.0.0"@)
            &&& has_bool(c, "is_auth"@, true)
            &&& user_entries(v, Some(member), c)
        },
{
}

/// The members a team's member list shows are exactly its memberships, in
/// table order: the rows whose team is `n`, admins or not, and no others.
pub proof fn law_members_are_the_team(s: Seq<user_team::Model>, n: u32)
    ensures
        members_of(s, n) == s.filter(|m: user_team::Model| m.team as int == n as int),
        forall|i: int| 0 <= i < members_of(s, n).len() ==> (#[trigger] members_of(s, n)[i]).team as int == n as int,
        forall|j: int| 0 <= j < s.len() && s[j].team as int == n as int ==> #[trigger] members_of(s, n).contains(s[j]),
    decreases s.len(),
{
    broadcast use vstd::seq_lib::group_filter_ensures;
    reveal(Seq::filter);
    if s.len() > 0 {
        law_members_are_the_team(s.drop_last(), n);
    }
}

/// Without a user, the designs `GET /api/cards` shows are exactly those
/// of the team asked for (if one is) and of the year asked for (if one
/// is), both filters applied, in table order.
pub proof fn law_cards_pass_both_filters(s: Seq<card_design::Model>, team: Option<i32>, year: Option<i16>)
    ensures
        designs_matching(s, team, year) == s.filter(
            |d: card_design::Model| (team matches Some(t) ==> d.team == t) && (year matches Some(y) ==> d.year == y),
        ),
        forall|i: int| 0 <= i < designs_matching(s, team, year).len() ==> {
            &&& (team matches Some(t) ==> (#[trigger] designs_matching(s, team, year)[i]).team == t)
            &&& (year matches Some(y) ==> designs_matching(s, team, year)[i].year == y)
        },
        forall|j: int| 0 <= j < s.len() && (team matches Some(t) ==> s[j].team == t) && (year matches Some(y) ==> s[j].year == y)
            ==> #[trigger] designs_matching(s, team, year).contains(s[j]),
    decreases s.len(),
{
    broadcast use vstd::seq_lib::group_filter_ensures;
    reveal(Seq::filter);
    if s.len() > 0 {
        law_cards_pass_both_filters(s.drop_last(), team, year);
    }
}

} // verus!
