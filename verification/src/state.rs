//! The site's state: the tables in memory, the writes not yet sent to the
//! database, and the operations on them that the pages and endpoints share.

use vstd::prelude::*;
use crate::entity::{auth_token, card, card_ability, card_design, invite, scan, team, user, user_team};
use crate::tables::{DbView, DbWrite, Keyed, Tables, apply_all, lemma_apply_push, lemma_key_index, find, has_key, keys_unique, lemma_find_at, lemma_find_absent, lemma_push_fresh, lemma_update_same_key, lemma_remove_at, pos_user, pos_team, pos_user_team, pos_invite, pos_auth_token, pos_card_design, pos_card, pos_card_ability, pos_scan};
use crate::secrets::{argon2_check, argon2_hash, password_check, phc_string, random_id, is_safe_char};

verus! {

/// The places where the site gives up on a request (where it unwraps a
/// missing value or a failed database write).
#[derive(Debug, Clone, Copy, PartialEq, Eq, Structural)]
pub enum Fault {
    /// The rows read at start-up break a key or a reference.
    MalformedTables,
    /// A user that the request names is not in the `user` table.
    NoSuchUser,
    /// A new user's name is already taken.
    UsernameTaken,
    /// A stored password hash is not a PHC string.
    MalformedPasswordHash,
    /// argon2 could not hash a password.
    HashFailed,
    /// A fresh random identifier is already a key of its table.
    IdCollision,
    /// A team number in a form does not parse.
    BadTeamNumber,
    /// A required form field is absent.
    MissingField,
    /// The user already belongs to a team.
    AlreadyMember,
    /// The user belongs to no team (or not to the team named).
    NotMember,
    /// The team named does not exist.
    NoSuchTeam,
    /// The user already scanned this card.
    AlreadyScanned,
    /// The request carries no `token` cookie.
    NoTokenCookie,
    /// A card design has no printed card.
    DesignWithoutCard,
    /// No id is left for a new row.
    IdsExhausted,
}

/// The site's state: every table, and the writes the database has not seen yet.
pub struct AppState {
    users: Vec<user::Model>,
    teams: Vec<team::Model>,
    user_teams: Vec<user_team::Model>,
    invites: Vec<invite::Model>,
    auth_tokens: Vec<auth_token::Model>,
    card_designs: Vec<card_design::Model>,
    cards: Vec<card::Model>,
    card_abilities: Vec<card_ability::Model>,
    scans: Vec<scan::Model>,
    pending: Vec<DbWrite>,
    stored: Ghost<DbView>,
}

impl View for AppState {
    type V = DbView;

    closed spec fn view(&self) -> DbView {
        DbView {
            users: self.users@,
            teams: self.teams@,
            user_teams: self.user_teams@,
            invites: self.invites@,
            auth_tokens: self.auth_tokens@,
            card_designs: self.card_designs@,
            cards: self.cards@,
            card_abilities: self.card_abilities@,
            scans: self.scans@,
        }
    }
}

/// The name of team `n` as `AppState::get_team` gives it: the stored name,
/// or the empty name of the team it creates.
pub open spec fn team_name(v: DbView, n: i32) -> Seq<char> {
    match find(v.teams, n) {
        Some(t) => t.name@,
        None => Seq::empty(),
    }
}

/// The team `AppState::get_team` gives for number `n`.
pub open spec fn team_or_new(v: DbView, n: i32, r: team::Model) -> bool {
    r.number == n && r.name@ == team_name(v, n)
}

/// `after` is `before` with, at most, new teams that have empty names.
pub open spec fn only_new_teams(before: DbView, after: DbView) -> bool {
    &&& after.users == before.users
    &&& after.user_teams == before.user_teams
    &&& after.invites == before.invites
    &&& after.auth_tokens == before.auth_tokens
    &&& after.card_designs == before.card_designs
    &&& after.cards == before.cards
    &&& after.card_abilities == before.card_abilities
    &&& after.scans == before.scans
    &&& before.teams.len() <= after.teams.len()
    &&& after.teams.take(before.teams.len() as int) == before.teams
    &&& forall|i: int|
        before.teams.len() <= i < after.teams.len() ==> (#[trigger] after.teams[i]).name@.len()
            == 0
}

/// The writes that record the teams `after` has beyond `before`.
pub open spec fn team_inserts(before: DbView, after: DbView) -> Seq<DbWrite> {
    after.teams.skip(before.teams.len() as int).map_values(|t: team::Model| DbWrite::InsertTeam(t))
}

/// `after` is `before` with new, empty-named teams for exactly those numbers
/// that `made` holds of and that had no row; nothing else changes.
pub open spec fn adds_teams(before: DbView, after: DbView, made: spec_fn(i32) -> bool) -> bool {
    &&& only_new_teams(before, after)
    &&& forall|n: i32| #[trigger] has_key(after.teams, n) == (has_key(before.teams, n) || made(n))
}

/// The number of the team user `name` belongs to, if any.
pub open spec fn member_team(v: DbView, name: Seq<char>) -> Option<i32> {
    match find(v.user_teams, name) {
        Some(m) => Some(m.team),
        None => None,
    }
}

/// Leaving the tables as they are adds the teams of any `made` that all
/// have rows already.
pub proof fn lemma_adds_teams_same(v: DbView, made: spec_fn(i32) -> bool)
    requires
        forall|n: i32| #[trigger] made(n) ==> has_key(v.teams, n),
    ensures
        adds_teams(v, v, made),
        team_inserts(v, v) == Seq::<DbWrite>::empty(),
{
    lemma_only_new_teams_refl(v);
}

/// Two steps that add teams add the teams of either step.
pub proof fn lemma_adds_teams_trans(
    a: DbView,
    b: DbView,
    c: DbView,
    p: spec_fn(i32) -> bool,
    q: spec_fn(i32) -> bool,
    r: spec_fn(i32) -> bool,
)
    requires
        adds_teams(a, b, p),
        adds_teams(b, c, q),
        keys_unique(c.teams),
        forall|n: i32| #[trigger] r(n) == (p(n) || q(n)),
    ensures
        adds_teams(a, c, r),
        team_inserts(a, c) == team_inserts(a, b) + team_inserts(b, c),
{
    lemma_only_new_teams_trans(a, b, c);
    assert forall|n: i32| #[trigger] has_key(c.teams, n) == (has_key(a.teams, n) || r(n)) by {
        assert(has_key(b.teams, n) == (has_key(a.teams, n) || p(n)));
        assert(r(n) == (p(n) || q(n)));
    }
}

pub proof fn lemma_only_new_teams_refl(v: DbView)
    ensures
        only_new_teams(v, v),
        team_inserts(v, v) == Seq::<DbWrite>::empty(),
{
    assert(v.teams.take(v.teams.len() as int) =~= v.teams);
    assert(team_inserts(v, v) =~= Seq::<DbWrite>::empty());
}

pub proof fn lemma_only_new_teams_trans(a: DbView, b: DbView, c: DbView)
    requires
        only_new_teams(a, b),
        only_new_teams(b, c),
        keys_unique(c.teams),
    ensures
        only_new_teams(a, c),
        team_inserts(a, c) == team_inserts(a, b) + team_inserts(b, c),
        forall|n: i32| #[trigger] team_name(c, n) == team_name(a, n) || (!has_key(a.teams, n)
            && team_name(c, n).len() == 0),
{
    assert(c.teams.take(a.teams.len() as int) =~= a.teams) by {
        assert(c.teams.take(b.teams.len() as int).take(a.teams.len() as int) =~= c.teams.take(
            a.teams.len() as int,
        ));
    }
    assert forall|i: int| a.teams.len() <= i < c.teams.len() implies (
    #[trigger] c.teams[i]).name@.len() == 0 by {
        if i < b.teams.len() {
            assert(c.teams.take(b.teams.len() as int)[i] == c.teams[i]);
        }
    }
    assert(team_inserts(a, c) =~= team_inserts(a, b) + team_inserts(b, c)) by {
        assert(c.teams.skip(a.teams.len() as int) =~= b.teams.skip(a.teams.len() as int)
            + c.teams.skip(b.teams.len() as int)) by {
            assert forall|i: int| 0 <= i < b.teams.len() - a.teams.len() implies
                c.teams.skip(a.teams.len() as int)[i] == b.teams.skip(a.teams.len() as int)[i] by {
                assert(c.teams.take(b.teams.len() as int)[a.teams.len() + i] == c.teams[a.teams.len() + i]);
            }
        }
    }
    assert forall|n: i32| #[trigger] team_name(c, n) == team_name(a, n) || (!has_key(a.teams, n)
        && team_name(c, n).len() == 0) by {
        lemma_new_teams_names(a, c, n);
    }
}

/// Under `only_new_teams`, every team number has the same name (a new team's
/// empty name is what `team_name` gives for a missing one).
pub proof fn lemma_team_name_stable(a: DbView, c: DbView, n: i32)
    requires
        only_new_teams(a, c),
        keys_unique(c.teams),
    ensures
        team_name(c, n) == team_name(a, n),
{
    lemma_new_teams_names(a, c, n);
    if team_name(c, n) != team_name(a, n) {
        assert(team_name(c, n) =~= team_name(a, n));
    }
}

/// Under `only_new_teams`, a team keeps its name, and a team that was not
/// there has the empty name.
pub proof fn lemma_new_teams_names(a: DbView, c: DbView, n: i32)
    requires
        only_new_teams(a, c),
        keys_unique(c.teams),
    ensures
        team_name(c, n) == team_name(a, n) || (!has_key(a.teams, n) && team_name(c, n).len() == 0),
        has_key(a.teams, n) ==> team_name(c, n) == team_name(a, n),
{
    if has_key(a.teams, n) {
        let i = choose|i: int| 0 <= i < a.teams.len() && #[trigger] a.teams[i].key() == n;
        assert(c.teams.take(a.teams.len() as int)[i] == c.teams[i]);
        assert(c.teams[i] == a.teams[i]);
        lemma_find_at(c.teams, i);
        assert(keys_unique(a.teams)) by {
            assert forall|x: int, y: int|
                0 <= x < a.teams.len() && 0 <= y < a.teams.len() && #[trigger] a.teams[x].key()
                    == #[trigger] a.teams[y].key() implies x == y by {
                assert(c.teams.take(a.teams.len() as int)[x] == c.teams[x]);
                assert(c.teams.take(a.teams.len() as int)[y] == c.teams[y]);
                assert(c.teams[x].key() == c.teams[y].key());
            }
        }
        lemma_find_at(a.teams, i);
    } else if has_key(c.teams, n) {
        let i = choose|i: int| 0 <= i < c.teams.len() && #[trigger] c.teams[i].key() == n;
        lemma_find_at(c.teams, i);
        if i < a.teams.len() {
            assert(c.teams.take(a.teams.len() as int)[i] == c.teams[i]);
            assert(a.teams[i].key() == n);
        }
    }
}

impl AppState {
    /// The tables meet `DbView::wf`, and the pending writes, made in order
    /// on the tables as stored, give the tables in memory.
    pub open spec fn wf(&self) -> bool {
        &&& self@.wf()
        &&& apply_all(self.stored(), self.pending_writes()) == self@
    }

    /// The writes made since the last `take_pending`, oldest first.
    pub closed spec fn pending_writes(&self) -> Seq<DbWrite> {
        self.pending@
    }

    /// The tables as the database held them at the last `take_pending` (or at
    /// start-up).
    pub closed spec fn stored(&self) -> DbView {
        self.stored@
    }

    /// The state of the rows read at start-up, with no pending writes; refused
    /// (`Fault::MalformedTables`) where they break a key or a reference.
    pub fn new(tables: Tables) -> (r: Result<AppState, Fault>)
        ensures
            match r {
                Ok(s) => {
                    &&& s.wf()
                    &&& s@ == tables.view_db()
                    &&& s.stored() == tables.view_db()
                    &&& s.pending_writes() == Seq::<DbWrite>::empty()
                },
                Err(f) => f == Fault::MalformedTables && !tables.view_db().wf(),
            },
    {
        if !tables.is_well_formed() {
            return Err(Fault::MalformedTables);
        }
        let ghost v = tables.view_db();
        let Tables {
            users,
            teams,
            user_teams,
            invites,
            auth_tokens,
            card_designs,
            cards,
            card_abilities,
            scans,
        } = tables;
        Ok(
            AppState {
                users,
                teams,
                user_teams,
                invites,
                auth_tokens,
                card_designs,
                cards,
                card_abilities,
                scans,
                pending: Vec::new(),
                stored: Ghost(v),
            },
        )
    }

    /// Hands over the pending writes, oldest first, and forgets them: made in
    /// order on the tables as stored, they give the tables in memory, which
    /// are from then on the stored ones.
    pub fn take_pending(&mut self) -> (r: Vec<DbWrite>)
        requires
            old(self).wf(),
        ensures
            final(self).wf(),
            r@ == old(self).pending_writes(),
            apply_all(old(self).stored(), r@) == old(self)@,
            final(self).pending_writes() == Seq::<DbWrite>::empty(),
            final(self).stored() == old(self)@,
            final(self)@ == old(self)@,
    {
        let mut out: Vec<DbWrite> = Vec::new();
        std::mem::swap(&mut out, &mut self.pending);
        self.stored = Ghost(self@);
        out
    }

    /// The row of team `team_number`; where there is none, a team of that
    /// number with an empty name is created first.
    pub fn get_team(&mut self, team_number: i32) -> (r: team::Model)
        requires
            old(self).wf(),
        ensures
            final(self).wf(),
            team_or_new(old(self)@, team_number, r),
            final(self)@.teams == (if has_key(old(self)@.teams, team_number) {
                old(self)@.teams
            } else {
                old(self)@.teams.push(r)
            }),
            only_new_teams(old(self)@, final(self)@),
            final(self).pending_writes() == old(self).pending_writes() + team_inserts(
                old(self)@,
                final(self)@,
            ),
            find(final(self)@.teams, team_number) == Some(r),
    {
        proof {
            lemma_only_new_teams_refl(self@);
        }
        match pos_team(&self.teams, team_number, self.teams.len()) {
            Some(i) => {
                proof {
                    lemma_find_at(self@.teams, i as int);
                    assert(self.pending@ + team_inserts(self@, self@) =~= self.pending@);
                }
                self.teams[i].duplicate()
            },
            None => {
                let t = team::Model { number: team_number, name: String::new() };
                let ghost before = self@;
                proof {
                    lemma_push_fresh(self@.teams, t);
                    lemma_find_absent(self@.teams, team_number);
                }
                let ghost v0 = self@;
                self.teams.push(t.duplicate());
                self.pending.push(DbWrite::InsertTeam(t.duplicate()));
                proof {
                    lemma_apply_push(self.stored@, old(self).pending@, DbWrite::InsertTeam(t));
                    assert(DbWrite::InsertTeam(t).apply(v0) =~= self@);
                    assert(self@.teams.take(before.teams.len() as int) =~= before.teams);
                    assert(team_inserts(before, self@) =~= seq![DbWrite::InsertTeam(t)]);
                }
                t
            },
        }
    }

    // Read access to the rows, for the handlers of this crate.

    pub(crate) fn users_rows(&self) -> (r: &Vec<user::Model>)
        ensures
            r@ == self@.users,
    {
        &self.users
    }

    pub(crate) fn teams_rows(&self) -> (r: &Vec<team::Model>)
        ensures
            r@ == self@.teams,
    {
        &self.teams
    }

    pub(crate) fn user_teams_rows(&self) -> (r: &Vec<user_team::Model>)
        ensures
            r@ == self@.user_teams,
    {
        &self.user_teams
    }

    pub(crate) fn invites_rows(&self) -> (r: &Vec<invite::Model>)
        ensures
            r@ == self@.invites,
    {
        &self.invites
    }

    pub(crate) fn auth_tokens_rows(&self) -> (r: &Vec<auth_token::Model>)
        ensures
            r@ == self@.auth_tokens,
    {
        &self.auth_tokens
    }

    pub(crate) fn card_designs_rows(&self) -> (r: &Vec<card_design::Model>)
        ensures
            r@ == self@.card_designs,
    {
        &self.card_designs
    }

    pub(crate) fn cards_rows(&self) -> (r: &Vec<card::Model>)
        ensures
            r@ == self@.cards,
    {
        &self.cards
    }

    pub(crate) fn card_abilities_rows(&self) -> (r: &Vec<card_ability::Model>)
        ensures
            r@ == self@.card_abilities,
    {
        &self.card_abilities
    }

    pub(crate) fn scans_rows(&self) -> (r: &Vec<scan::Model>)
        ensures
            r@ == self@.scans,
    {
        &self.scans
    }

    // Row-level writes: each keeps `wf` and records itself in `pending`.

    pub(crate) fn insert_user(&mut self, u: user::Model)
        requires
            old(self).wf(),
            !has_key(old(self)@.users, u.key()),
        ensures
            final(self).wf(),
            final(self)@ == (DbView { users: old(self)@.users.push(u), ..old(self)@ }),
            final(self).pending_writes() == old(self).pending_writes().push(DbWrite::InsertUser(u)),
    {
        let ghost w = DbWrite::InsertUser(u);
        let ghost v0 = self@;
        proof {
            lemma_push_fresh(self@.users, u);
        }
        self.pending.push(DbWrite::InsertUser(u.duplicate()));
        self.users.push(u);
        proof {
            assert forall|i: int| 0 <= i < self@.auth_tokens.len() implies has_key(
                self@.users,
                (#[trigger] self@.auth_tokens[i]).user@,
            ) by {
                assert(has_key(old(self)@.users, self@.auth_tokens[i].user@));
            }
        }
        proof {
            lemma_apply_push(self.stored@, old(self).pending@, w);
            assert(w.apply(v0) =~= self@);
        }
    }

    pub(crate) fn update_user_at(&mut self, i: usize, u: user::Model)
        requires
            old(self).wf(),
            i < old(self)@.users.len(),
            u.key() == old(self)@.users[i as int].key(),
        ensures
            final(self).wf(),
            final(self)@ == (DbView { users: old(self)@.users.update(i as int, u), ..old(self)@ }),
            final(self).pending_writes() == old(self).pending_writes().push(DbWrite::UpdateUser(u)),
    {
        let ghost w = DbWrite::UpdateUser(u);
        let ghost v0 = self@;
        proof {
            lemma_update_same_key(self@.users, i as int, u);
        }
        self.pending.push(DbWrite::UpdateUser(u.duplicate()));
        self.users.set(i, u);
        proof {
            assert forall|j: int| 0 <= j < self@.auth_tokens.len() implies has_key(
                self@.users,
                (#[trigger] self@.auth_tokens[j]).user@,
            ) by {
                assert(has_key(old(self)@.users, self@.auth_tokens[j].user@));
            }
        }
        proof {
            lemma_apply_push(self.stored@, old(self).pending@, w);
            lemma_key_index(v0.users, i as int);
            assert(w.apply(v0) =~= self@);
        }
    }

    pub(crate) fn update_team_at(&mut self, i: usize, t: team::Model)
        requires
            old(self).wf(),
            i < old(self)@.teams.len(),
            t.key() == old(self)@.teams[i as int].key(),
        ensures
            final(self).wf(),
            final(self)@ == (DbView { teams: old(self)@.teams.update(i as int, t), ..old(self)@ }),
            final(self).pending_writes() == old(self).pending_writes().push(DbWrite::UpdateTeam(t)),
    {
        let ghost w = DbWrite::UpdateTeam(t);
        let ghost v0 = self@;
        proof {
            lemma_update_same_key(self@.teams, i as int, t);
        }
        self.pending.push(DbWrite::UpdateTeam(t.duplicate()));
        self.teams.set(i, t);
        proof {
            lemma_apply_push(self.stored@, old(self).pending@, w);
            lemma_key_index(v0.teams, i as int);
            assert(w.apply(v0) =~= self@);
        }
    }

    pub(crate) fn insert_user_team(&mut self, m: user_team::Model)
        requires
            old(self).wf(),
            !has_key(old(self)@.user_teams, m.key()),
        ensures
            final(self).wf(),
            final(self)@ == (DbView { user_teams: old(self)@.user_teams.push(m), ..old(self)@ }),
            final(self).pending_writes() == old(self).pending_writes().push(DbWrite::InsertUserTeam(m)),
    {
        let ghost w = DbWrite::InsertUserTeam(m);
        let ghost v0 = self@;
        proof {
            lemma_push_fresh(self@.user_teams, m);
        }
        self.pending.push(DbWrite::InsertUserTeam(m.duplicate()));
        self.user_teams.push(m);
        proof {
            lemma_apply_push(self.stored@, old(self).pending@, w);
            assert(w.apply(v0) =~= self@);
        }
    }

    pub(crate) fn update_user_team_at(&mut self, i: usize, m: user_team::Model)
        requires
            old(self).wf(),
            i < old(self)@.user_teams.len(),
            m.key() == old(self)@.user_teams[i as int].key(),
        ensures
            final(self).wf(),
            final(self)@ == (DbView { user_teams: old(self)@.user_teams.update(i as int, m), ..old(self)@ }),
            final(self).pending_writes() == old(self).pending_writes().push(DbWrite::UpdateUserTeam(m)),
    {
        let ghost w = DbWrite::UpdateUserTeam(m);
        let ghost v0 = self@;
        proof {
            lemma_update_same_key(self@.user_teams, i as int, m);
        }
        self.pending.push(DbWrite::UpdateUserTeam(m.duplicate()));
        self.user_teams.set(i, m);
        proof {
            lemma_apply_push(self.stored@, old(self).pending@, w);
            lemma_key_index(v0.user_teams, i as int);
            assert(w.apply(v0) =~= self@);
        }
    }

    pub(crate) fn delete_user_team_at(&mut self, i: usize)
        requires
            old(self).wf(),
            i < old(self)@.user_teams.len(),
        ensures
            final(self).wf(),
            final(self)@ == (DbView { user_teams: old(self)@.user_teams.remove(i as int), ..old(self)@ }),
            final(self).pending_writes() == old(self).pending_writes().push(
                DbWrite::DeleteUserTeam(old(self)@.user_teams[i as int].user),
            ),
    {
        let ghost w = DbWrite::DeleteUserTeam(old(self)@.user_teams[i as int].user);
        let ghost v0 = self@;
        proof {
            lemma_remove_at(self@.user_teams, i as int);
        }
        let key = self.user_teams[i].user.clone();
        self.pending.push(DbWrite::DeleteUserTeam(key));
        self.user_teams.remove(i);
        proof {
            lemma_apply_push(self.stored@, old(self).pending@, w);
            lemma_key_index(v0.user_teams, i as int);
            assert(w.apply(v0) =~= self@);
        }
    }

    pub(crate) fn insert_invite(&mut self, inv: invite::Model)
        requires
            old(self).wf(),
            !has_key(old(self)@.invites, inv.key()),
        ensures
            final(self).wf(),
            final(self)@ == (DbView { invites: old(self)@.invites.push(inv), ..old(self)@ }),
            final(self).pending_writes() == old(self).pending_writes().push(DbWrite::InsertInvite(inv)),
    {
        let ghost w = DbWrite::InsertInvite(inv);
        let ghost v0 = self@;
        proof {
            lemma_push_fresh(self@.invites, inv);
        }
        self.pending.push(DbWrite::InsertInvite(inv.duplicate()));
        self.invites.push(inv);
        proof {
            lemma_apply_push(self.stored@, old(self).pending@, w);
            assert(w.apply(v0) =~= self@);
        }
    }

    pub(crate) fn delete_invite_at(&mut self, i: usize)
        requires
            old(self).wf(),
            i < old(self)@.invites.len(),
        ensures
            final(self).wf(),
            final(self)@ == (DbView { invites: old(self)@.invites.remove(i as int), ..old(self)@ }),
            final(self).pending_writes() == old(self).pending_writes().push(
                DbWrite::DeleteInvite(old(self)@.invites[i as int].code),
            ),
    {
        let ghost w = DbWrite::DeleteInvite(old(self)@.invites[i as int].code);
        let ghost v0 = self@;
        proof {
            lemma_remove_at(self@.invites, i as int);
        }
        let key = self.invites[i].code.clone();
        self.pending.push(DbWrite::DeleteInvite(key));
        self.invites.remove(i);
        proof {
            lemma_apply_push(self.stored@, old(self).pending@, w);
            lemma_key_index(v0.invites, i as int);
            assert(w.apply(v0) =~= self@);
        }
    }

    pub(crate) fn insert_auth_token(&mut self, t: auth_token::Model)
        requires
            old(self).wf(),
            !has_key(old(self)@.auth_tokens, t.key()),
            has_key(old(self)@.users, t.user@),
        ensures
            final(self).wf(),
            final(self)@ == (DbView { auth_tokens: old(self)@.auth_tokens.push(t), ..old(self)@ }),
            final(self).pending_writes() == old(self).pending_writes().push(DbWrite::InsertAuthToken(t)),
    {
        let ghost w = DbWrite::InsertAuthToken(t);
        let ghost v0 = self@;
        proof {
            lemma_push_fresh(self@.auth_tokens, t);
        }
        self.pending.push(DbWrite::InsertAuthToken(t.duplicate()));
        self.auth_tokens.push(t);
        proof {
            assert forall|i: int| 0 <= i < self@.auth_tokens.len() implies has_key(
                self@.users,
                (#[trigger] self@.auth_tokens[i]).user@,
            ) by {
                if i < old(self)@.auth_tokens.len() {
                    assert(self@.auth_tokens[i] == old(self)@.auth_tokens[i]);
                }
            }
        }
        proof {
            lemma_apply_push(self.stored@, old(self).pending@, w);
            assert(w.apply(v0) =~= self@);
        }
    }

    pub(crate) fn delete_auth_token_at(&mut self, i: usize)
        requires
            old(self).wf(),
            i < old(self)@.auth_tokens.len(),
        ensures
            final(self).wf(),
            final(self)@ == (DbView { auth_tokens: old(self)@.auth_tokens.remove(i as int), ..old(self)@ }),
            final(self).pending_writes() == old(self).pending_writes().push(
                DbWrite::DeleteAuthToken(old(self)@.auth_tokens[i as int].token),
            ),
    {
        let ghost w = DbWrite::DeleteAuthToken(old(self)@.auth_tokens[i as int].token);
        let ghost v0 = self@;
        proof {
            lemma_remove_at(self@.auth_tokens, i as int);
        }
        let key = self.auth_tokens[i].token.clone();
        self.pending.push(DbWrite::DeleteAuthToken(key));
        self.auth_tokens.remove(i);
        proof {
            assert forall|j: int| 0 <= j < self@.auth_tokens.len() implies has_key(
                self@.users,
                (#[trigger] self@.auth_tokens[j]).user@,
            ) by {
                let j2 = if j < i { j } else { j + 1 };
                assert(self@.auth_tokens[j] == old(self)@.auth_tokens[j2]);
            }
        }
        proof {
            lemma_apply_push(self.stored@, old(self).pending@, w);
            lemma_key_index(v0.auth_tokens, i as int);
            assert(w.apply(v0) =~= self@);
        }
    }

    pub(crate) fn insert_card_design(&mut self, d: card_design::Model)
        requires
            old(self).wf(),
            !has_key(old(self)@.card_designs, d.key()),
        ensures
            final(self).wf(),
            final(self)@ == (DbView { card_designs: old(self)@.card_designs.push(d), ..old(self)@ }),
            final(self).pending_writes() == old(self).pending_writes().push(DbWrite::InsertCardDesign(d)),
    {
        let ghost w = DbWrite::InsertCardDesign(d);
        let ghost v0 = self@;
        proof {
            lemma_push_fresh(self@.card_designs, d);
        }
        self.pending.push(DbWrite::InsertCardDesign(d.duplicate()));
        self.card_designs.push(d);
        proof {
            assert forall|i: int| 0 <= i < self@.cards.len() implies has_key(
                self@.card_designs,
                (#[trigger] self@.cards[i]).design,
            ) by {
                assert(has_key(old(self)@.card_designs, self@.cards[i].design));
            }
        }
        proof {
            lemma_apply_push(self.stored@, old(self).pending@, w);
            assert(w.apply(v0) =~= self@);
        }
    }

    pub(crate) fn insert_card_ability(&mut self, a: card_ability::Model)
        requires
            old(self).wf(),
            !has_key(old(self)@.card_abilities, a.key()),
        ensures
            final(self).wf(),
            final(self)@ == (DbView { card_abilities: old(self)@.card_abilities.push(a), ..old(self)@ }),
            final(self).pending_writes() == old(self).pending_writes().push(DbWrite::InsertCardAbility(a)),
    {
        let ghost w = DbWrite::InsertCardAbility(a);
        let ghost v0 = self@;
        proof {
            lemma_push_fresh(self@.card_abilities, a);
        }
        self.pending.push(DbWrite::InsertCardAbility(a.duplicate()));
        self.card_abilities.push(a);
        proof {
            lemma_apply_push(self.stored@, old(self).pending@, w);
            assert(w.apply(v0) =~= self@);
        }
    }

    pub(crate) fn insert_scan(&mut self, sc: scan::Model)
        requires
            old(self).wf(),
            !has_key(old(self)@.scans, sc.key()),
            has_key(old(self)@.cards, sc.card@),
        ensures
            final(self).wf(),
            final(self)@ == (DbView { scans: old(self)@.scans.push(sc), ..old(self)@ }),
            final(self).pending_writes() == old(self).pending_writes().push(DbWrite::InsertScan(sc)),
    {
        let ghost w = DbWrite::InsertScan(sc);
        let ghost v0 = self@;
        proof {
            lemma_push_fresh(self@.scans, sc);
        }
        self.pending.push(DbWrite::InsertScan(sc.duplicate()));
        self.scans.push(sc);
        proof {
            assert forall|i: int| 0 <= i < self@.scans.len() implies has_key(
                self@.cards,
                (#[trigger] self@.scans[i]).card@,
            ) by {
                if i < old(self)@.scans.len() {
                    assert(self@.scans[i] == old(self)@.scans[i]);
                }
            }
        }
        proof {
            lemma_apply_push(self.stored@, old(self).pending@, w);
            assert(w.apply(v0) =~= self@);
        }
    }

    // Reads.

    /// The row of user `username`, if any.
    pub fn find_user(&self, username: &String) -> (r: Option<user::Model>)
        requires
            self.wf(),
        ensures
            r == find(self@.users, username@),
    {
        match pos_user(&self.users, username, self.users.len()) {
            Some(i) => {
                proof {
                    lemma_find_at(self@.users, i as int);
                }
                Some(self.users[i].duplicate())
            },
            None => None,
        }
    }

    /// The team membership of user `username`, if any.
    pub fn find_membership(&self, username: &String) -> (r: Option<user_team::Model>)
        requires
            self.wf(),
        ensures
            r == find(self@.user_teams, username@),
    {
        match pos_user_team(&self.user_teams, username, self.user_teams.len()) {
            Some(i) => {
                proof {
                    lemma_find_at(self@.user_teams, i as int);
                }
                Some(self.user_teams[i].duplicate())
            },
            None => None,
        }
    }

    /// The card with id `id`, if any.
    pub fn find_card(&self, id: &String) -> (r: Option<card::Model>)
        requires
            self.wf(),
        ensures
            r == find(self@.cards, id@),
    {
        match pos_card(&self.cards, id, self.cards.len()) {
            Some(i) => {
                proof {
                    lemma_find_at(self@.cards, i as int);
                }
                Some(self.cards[i].duplicate())
            },
            None => None,
        }
    }

    /// The row of login token `token`, if any.
    pub fn find_token(&self, token: &String) -> (r: Option<auth_token::Model>)
        requires
            self.wf(),
        ensures
            r == find(self@.auth_tokens, token@),
    {
        match pos_auth_token(&self.auth_tokens, token, self.auth_tokens.len()) {
            Some(i) => {
                proof {
                    lemma_find_at(self@.auth_tokens, i as int);
                }
                Some(self.auth_tokens[i].duplicate())
            },
            None => None,
        }
    }

    /// The card design with id `id`, if any.
    pub fn find_card_design(&self, id: i32) -> (r: Option<card_design::Model>)
        requires
            self.wf(),
        ensures
            r == find(self@.card_designs, id),
    {
        match pos_card_design(&self.card_designs, id, self.card_designs.len()) {
            Some(i) => {
                proof {
                    lemma_find_at(self@.card_designs, i as int);
                }
                Some(self.card_designs[i].duplicate())
            },
            None => None,
        }
    }

    /// The team with number `number`, if any; nothing is created.
    pub fn find_team(&self, number: i32) -> (r: Option<team::Model>)
        requires
            self.wf(),
        ensures
            r == find(self@.teams, number),
    {
        match pos_team(&self.teams, number, self.teams.len()) {
            Some(i) => {
                proof {
                    lemma_find_at(self@.teams, i as int);
                }
                Some(self.teams[i].duplicate())
            },
            None => None,
        }
    }

    /// The team user `username` belongs to; where that team has no row yet, it
    /// is created with an empty name, as `get_team` does.
    pub fn get_user_team(&mut self, username: &String) -> (r: Option<team::Model>)
        requires
            old(self).wf(),
        ensures
            final(self).wf(),
            match find(old(self)@.user_teams, username@) {
                Some(m) => r matches Some(t) && team_or_new(old(self)@, m.team, t)
                    && final(self)@.teams == (if has_key(old(self)@.teams, m.team) {
                        old(self)@.teams
                    } else {
                        old(self)@.teams.push(t)
                    }),
                None => r is None && final(self)@ == old(self)@,
            },
            adds_teams(old(self)@, final(self)@, |n: i32| member_team(old(self)@, username@) == Some(n)),
            final(self).pending_writes() == old(self).pending_writes() + team_inserts(
                old(self)@,
                final(self)@,
            ),
    {
        proof {
            lemma_only_new_teams_refl(self@);
        }
        match self.find_membership(username) {
            Some(m) => {
                let ghost v0 = self@;
                let t = self.get_team(m.team);
                proof {
                    if !has_key(v0.teams, m.team) {
                        lemma_push_fresh(v0.teams, t);
                    }
                }
                Some(t)
            },
            None => {
                proof {
                    assert(self.pending@ + team_inserts(self@, self@) =~= self.pending@);
                }
                None
            },
        }
    }

    /// Whether user `username` is an admin of the team they belong to.
    pub fn is_team_admin(&self, username: &String) -> (r: bool)
        requires
            self.wf(),
        ensures
            r == match find(self@.user_teams, username@) {
                Some(m) => m.is_admin,
                None => false,
            },
    {
        match self.find_membership(username) {
            Some(m) => m.is_admin,
            None => false,
        }
    }

    /// Whether `password` matches the stored argon2 hash `hash`, which must be
    /// a PHC string.
    pub fn check_user_password(&self, hash: &String, password: &String) -> (r: bool)
        requires
            password_check(hash@, password@) is Some,
        ensures
            r == password_check(hash@, password@).unwrap(),
    {
        match argon2_check(hash.as_str(), password.as_str()) {
            Some(ok) => ok,
            None => false,
        }
    }

    /// `check_user_password` for any stored string: `None` where `hash` is
    /// not a PHC string (tested by parsing it, so the password is checked
    /// once).
    pub fn try_check_user_password(&self, hash: &String, password: &String) -> (r: Option<bool>)
        ensures
            r == password_check(hash@, password@),
    {
        if phc_string(hash.as_str(), password.as_str()) {
            Some(self.check_user_password(hash, password))
        } else {
            None
        }
    }

    /// Adds user `username` whose stored password hash is `hash`; the other
    /// columns take the table's defaults (no invite code, site admin, not
    /// verified). A taken name is refused.
    pub fn add_user(&mut self, username: &String, hash: String) -> (r: Result<(), Fault>)
        requires
            old(self).wf(),
        ensures
            final(self).wf(),
            (r == Err::<(), Fault>(Fault::UsernameTaken)) == has_key(old(self)@.users, username@),
            r is Err ==> r == Err::<(), Fault>(Fault::UsernameTaken) && final(self)@ == old(self)@
                && final(self).pending_writes() == old(self).pending_writes(),
            r is Ok ==> {
                let u = final(self)@.users.last();
                &&& u.username@ == username@
                &&& u.password@ == hash@
                &&& u.invited_with_code is None
                &&& u.is_admin
                &&& !u.is_verified
                &&& final(self)@ == (DbView { users: old(self)@.users.push(u), ..old(self)@ })
                &&& final(self).pending_writes() == old(self).pending_writes().push(DbWrite::InsertUser(u))
            },
    {
        if self.find_user(username).is_some() {
            return Err(Fault::UsernameTaken);
        }
        let u = user::Model {
            username: username.clone(),
            password: hash,
            invited_with_code: None,
            is_admin: true,
            is_verified: false,
        };
        self.insert_user(u);
        Ok(())
    }

    /// Creates user `username` with an argon2 hash of `password`; the other
    /// columns take the table's defaults (no invite code, site admin, not
    /// verified). The invite code is not used. A free name with a password of
    /// fewer than 2^30 characters (argon2 takes up to 2^32 - 1 bytes) is
    /// always created.
    pub fn create_user(&mut self, invite_code: Option<String>, username: &String, password: &String) -> (r: Result<(), Fault>)
        requires
            old(self).wf(),
        ensures
            final(self).wf(),
            (r == Err::<(), Fault>(Fault::UsernameTaken)) == has_key(old(self)@.users, username@),
            !has_key(old(self)@.users, username@) && password@.len() < 0x4000_0000 ==> r is Ok,
            match r {
                Ok(()) => {
                    let u = final(self)@.users.last();
                    &&& final(self)@ == (DbView { users: old(self)@.users.push(u), ..old(self)@ })
                    &&& final(self).pending_writes() == old(self).pending_writes().push(DbWrite::InsertUser(u))
                    &&& new_user_row(u, username@, password@)
                },
                Err(f) => {
                    &&& f == Fault::UsernameTaken || f == Fault::HashFailed
                    &&& final(self)@ == old(self)@
                    &&& final(self).pending_writes() == old(self).pending_writes()
                },
            },
    {
        if self.find_user(username).is_some() {
            return Err(Fault::UsernameTaken);
        }
        match argon2_hash(password.as_str()) {
            Some(hash) => self.add_user(username, hash),
            None => Err(Fault::HashFailed),
        }
    }

    /// Adds invite `code` on behalf of `inviter`; a code that is already a
    /// key of the table is refused.
    pub fn add_invite(&mut self, inviter: &String, code: String) -> (r: Result<String, Fault>)
        requires
            old(self).wf(),
        ensures
            final(self).wf(),
            (r is Err) == has_key(old(self)@.invites, code@),
            match r {
                Ok(c) => {
                    let inv = final(self)@.invites.last();
                    &&& c@ == code@
                    &&& inv.code@ == code@
                    &&& inv.inviter@ == inviter@
                    &&& final(self)@ == (DbView { invites: old(self)@.invites.push(inv), ..old(self)@ })
                    &&& final(self).pending_writes() == old(self).pending_writes().push(DbWrite::InsertInvite(inv))
                },
                Err(f) => {
                    &&& f == Fault::IdCollision
                    &&& final(self)@ == old(self)@
                    &&& final(self).pending_writes() == old(self).pending_writes()
                },
            },
    {
        if pos_invite(&self.invites, &code, self.invites.len()).is_some() {
            return Err(Fault::IdCollision);
        }
        let inv = invite::Model { code: code.clone(), inviter: inviter.clone() };
        self.insert_invite(inv);
        Ok(code)
    }

    /// Creates a fresh 64-character invite code on behalf of `inviter`.
    pub fn create_invite_code(&mut self, inviter: &String) -> (r: Result<String, Fault>)
        requires
            old(self).wf(),
        ensures
            final(self).wf(),
            match r {
                Ok(code) => {
                    let inv = final(self)@.invites.last();
                    &&& final(self)@ == (DbView { invites: old(self)@.invites.push(inv), ..old(self)@ })
                    &&& final(self).pending_writes() == old(self).pending_writes().push(DbWrite::InsertInvite(inv))
                    &&& inv.code@ == code@
                    &&& inv.inviter@ == inviter@
                    &&& code@.len() == 64
                    &&& forall|i: int| 0 <= i < code@.len() ==> is_safe_char(#[trigger] code@[i])
                },
                Err(f) => {
                    &&& f == Fault::IdCollision
                    &&& final(self)@ == old(self)@
                    &&& final(self).pending_writes() == old(self).pending_writes()
                },
            },
    {
        let code = random_id(64);
        self.add_invite(inviter, code)
    }

    /// Answers `true`: the lookup it makes cannot fail here, and its answer is
    /// whether the lookup succeeded, not whether the code exists.
    pub fn is_valid_invite_code(&self, code: &String) -> (r: bool)
        requires
            self.wf(),
        ensures
            r,
    {
        let _lookup = pos_invite(&self.invites, code, self.invites.len());
        true
    }

    /// Adds login token `token` for user `username`: refused for an unknown
    /// user, and for a token that is already a key of the table.
    pub fn add_token(&mut self, username: &String, token: String) -> (r: Result<String, Fault>)
        requires
            old(self).wf(),
        ensures
            final(self).wf(),
            (r == Err::<String, Fault>(Fault::NoSuchUser)) == !has_key(old(self)@.users, username@),
            (r == Err::<String, Fault>(Fault::IdCollision)) == (has_key(old(self)@.users, username@)
                && has_key(old(self)@.auth_tokens, token@)),
            match r {
                Ok(tok) => {
                    let t = final(self)@.auth_tokens.last();
                    &&& tok@ == token@
                    &&& t.token@ == token@
                    &&& t.user@ == username@
                    &&& final(self)@ == (DbView { auth_tokens: old(self)@.auth_tokens.push(t), ..old(self)@ })
                    &&& final(self).pending_writes() == old(self).pending_writes().push(DbWrite::InsertAuthToken(t))
                },
                Err(f) => {
                    &&& f == Fault::NoSuchUser || f == Fault::IdCollision
                    &&& final(self)@ == old(self)@
                    &&& final(self).pending_writes() == old(self).pending_writes()
                },
            },
    {
        if self.find_user(username).is_none() {
            return Err(Fault::NoSuchUser);
        }
        if pos_auth_token(&self.auth_tokens, &token, self.auth_tokens.len()).is_some() {
            return Err(Fault::IdCollision);
        }
        let t = auth_token::Model { user: username.clone(), token: token.clone() };
        self.insert_auth_token(t);
        Ok(token)
    }

    /// Creates a fresh 64-character login token for user `username`.
    pub fn register_token(&mut self, username: &String) -> (r: Result<String, Fault>)
        requires
            old(self).wf(),
        ensures
            final(self).wf(),
            (r == Err::<String, Fault>(Fault::NoSuchUser)) == !has_key(old(self)@.users, username@),
            match r {
                Ok(token) => {
                    let t = final(self)@.auth_tokens.last();
                    &&& final(self)@ == (DbView { auth_tokens: old(self)@.auth_tokens.push(t), ..old(self)@ })
                    &&& final(self).pending_writes() == old(self).pending_writes().push(DbWrite::InsertAuthToken(t))
                    &&& t.token@ == token@
                    &&& t.user@ == username@
                    &&& !has_key(old(self)@.auth_tokens, token@)
                    &&& token@.len() == 64
                    &&& forall|i: int| 0 <= i < token@.len() ==> is_safe_char(#[trigger] token@[i])
                },
                Err(f) => {
                    &&& f == Fault::NoSuchUser || f == Fault::IdCollision
                    &&& final(self)@ == old(self)@
                    &&& final(self).pending_writes() == old(self).pending_writes()
                },
            },
    {
        if self.find_user(username).is_none() {
            return Err(Fault::NoSuchUser);
        }
        let token = random_id(64);
        self.add_token(username, token)
    }

    /// The user a login token belongs to, if the token exists.
    pub fn get_user_for_token(&self, token: &String) -> (r: Option<user::Model>)
        requires
            self.wf(),
        ensures
            r == match find(self@.auth_tokens, token@) {
                Some(t) => find(self@.users, t.user@),
                None => None,
            },
    {
        match pos_auth_token(&self.auth_tokens, token, self.auth_tokens.len()) {
            Some(i) => {
                proof {
                    lemma_find_at(self@.auth_tokens, i as int);
                }
                self.find_user(&self.auth_tokens[i].user)
            },
            None => None,
        }
    }

    /// The ability rows found by primary key `card_design_id`: the lookup is
    /// by the ability's own id, so at most one row.
    pub fn get_card_design_abilities(&self, card_design_id: i32) -> (r: Vec<card_ability::Model>)
        requires
            self.wf(),
        ensures
            r@ == match find(self@.card_abilities, card_design_id) {
                Some(a) => seq![a],
                None => Seq::<card_ability::Model>::empty(),
            },
    {
        let mut out: Vec<card_ability::Model> = Vec::new();
        match pos_card_ability(&self.card_abilities, card_design_id, self.card_abilities.len()) {
            Some(i) => {
                proof {
                    lemma_find_at(self@.card_abilities, i as int);
                }
                out.push(self.card_abilities[i].duplicate());
                proof {
                    assert(out@ =~= seq![self@.card_abilities[i as int]]);
                }
            },
            None => {
                proof {
                    assert(out@ =~= Seq::<card_ability::Model>::empty());
                }
            },
        }
        out
    }
}

impl AppState {
    /// Makes `team` the team of user `username` with the given admin flag and
    /// invite, creating the team (with an empty name) where it has no row;
    /// `None` takes the user out of any team.
    pub fn set_user_team(&mut self, username: &String, team: Option<i32>, is_team_admin: bool, invite: Option<String>)
        requires
            old(self).wf(),
        ensures
            final(self).wf(),
            final(self)@.users == old(self)@.users,
            final(self)@.invites == old(self)@.invites,
            final(self)@.auth_tokens == old(self)@.auth_tokens,
            final(self)@.card_designs == old(self)@.card_designs,
            final(self)@.cards == old(self)@.cards,
            final(self)@.card_abilities == old(self)@.card_abilities,
            final(self)@.scans == old(self)@.scans,
            match team {
                None => {
                    &&& find(final(self)@.user_teams, username@) is None
                    &&& final(self)@.teams == old(self)@.teams
                },
                Some(t) => {
                    &&& find(final(self)@.user_teams, username@) matches Some(m)
                    &&& m.user@ == username@
                    &&& m.team == t
                    &&& m.is_admin == is_team_admin
                    &&& m.invite == invite
                    &&& has_key(final(self)@.teams, t)
                    &&& find(final(self)@.teams, t) matches Some(row) && row.number == t
                        && (has_key(old(self)@.teams, t) ==> find(old(self)@.teams, t) == Some(row))
                        && (!has_key(old(self)@.teams, t) ==> row.name@.len() == 0)
                    &&& forall|n: i32| #[trigger] has_key(final(self)@.teams, n) == (has_key(old(self)@.teams, n) || n == t)
                    &&& forall|n: i32| n != t ==> #[trigger] find(final(self)@.teams, n) == find(old(self)@.teams, n)
                },
            },
            forall|k: Seq<char>| k != username@ ==> #[trigger] find(final(self)@.user_teams, k) == find(old(self)@.user_teams, k),
            old(self).pending_writes().is_prefix_of(final(self).pending_writes()),
    {
        match team {
            Some(t) => {
                let ghost v0 = self@;
                let _team = self.get_team(t);
                proof {
                    if !has_key(v0.teams, t) {
                        lemma_push_fresh(v0.teams, _team);
                    }
                    assert(old(self).pending@.is_prefix_of(self.pending@));
                }
                let m = user_team::Model { user: username.clone(), team: t, is_admin: is_team_admin, invite };
                let ghost p1 = self.pending@;
                match pos_user_team(&self.user_teams, username, self.user_teams.len()) {
                    Some(i) => {
                        proof {
                            lemma_update_same_key(self@.user_teams, i as int, m);
                        }
                        self.update_user_team_at(i, m);
                    },
                    None => {
                        proof {
                            lemma_push_fresh(self@.user_teams, m);
                        }
                        self.insert_user_team(m);
                    },
                }
                proof {
                    assert(p1.is_prefix_of(self.pending@));
                }
            },
            None => {
                match pos_user_team(&self.user_teams, username, self.user_teams.len()) {
                    Some(i) => {
                        proof {
                            lemma_remove_at(self@.user_teams, i as int);
                        }
                        self.delete_user_team_at(i);
                    },
                    None => {},
                }
            },
        }
    }
}

/// The row `AppState::create_user` adds for `name` and `password`.
pub open spec fn new_user_row(u: user::Model, name: Seq<char>, password: Seq<char>) -> bool {
    &&& u.username@ == name
    &&& password_check(u.password@, password) == Some(true)
    &&& "$argon2id$"@.is_prefix_of(u.password@)
    &&& u.invited_with_code is None
    &&& u.is_admin
    &&& !u.is_verified
}

} // verus!
