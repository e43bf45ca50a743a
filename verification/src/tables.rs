//! The site's tables as sequences of rows: what a key finds, what the keys and
//! references between tables must satisfy, and the writes that keep the
//! database in step with the in-memory image.

use vstd::prelude::*;
use crate::entity::{auth_token, card, card_ability, card_design, invite, scan, team, user, user_team};

verus! {

/// A row with a primary key.
pub trait Keyed {
    type Key;

    spec fn key(self) -> Self::Key;
}

impl Keyed for user::Model {
    type Key = Seq<char>;

    open spec fn key(self) -> Seq<char> {
        self.username@
    }
}

impl Keyed for team::Model {
    type Key = i32;

    open spec fn key(self) -> i32 {
        self.number
    }
}

impl Keyed for user_team::Model {
    type Key = Seq<char>;

    open spec fn key(self) -> Seq<char> {
        self.user@
    }
}

impl Keyed for invite::Model {
    type Key = Seq<char>;

    open spec fn key(self) -> Seq<char> {
        self.code@
    }
}

impl Keyed for auth_token::Model {
    type Key = Seq<char>;

    open spec fn key(self) -> Seq<char> {
        self.token@
    }
}

impl Keyed for card_design::Model {
    type Key = i32;

    open spec fn key(self) -> i32 {
        self.id
    }
}

impl Keyed for card::Model {
    type Key = Seq<char>;

    open spec fn key(self) -> Seq<char> {
        self.id@
    }
}

impl Keyed for card_ability::Model {
    type Key = i32;

    open spec fn key(self) -> i32 {
        self.id
    }
}

impl Keyed for scan::Model {
    type Key = (Seq<char>, Seq<char>);

    open spec fn key(self) -> (Seq<char>, Seq<char>) {
        (self.card@, self.username@)
    }
}

/// Some row of `s` has key `k`.
pub open spec fn has_key<T: Keyed>(s: Seq<T>, k: T::Key) -> bool {
    exists|i: int| 0 <= i < s.len() && #[trigger] s[i].key() == k
}

/// The row of `s` with key `k`, if there is one.
pub open spec fn find<T: Keyed>(s: Seq<T>, k: T::Key) -> Option<T> {
    if has_key(s, k) {
        Some(s[choose|i: int| 0 <= i < s.len() && #[trigger] s[i].key() == k])
    } else {
        None
    }
}

/// No two rows of `s` share a key.
pub open spec fn keys_unique<T: Keyed>(s: Seq<T>) -> bool {
    forall|i: int, j: int|
        0 <= i < s.len() && 0 <= j < s.len() && #[trigger] s[i].key() == #[trigger] s[j].key()
            ==> i == j
}

pub proof fn lemma_find_at<T: Keyed>(s: Seq<T>, i: int)
    requires
        keys_unique(s),
        0 <= i < s.len(),
    ensures
        has_key(s, s[i].key()),
        find(s, s[i].key()) == Some(s[i]),
{
    let k = s[i].key();
    assert(has_key(s, k));
    let c = choose|c: int| 0 <= c < s.len() && #[trigger] s[c].key() == k;
    assert(c == i);
}

pub proof fn lemma_find_absent<T: Keyed>(s: Seq<T>, k: T::Key)
    requires
        !has_key(s, k),
    ensures
        find(s, k) is None,
{
}

/// Adding a row whose key is new keeps the keys unique, finds the new row by
/// its key, and finds the same rows as before by every other key.
pub proof fn lemma_push_fresh<T: Keyed>(s: Seq<T>, x: T)
    requires
        keys_unique(s),
        !has_key(s, x.key()),
    ensures
        keys_unique(s.push(x)),
        find(s.push(x), x.key()) == Some(x),
        forall|k: T::Key| k != x.key() ==> #[trigger] find(s.push(x), k) == find(s, k),
        forall|k: T::Key| #[trigger] has_key(s.push(x), k) == (has_key(s, k) || k == x.key()),
{
    let t = s.push(x);
    assert forall|i: int, j: int|
        0 <= i < t.len() && 0 <= j < t.len() && #[trigger] t[i].key() == #[trigger] t[j].key()
        implies i == j by {
        if i < s.len() && j < s.len() {
            assert(s[i].key() == s[j].key());
        } else if i < s.len() {
            assert(s[i].key() == x.key());
        } else if j < s.len() {
            assert(s[j].key() == x.key());
        }
    }
    lemma_find_at(t, s.len() as int);
    assert forall|k: T::Key| #[trigger] has_key(t, k) == (has_key(s, k) || k == x.key()) by {
        if has_key(t, k) && k != x.key() {
            let i = choose|i: int| 0 <= i < t.len() && #[trigger] t[i].key() == k;
            assert(s[i].key() == k);
        }
        if has_key(s, k) {
            let i = choose|i: int| 0 <= i < s.len() && #[trigger] s[i].key() == k;
            assert(t[i].key() == k);
        }
        if k == x.key() {
            assert(t[s.len() as int].key() == k);
        }
    }
    assert forall|k: T::Key| k != x.key() implies #[trigger] find(t, k) == find(s, k) by {
        if has_key(s, k) {
            let i = choose|i: int| 0 <= i < s.len() && #[trigger] s[i].key() == k;
            lemma_find_at(s, i);
            assert(t[i] == s[i]);
            lemma_find_at(t, i);
        }
    }
}

/// Replacing a row by one with the same key keeps the keys unique, finds the
/// new row by that key, and the same rows as before by every other key.
pub proof fn lemma_update_same_key<T: Keyed>(s: Seq<T>, i: int, x: T)
    requires
        keys_unique(s),
        0 <= i < s.len(),
        x.key() == s[i].key(),
    ensures
        keys_unique(s.update(i, x)),
        find(s.update(i, x), x.key()) == Some(x),
        forall|k: T::Key| k != x.key() ==> #[trigger] find(s.update(i, x), k) == find(s, k),
        forall|k: T::Key| #[trigger] has_key(s.update(i, x), k) == has_key(s, k),
{
    let t = s.update(i, x);
    assert forall|a: int, b: int|
        0 <= a < t.len() && 0 <= b < t.len() && #[trigger] t[a].key() == #[trigger] t[b].key()
        implies a == b by {
        assert(s[a].key() == t[a].key());
        assert(s[b].key() == t[b].key());
    }
    lemma_find_at(t, i);
    assert forall|k: T::Key| #[trigger] has_key(t, k) == has_key(s, k) by {
        if has_key(t, k) {
            let a = choose|a: int| 0 <= a < t.len() && #[trigger] t[a].key() == k;
            assert(s[a].key() == k);
        }
        if has_key(s, k) {
            let a = choose|a: int| 0 <= a < s.len() && #[trigger] s[a].key() == k;
            assert(t[a].key() == k);
        }
    }
    assert forall|k: T::Key| k != x.key() implies #[trigger] find(t, k) == find(s, k) by {
        if has_key(s, k) {
            let a = choose|a: int| 0 <= a < s.len() && #[trigger] s[a].key() == k;
            lemma_find_at(s, a);
            assert(a != i);
            assert(t[a] == s[a]);
            lemma_find_at(t, a);
        }
    }
}

/// Removing a row keeps the keys unique, finds nothing by its key, and the
/// same rows as before by every other key.
pub proof fn lemma_remove_at<T: Keyed>(s: Seq<T>, i: int)
    requires
        keys_unique(s),
        0 <= i < s.len(),
    ensures
        keys_unique(s.remove(i)),
        !has_key(s.remove(i), s[i].key()),
        find(s.remove(i), s[i].key()) is None,
        forall|k: T::Key| k != s[i].key() ==> #[trigger] find(s.remove(i), k) == find(s, k),
        forall|k: T::Key|
            #[trigger] has_key(s.remove(i), k) == (has_key(s, k) && k != s[i].key()),
{
    let t = s.remove(i);
    let xk = s[i].key();
    assert forall|a: int, b: int|
        0 <= a < t.len() && 0 <= b < t.len() && #[trigger] t[a].key() == #[trigger] t[b].key()
        implies a == b by {
        let a2 = if a < i { a } else { a + 1 };
        let b2 = if b < i { b } else { b + 1 };
        assert(t[a] == s[a2]);
        assert(t[b] == s[b2]);
        assert(s[a2].key() == s[b2].key());
    }
    assert forall|k: T::Key|
        #[trigger] has_key(t, k) == (has_key(s, k) && k != xk) by {
        if has_key(t, k) {
            let a = choose|a: int| 0 <= a < t.len() && #[trigger] t[a].key() == k;
            let a2 = if a < i { a } else { a + 1 };
            assert(t[a] == s[a2]);
            assert(s[a2].key() == k);
            assert(a2 != i);
            lemma_find_at(s, i);
        }
        if has_key(s, k) && k != xk {
            let a = choose|a: int| 0 <= a < s.len() && #[trigger] s[a].key() == k;
            assert(a != i);
            let a1 = if a < i { a } else { a - 1 };
            assert(t[a1] == s[a]);
            assert(t[a1].key() == k);
        }
    }
    assert(!has_key(t, xk));
    assert forall|k: T::Key| k != xk implies #[trigger] find(t, k) == find(s, k) by {
        if has_key(s, k) {
            let a = choose|a: int| 0 <= a < s.len() && #[trigger] s[a].key() == k;
            lemma_find_at(s, a);
            assert(a != i);
            let a1 = if a < i { a } else { a - 1 };
            assert(t[a1] == s[a]);
            lemma_find_at(t, a1);
        }
    }
}

/// The tables as the database holds them.
#[verifier::ext_equal]
pub struct DbView {
    pub users: Seq<user::Model>,
    pub teams: Seq<team::Model>,
    pub user_teams: Seq<user_team::Model>,
    pub invites: Seq<invite::Model>,
    pub auth_tokens: Seq<auth_token::Model>,
    pub card_designs: Seq<card_design::Model>,
    pub cards: Seq<card::Model>,
    pub card_abilities: Seq<card_ability::Model>,
    pub scans: Seq<scan::Model>,
}

impl DbView {
    /// Primary keys are unique in every table, and the references that the
    /// site follows without checking lead to a row: a token to its user, a
    /// scan to its card, a card to its design.
    pub open spec fn wf(self) -> bool {
        &&& keys_unique(self.users)
        &&& keys_unique(self.teams)
        &&& keys_unique(self.user_teams)
        &&& keys_unique(self.invites)
        &&& keys_unique(self.auth_tokens)
        &&& keys_unique(self.card_designs)
        &&& keys_unique(self.cards)
        &&& keys_unique(self.card_abilities)
        &&& keys_unique(self.scans)
        &&& forall|i: int|
            0 <= i < self.auth_tokens.len() ==> has_key(
                self.users,
                (#[trigger] self.auth_tokens[i]).user@,
            )
        &&& forall|i: int|
            0 <= i < self.scans.len() ==> has_key(self.cards, (#[trigger] self.scans[i]).card@)
        &&& forall|i: int|
            0 <= i < self.cards.len() ==> has_key(
                self.card_designs,
                (#[trigger] self.cards[i]).design,
            )
    }
}

/// A change to be made to the database, in the order the site made it.
#[derive(Debug, Clone)]
pub enum DbWrite {
    InsertUser(user::Model),
    UpdateUser(user::Model),
    InsertTeam(team::Model),
    UpdateTeam(team::Model),
    InsertUserTeam(user_team::Model),
    UpdateUserTeam(user_team::Model),
    DeleteUserTeam(String),
    InsertInvite(invite::Model),
    DeleteInvite(String),
    InsertAuthToken(auth_token::Model),
    DeleteAuthToken(String),
    InsertCardDesign(card_design::Model),
    InsertCardAbility(card_ability::Model),
    InsertScan(scan::Model),
}

/// The position of the row of `s` with key `k`, where there is one.
pub open spec fn key_index<T: Keyed>(s: Seq<T>, k: T::Key) -> int {
    choose|i: int| 0 <= i < s.len() && #[trigger] s[i].key() == k
}

/// `s` with `row` in place of the row that has its key; unchanged where no
/// row has it, as an UPDATE that matches nothing.
pub open spec fn replace_row<T: Keyed>(s: Seq<T>, row: T) -> Seq<T> {
    if has_key(s, row.key()) {
        s.update(key_index(s, row.key()), row)
    } else {
        s
    }
}

/// `s` without the row that has key `k`; unchanged where there is none.
pub open spec fn remove_row<T: Keyed>(s: Seq<T>, k: T::Key) -> Seq<T> {
    if has_key(s, k) {
        s.remove(key_index(s, k))
    } else {
        s
    }
}

impl DbWrite {
    /// The tables `v` once the database has made this write: an insert adds
    /// the row at the end, an update replaces the row with the same key, a
    /// delete removes the row with the key.
    pub open spec fn apply(self, v: DbView) -> DbView {
        match self {
            DbWrite::InsertUser(u) => DbView { users: v.users.push(u), ..v },
            DbWrite::UpdateUser(u) => DbView { users: replace_row(v.users, u), ..v },
            DbWrite::InsertTeam(t) => DbView { teams: v.teams.push(t), ..v },
            DbWrite::UpdateTeam(t) => DbView { teams: replace_row(v.teams, t), ..v },
            DbWrite::InsertUserTeam(m) => DbView { user_teams: v.user_teams.push(m), ..v },
            DbWrite::UpdateUserTeam(m) => DbView { user_teams: replace_row(v.user_teams, m), ..v },
            DbWrite::DeleteUserTeam(name) => DbView { user_teams: remove_row(v.user_teams, name@), ..v },
            DbWrite::InsertInvite(i) => DbView { invites: v.invites.push(i), ..v },
            DbWrite::DeleteInvite(code) => DbView { invites: remove_row(v.invites, code@), ..v },
            DbWrite::InsertAuthToken(t) => DbView { auth_tokens: v.auth_tokens.push(t), ..v },
            DbWrite::DeleteAuthToken(token) => DbView { auth_tokens: remove_row(v.auth_tokens, token@), ..v },
            DbWrite::InsertCardDesign(d) => DbView { card_designs: v.card_designs.push(d), ..v },
            DbWrite::InsertCardAbility(a) => DbView { card_abilities: v.card_abilities.push(a), ..v },
            DbWrite::InsertScan(sc) => DbView { scans: v.scans.push(sc), ..v },
        }
    }
}

/// The tables `v` once the database has made the writes `ws`, in order.
pub open spec fn apply_all(v: DbView, ws: Seq<DbWrite>) -> DbView
    decreases ws.len(),
{
    if ws.len() == 0 {
        v
    } else {
        ws.last().apply(apply_all(v, ws.drop_last()))
    }
}

/// In a table with unique keys, the row at `i` is the one `key_index` finds.
pub proof fn lemma_key_index<T: Keyed>(s: Seq<T>, i: int)
    requires
        keys_unique(s),
        0 <= i < s.len(),
    ensures
        has_key(s, s[i].key()),
        key_index(s, s[i].key()) == i,
{
    let k = s[i].key();
    assert(has_key(s, k));
    let c = key_index(s, k);
    assert(s[c].key() == k);
}

/// Making one more write is applying it to what the earlier ones gave.
pub proof fn lemma_apply_push(v: DbView, ws: Seq<DbWrite>, w: DbWrite)
    ensures
        apply_all(v, ws.push(w)) == w.apply(apply_all(v, ws)),
{
    assert(ws.push(w).drop_last() =~= ws);
}

/// The rows read from the database when the site starts.
pub struct Tables {
    pub users: Vec<user::Model>,
    pub teams: Vec<team::Model>,
    pub user_teams: Vec<user_team::Model>,
    pub invites: Vec<invite::Model>,
    pub auth_tokens: Vec<auth_token::Model>,
    pub card_designs: Vec<card_design::Model>,
    pub cards: Vec<card::Model>,
    pub card_abilities: Vec<card_ability::Model>,
    pub scans: Vec<scan::Model>,
}

impl Tables {
    pub open spec fn view_db(&self) -> DbView {
        DbView {
            users: self.users@,
            teams: self.teams@,
            user_teams: self.user_teams@,
            invites: self.invites@,
            auth_tokens: self.auth_tokens@,
            card_designs: self.card_designs@,
            cards: self.cards@,
            card_abilities: self.card_abilities@,
            scans: self.scans@,
        }
    }
}

} // verus!

verus! {

/// Adding a row whose key differs from every earlier key keeps a prefix's keys unique.
pub proof fn lemma_unique_extend<T: Keyed>(s: Seq<T>, i: int)
    requires
        0 <= i < s.len(),
        keys_unique(s.take(i)),
        forall|j: int| 0 <= j < i ==> #[trigger] s[j].key() != s[i].key(),
    ensures
        keys_unique(s.take(i + 1)),
{
    let t = s.take(i + 1);
    assert forall|a: int, b: int|
        0 <= a < t.len() && 0 <= b < t.len() && #[trigger] t[a].key() == #[trigger] t[b].key()
        implies a == b by {
        assert(t[a] == s[a]);
        assert(t[b] == s[b]);
        if a < i && b < i {
            assert(s.take(i)[a] == s[a]);
            assert(s.take(i)[b] == s[b]);
            assert(s.take(i)[a].key() == s.take(i)[b].key());
        }
    }
}

/// The first of the first `n` rows of `v` with key `k`, if any.
pub fn pos_user(v: &Vec<user::Model>, k: &String, n: usize) -> (r: Option<usize>)
    requires
        n <= v.len(),
    ensures
        match r {
            Some(i) => i < n && v@[i as int].key() == k@,
            None => forall|j: int| 0 <= j < n ==> #[trigger] v@[j].key() != k@,
        },
{
    let mut i: usize = 0;
    while i < n
        invariant
            i <= n,
            n <= v.len(),
            forall|j: int| 0 <= j < i ==> #[trigger] v@[j].key() != k@,
        decreases n - i,
    {
        if v[i].username == *k {
            return Some(i);
        }
        i = i + 1;
    }
    None
}

/// Whether no two rows of `v` share a key.
pub fn unique_user(v: &Vec<user::Model>) -> (r: bool)
    ensures
        r == keys_unique(v@),
{
    let mut i: usize = 0;
    while i < v.len()
        invariant
            i <= v.len(),
            keys_unique(v@.take(i as int)),
        decreases v.len() - i,
    {
        match pos_user(v, &v[i].username, i) {
            Some(j) => {
                proof {
                    assert(v@[j as int].key() == v@[i as int].key());
                }
                return false;
            }
            None => {
                proof {
                    lemma_unique_extend(v@, i as int);
                }
            }
        }
        i = i + 1;
    }
    proof {
        assert(v@.take(v.len() as int) =~= v@);
    }
    true
}

/// The first of the first `n` rows of `v` with key `k`, if any.
pub fn pos_team(v: &Vec<team::Model>, k: i32, n: usize) -> (r: Option<usize>)
    requires
        n <= v.len(),
    ensures
        match r {
            Some(i) => i < n && v@[i as int].key() == k,
            None => forall|j: int| 0 <= j < n ==> #[trigger] v@[j].key() != k,
        },
{
    let mut i: usize = 0;
    while i < n
        invariant
            i <= n,
            n <= v.len(),
            forall|j: int| 0 <= j < i ==> #[trigger] v@[j].key() != k,
        decreases n - i,
    {
        if v[i].number == k {
            return Some(i);
        }
        i = i + 1;
    }
    None
}

/// Whether no two rows of `v` share a key.
pub fn unique_team(v: &Vec<team::Model>) -> (r: bool)
    ensures
        r == keys_unique(v@),
{
    let mut i: usize = 0;
    while i < v.len()
        invariant
            i <= v.len(),
            keys_unique(v@.take(i as int)),
        decreases v.len() - i,
    {
        match pos_team(v, v[i].number, i) {
            Some(j) => {
                proof {
                    assert(v@[j as int].key() == v@[i as int].key());
                }
                return false;
            }
            None => {
                proof {
                    lemma_unique_extend(v@, i as int);
                }
            }
        }
        i = i + 1;
    }
    proof {
        assert(v@.take(v.len() as int) =~= v@);
    }
    true
}

/// The first of the first `n` rows of `v` with key `k`, if any.
pub fn pos_user_team(v: &Vec<user_team::Model>, k: &String, n: usize) -> (r: Option<usize>)
    requires
        n <= v.len(),
    ensures
        match r {
            Some(i) => i < n && v@[i as int].key() == k@,
            None => forall|j: int| 0 <= j < n ==> #[trigger] v@[j].key() != k@,
        },
{
    let mut i: usize = 0;
    while i < n
        invariant
            i <= n,
            n <= v.len(),
            forall|j: int| 0 <= j < i ==> #[trigger] v@[j].key() != k@,
        decreases n - i,
    {
        if v[i].user == *k {
            return Some(i);
        }
        i = i + 1;
    }
    None
}

/// Whether no two rows of `v` share a key.
pub fn unique_user_team(v: &Vec<user_team::Model>) -> (r: bool)
    ensures
        r == keys_unique(v@),
{
    let mut i: usize = 0;
    while i < v.len()
        invariant
            i <= v.len(),
            keys_unique(v@.take(i as int)),
        decreases v.len() - i,
    {
        match pos_user_team(v, &v[i].user, i) {
            Some(j) => {
                proof {
                    assert(v@[j as int].key() == v@[i as int].key());
                }
                return false;
            }
            None => {
                proof {
                    lemma_unique_extend(v@, i as int);
                }
            }
        }
        i = i + 1;
    }
    proof {
        assert(v@.take(v.len() as int) =~= v@);
    }
    true
}

/// The first of the first `n` rows of `v` with key `k`, if any.
pub fn pos_invite(v: &Vec<invite::Model>, k: &String, n: usize) -> (r: Option<usize>)
    requires
        n <= v.len(),
    ensures
        match r {
            Some(i) => i < n && v@[i as int].key() == k@,
            None => forall|j: int| 0 <= j < n ==> #[trigger] v@[j].key() != k@,
        },
{
    let mut i: usize = 0;
    while i < n
        invariant
            i <= n,
            n <= v.len(),
            forall|j: int| 0 <= j < i ==> #[trigger] v@[j].key() != k@,
        decreases n - i,
    {
        if v[i].code == *k {
            return Some(i);
        }
        i = i + 1;
    }
    None
}

/// Whether no two rows of `v` share a key.
pub fn unique_invite(v: &Vec<invite::Model>) -> (r: bool)
    ensures
        r == keys_unique(v@),
{
    let mut i: usize = 0;
    while i < v.len()
        invariant
            i <= v.len(),
            keys_unique(v@.take(i as int)),
        decreases v.len() - i,
    {
        match pos_invite(v, &v[i].code, i) {
            Some(j) => {
                proof {
                    assert(v@[j as int].key() == v@[i as int].key());
                }
                return false;
            }
            None => {
                proof {
                    lemma_unique_extend(v@, i as int);
                }
            }
        }
        i = i + 1;
    }
    proof {
        assert(v@.take(v.len() as int) =~= v@);
    }
    true
}

/// The first of the first `n` rows of `v` with key `k`, if any.
pub fn pos_auth_token(v: &Vec<auth_token::Model>, k: &String, n: usize) -> (r: Option<usize>)
    requires
        n <= v.len(),
    ensures
        match r {
            Some(i) => i < n && v@[i as int].key() == k@,
            None => forall|j: int| 0 <= j < n ==> #[trigger] v@[j].key() != k@,
        },
{
    let mut i: usize = 0;
    while i < n
        invariant
            i <= n,
            n <= v.len(),
            forall|j: int| 0 <= j < i ==> #[trigger] v@[j].key() != k@,
        decreases n - i,
    {
        if v[i].token == *k {
            return Some(i);
        }
        i = i + 1;
    }
    None
}

/// Whether no two rows of `v` share a key.
pub fn unique_auth_token(v: &Vec<auth_token::Model>) -> (r: bool)
    ensures
        r == keys_unique(v@),
{
    let mut i: usize = 0;
    while i < v.len()
        invariant
            i <= v.len(),
            keys_unique(v@.take(i as int)),
        decreases v.len() - i,
    {
        match pos_auth_token(v, &v[i].token, i) {
            Some(j) => {
                proof {
                    assert(v@[j as int].key() == v@[i as int].key());
                }
                return false;
            }
            None => {
                proof {
                    lemma_unique_extend(v@, i as int);
                }
            }
        }
        i = i + 1;
    }
    proof {
        assert(v@.take(v.len() as int) =~= v@);
    }
    true
}

/// The first of the first `n` rows of `v` with key `k`, if any.
pub fn pos_card_design(v: &Vec<card_design::Model>, k: i32, n: usize) -> (r: Option<usize>)
    requires
        n <= v.len(),
    ensures
        match r {
            Some(i) => i < n && v@[i as int].key() == k,
            None => forall|j: int| 0 <= j < n ==> #[trigger] v@[j].key() != k,
        },
{
    let mut i: usize = 0;
    while i < n
        invariant
            i <= n,
            n <= v.len(),
            forall|j: int| 0 <= j < i ==> #[trigger] v@[j].key() != k,
        decreases n - i,
    {
        if v[i].id == k {
            return Some(i);
        }
        i = i + 1;
    }
    None
}

/// Whether no two rows of `v` share a key.
pub fn unique_card_design(v: &Vec<card_design::Model>) -> (r: bool)
    ensures
        r == keys_unique(v@),
{
    let mut i: usize = 0;
    while i < v.len()
        invariant
            i <= v.len(),
            keys_unique(v@.take(i as int)),
        decreases v.len() - i,
    {
        match pos_card_design(v, v[i].id, i) {
            Some(j) => {
                proof {
                    assert(v@[j as int].key() == v@[i as int].key());
                }
                return false;
            }
            None => {
                proof {
                    lemma_unique_extend(v@, i as int);
                }
            }
        }
        i = i + 1;
    }
    proof {
        assert(v@.take(v.len() as int) =~= v@);
    }
    true
}

/// The first of the first `n` rows of `v` with key `k`, if any.
pub fn pos_card(v: &Vec<card::Model>, k: &String, n: usize) -> (r: Option<usize>)
    requires
        n <= v.len(),
    ensures
        match r {
            Some(i) => i < n && v@[i as int].key() == k@,
            None => forall|j: int| 0 <= j < n ==> #[trigger] v@[j].key() != k@,
        },
{
    let mut i: usize = 0;
    while i < n
        invariant
            i <= n,
            n <= v.len(),
            forall|j: int| 0 <= j < i ==> #[trigger] v@[j].key() != k@,
        decreases n - i,
    {
        if v[i].id == *k {
            return Some(i);
        }
        i = i + 1;
    }
    None
}

/// Whether no two rows of `v` share a key.
pub fn unique_card(v: &Vec<card::Model>) -> (r: bool)
    ensures
        r == keys_unique(v@),
{
    let mut i: usize = 0;
    while i < v.len()
        invariant
            i <= v.len(),
            keys_unique(v@.take(i as int)),
        decreases v.len() - i,
    {
        match pos_card(v, &v[i].id, i) {
            Some(j) => {
                proof {
                    assert(v@[j as int].key() == v@[i as int].key());
                }
                return false;
            }
            None => {
                proof {
                    lemma_unique_extend(v@, i as int);
                }
            }
        }
        i = i + 1;
    }
    proof {
        assert(v@.take(v.len() as int) =~= v@);
    }
    true
}

/// The first of the first `n` rows of `v` with key `k`, if any.
pub fn pos_card_ability(v: &Vec<card_ability::Model>, k: i32, n: usize) -> (r: Option<usize>)
    requires
        n <= v.len(),
    ensures
        match r {
            Some(i) => i < n && v@[i as int].key() == k,
            None => forall|j: int| 0 <= j < n ==> #[trigger] v@[j].key() != k,
        },
{
    let mut i: usize = 0;
    while i < n
        invariant
            i <= n,
            n <= v.len(),
            forall|j: int| 0 <= j < i ==> #[trigger] v@[j].key() != k,
        decreases n - i,
    {
        if v[i].id == k {
            return Some(i);
        }
        i = i + 1;
    }
    None
}

/// Whether no two rows of `v` share a key.
pub fn unique_card_ability(v: &Vec<card_ability::Model>) -> (r: bool)
    ensures
        r == keys_unique(v@),
{
    let mut i: usize = 0;
    while i < v.len()
        invariant
            i <= v.len(),
            keys_unique(v@.take(i as int)),
        decreases v.len() - i,
    {
        match pos_card_ability(v, v[i].id, i) {
            Some(j) => {
                proof {
                    assert(v@[j as int].key() == v@[i as int].key());
                }
                return false;
            }
            None => {
                proof {
                    lemma_unique_extend(v@, i as int);
                }
            }
        }
        i = i + 1;
    }
    proof {
        assert(v@.take(v.len() as int) =~= v@);
    }
    true
}

/// The first of the first `n` rows of `v` with key (`card`, `username`), if any.
pub fn pos_scan(v: &Vec<scan::Model>, card: &String, username: &String, n: usize) -> (r: Option<usize>)
    requires
        n <= v.len(),
    ensures
        match r {
            Some(i) => i < n && v@[i as int].key() == (card@, username@),
            None => forall|j: int| 0 <= j < n ==> #[trigger] v@[j].key() != (card@, username@),
        },
{
    let mut i: usize = 0;
    while i < n
        invariant
            i <= n,
            n <= v.len(),
            forall|j: int| 0 <= j < i ==> #[trigger] v@[j].key() != (card@, username@),
        decreases n - i,
    {
        if v[i].card == *card && v[i].username == *username {
            return Some(i);
        }
        i = i + 1;
    }
    None
}

/// Whether no two rows of `v` share a key.
pub fn unique_scan(v: &Vec<scan::Model>) -> (r: bool)
    ensures
        r == keys_unique(v@),
{
    let mut i: usize = 0;
    while i < v.len()
        invariant
            i <= v.len(),
            keys_unique(v@.take(i as int)),
        decreases v.len() - i,
    {
        match pos_scan(v, &v[i].card, &v[i].username, i) {
            Some(j) => {
                proof {
                    assert(v@[j as int].key() == v@[i as int].key());
                }
                return false;
            }
            None => {
                proof {
                    lemma_unique_extend(v@, i as int);
                }
            }
        }
        i = i + 1;
    }
    proof {
        assert(v@.take(v.len() as int) =~= v@);
    }
    true
}

} // verus!

verus! {

/// Whether every token's user is a row of `users`.
fn tokens_have_users(tokens: &Vec<auth_token::Model>, users: &Vec<user::Model>) -> (r: bool)
    ensures
        r == forall|i: int| 0 <= i < tokens@.len() ==> has_key(users@, (#[trigger] tokens@[i]).user@),
{
    let mut i: usize = 0;
    while i < tokens.len()
        invariant
            i <= tokens.len(),
            forall|j: int| 0 <= j < i ==> has_key(users@, (#[trigger] tokens@[j]).user@),
        decreases tokens.len() - i,
    {
        match pos_user(users, &tokens[i].user, users.len()) {
            Some(j) => {
                proof {
                    assert(users@[j as int].key() == tokens@[i as int].user@);
                }
            }
            None => {
                proof {
                    assert(!has_key(users@, tokens@[i as int].user@));
                }
                return false;
            }
        }
        i = i + 1;
    }
    true
}

/// Whether every scan's card is a row of `cards`.
fn scans_have_cards(scans: &Vec<scan::Model>, cards: &Vec<card::Model>) -> (r: bool)
    ensures
        r == forall|i: int| 0 <= i < scans@.len() ==> has_key(cards@, (#[trigger] scans@[i]).card@),
{
    let mut i: usize = 0;
    while i < scans.len()
        invariant
            i <= scans.len(),
            forall|j: int| 0 <= j < i ==> has_key(cards@, (#[trigger] scans@[j]).card@),
        decreases scans.len() - i,
    {
        match pos_card(cards, &scans[i].card, cards.len()) {
            Some(j) => {
                proof {
                    assert(cards@[j as int].key() == scans@[i as int].card@);
                }
            }
            None => {
                proof {
                    assert(!has_key(cards@, scans@[i as int].card@));
                }
                return false;
            }
        }
        i = i + 1;
    }
    true
}

/// Whether every card's design is a row of `designs`.
fn cards_have_designs(cards: &Vec<card::Model>, designs: &Vec<card_design::Model>) -> (r: bool)
    ensures
        r == forall|i: int| 0 <= i < cards@.len() ==> has_key(designs@, (#[trigger] cards@[i]).design),
{
    let mut i: usize = 0;
    while i < cards.len()
        invariant
            i <= cards.len(),
            forall|j: int| 0 <= j < i ==> has_key(designs@, (#[trigger] cards@[j]).design),
        decreases cards.len() - i,
    {
        match pos_card_design(designs, cards[i].design, designs.len()) {
            Some(j) => {
                proof {
                    assert(designs@[j as int].key() == cards@[i as int].design);
                }
            }
            None => {
                proof {
                    assert(!has_key(designs@, cards@[i as int].design));
                }
                return false;
            }
        }
        i = i + 1;
    }
    true
}

impl Tables {
    /// Whether the rows meet `DbView::wf`: unique keys, and tokens, scans and
    /// cards that lead to a user, a card and a design.
    pub fn is_well_formed(&self) -> (r: bool)
        ensures
            r == self.view_db().wf(),
    {
        unique_user(&self.users) && unique_team(&self.teams) && unique_user_team(
            &self.user_teams,
        ) && unique_invite(&self.invites) && unique_auth_token(&self.auth_tokens)
            && unique_card_design(&self.card_designs) && unique_card(&self.cards)
            && unique_card_ability(&self.card_abilities) && unique_scan(&self.scans)
            && tokens_have_users(&self.auth_tokens, &self.users) && scans_have_cards(
            &self.scans,
            &self.cards,
        ) && cards_have_designs(&self.cards, &self.card_designs)
    }
}

} // verus!
