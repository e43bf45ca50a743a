//! The HTML pages: which template each renders, with which values, and when
//! a page sends its visitor elsewhere instead.

use vstd::prelude::*;
use crate::entity::user;
use crate::state::{AppState, adds_teams, member_team, team_inserts};
use crate::context::{Context, CtxValue, build_context, has_bool, has_str, lemma_context_key_shapes, user_entries, user_keys, only_keys};
use crate::structs::ErrorParams;
use crate::tables::find;
use crate::api::scans_of;

verus! {

/// What a page answers.
pub enum Page {
    /// A redirect to the path.
    Redirect(String),
    /// The template rendered with the context, as `text/html`.
    Render { template: String, context: Context },
}

/// `p` renders the template named `name` with context `c`.
pub open spec fn renders(p: &Page, name: Seq<char>, c: &Context) -> bool {
    p matches Page::Render { template, context } && template@ == name && context == c
}

/// `p` renders the template named `name`, with some context.
pub open spec fn renders_template(p: &Page, name: Seq<char>) -> bool {
    p matches Page::Render { template, .. } && template@ == name
}

/// `p` redirects to `path`.
pub open spec fn redirects(p: &Page, path: Seq<char>) -> bool {
    p matches Page::Redirect(to) && to@ == path
}

/// The context of `p`, where it renders one.
pub open spec fn page_context(p: &Page) -> &Context {
    match p {
        Page::Render { context, .. } => context,
        Page::Redirect(_) => &arbitrary(),
    }
}

/// The values `create_standard_context` sets: whether the visitor is signed
/// in, the site's name and version, and, given a user, their name and whether
/// they are a site admin.
pub open spec fn standard_entries(c: &Context, is_auth: bool, user: Option<user::Model>) -> bool {
    &&& has_bool(c, "is_auth"@, is_auth)
    &&& has_str(c, "site_name"@, "FRCC"@)
    &&& has_str(c, "site_version"@, "1.0.0"@)
    &&& match user {
        None => true,
        Some(u) => {
            &&& has_str(c, "username"@, u.username@)
            &&& has_bool(c, "is_site_admin"@, u.is_admin)
        },
    }
}

/// The names `create_standard_context` sets.
pub open spec fn standard_keys(user: Option<user::Model>) -> Set<Seq<char>> {
    if user is Some {
        set!["is_auth"@, "site_name"@, "site_version"@, "username"@, "is_site_admin"@]
    } else {
        set!["is_auth"@, "site_name"@, "site_version"@]
    }
}

/// What `create_standard_context` gives: its values and no others.
pub open spec fn standard_context(c: &Context, is_auth: bool, user: Option<user::Model>) -> bool {
    &&& c.wf()
    &&& standard_entries(c, is_auth, user)
    &&& only_keys(c, standard_keys(user))
}

/// The values shared by the pages that need no tables: whether the visitor
/// is signed in, the site's name and version and, given a user, their name
/// and whether they are a site admin. (The pages of a signed-in user, which
/// read the tables, use `signed_in_context`.)
pub fn create_standard_context(is_auth: bool, user: Option<user::Model>) -> (r: Context)
    ensures
        standard_context(&r, is_auth, user),
{
    proof {
        lemma_context_key_shapes();
    }
    let mut context = Context::new();
    context.insert("is_auth", CtxValue::Bool(is_auth));
    context.insert("site_name", CtxValue::Str(String::from_str("FRCC")));
    context.insert("site_version", CtxValue::Str(String::from_str("1.0.0")));
    match user {
        Some(u) => {
            context.insert("username", CtxValue::Str(u.username));
            context.insert("is_site_admin", CtxValue::Bool(u.is_admin));
        },
        None => {},
    }
    context
}

/// Renders `template` with the standard context of a visitor who is signed
/// in or not.
fn public_page(is_auth: bool, template: &str) -> (r: Page)
    ensures
        renders_template(&r, template@),
        standard_context(page_context(&r), is_auth, None),
{
    let context = create_standard_context(is_auth, None);
    Page::Render { template: String::from_str(template), context }
}

/// `GET /scan`.
pub fn scan(is_auth: bool) -> (r: Page)
    ensures
        renders_template(&r, "scan.tera"@),
        standard_context(page_context(&r), is_auth, None),
{
    public_page(is_auth, "scan.tera")
}

/// `GET /`: a signed-in visitor goes to the dashboard; anyone else gets the
/// landing page, which shows the first card design of the table (`None` in
/// an empty table) as `random_design`.
pub fn hero(state: &AppState, is_auth: bool) -> (r: Page)
    requires
        state.wf(),
    ensures
        is_auth ==> redirects(&r, "/dashboard"@),
        !is_auth ==> {
            let c = page_context(&r);
            let shown = if state@.card_designs.len() == 0 {
                None
            } else {
                Some(state@.card_designs[0].id)
            };
            &&& renders_template(&r, "hero.tera"@)
            &&& c.wf()
            &&& standard_entries(c, false, None)
            &&& c.get("random_design"@) == Some(CtxValue::OptInt(shown))
            &&& only_keys(c, standard_keys(None).insert("random_design"@))
        },
{
    if is_auth {
        return Page::Redirect(String::from_str("/dashboard"));
    }
    proof {
        lemma_context_key_shapes();
    }
    let mut context = create_standard_context(is_auth, None);
    let designs = state.card_designs_rows();
    let random: Option<i32> = if designs.len() == 0 {
        None
    } else {
        Some(designs[0].id)
    };
    context.insert("random_design", CtxValue::OptInt(random));
    Page::Render { template: String::from_str("hero.tera"), context }
}

/// `GET /about`.
pub fn about(is_auth: bool) -> (r: Page)
    ensures
        renders_template(&r, "about.tera"@),
        standard_context(page_context(&r), is_auth, None),
{
    public_page(is_auth, "about.tera")
}

/// `GET /privacy`.
pub fn privacy(is_auth: bool) -> (r: Page)
    ensures
        renders_template(&r, "privacy.tera"@),
        standard_context(page_context(&r), is_auth, None),
{
    public_page(is_auth, "privacy.tera")
}

/// `GET /cards`.
pub fn cards(is_auth: bool) -> (r: Page)
    ensures
        renders_template(&r, "cards.tera"@),
        standard_context(page_context(&r), is_auth, None),
{
    public_page(is_auth, "cards.tera")
}

/// A sign-in or sign-up form, flagged `is_error` when the query carries an
/// `error` parameter.
fn form_page(is_auth: bool, params: &ErrorParams, template: &str) -> (r: Page)
    ensures
        renders_template(&r, template@),
        ({
            let c = page_context(&r);
            &&& c.wf()
            &&& standard_entries(c, is_auth, None)
            &&& c.get("is_error"@) == Some(CtxValue::Bool(params.error is Some))
            &&& only_keys(c, standard_keys(None).insert("is_error"@))
        }),
{
    proof {
        lemma_context_key_shapes();
    }
    let mut context = create_standard_context(is_auth, None);
    context.insert("is_error", CtxValue::Bool(params.error.is_some()));
    Page::Render { template: String::from_str(template), context }
}

/// `GET /signin`.
pub fn signin(is_auth: bool, params: &ErrorParams) -> (r: Page)
    ensures
        renders_template(&r, "signin.tera"@),
        ({
            let c = page_context(&r);
            &&& c.wf()
            &&& standard_entries(c, is_auth, None)
            &&& c.get("is_error"@) == Some(CtxValue::Bool(params.error is Some))
            &&& only_keys(c, standard_keys(None).insert("is_error"@))
        }),
{
    form_page(is_auth, params, "signin.tera")
}

/// `GET /signup`.
pub fn signup(is_auth: bool, params: &ErrorParams) -> (r: Page)
    ensures
        renders_template(&r, "signup.tera"@),
        ({
            let c = page_context(&r);
            &&& c.wf()
            &&& standard_entries(c, is_auth, None)
            &&& c.get("is_error"@) == Some(CtxValue::Bool(params.error is Some))
            &&& only_keys(c, standard_keys(None).insert("is_error"@))
        }),
{
    form_page(is_auth, params, "signup.tera")
}

/// What the pages of a signed-in `user` are rendered with, against the
/// tables `v`: `build_context`'s values and the site's name and version,
/// as on every other page, and no others.
pub open spec fn member_context(v: crate::tables::DbView, user: user::Model, c: &Context) -> bool {
    &&& c.wf()
    &&& user_entries(v, Some(user), c)
    &&& has_str(c, "site_name"@, "FRCC"@)
    &&& has_str(c, "site_version"@, "1.0.0"@)
    &&& only_keys(c, user_keys(v, Some(user)).insert("site_name"@).insert("site_version"@))
}

/// The values of every page of a signed-in `user`, which is what
/// `create_standard_context` gives when it has the tables:
/// `build_context`'s values (with `is_auth`), and the site's name and
/// version as on every other page.
pub fn signed_in_context(user: user::Model, state: &mut AppState) -> (r: Context)
    requires
        old(state).wf(),
    ensures
        final(state).wf(),
        member_context(old(state)@, user, &r),
        adds_teams(old(state)@, final(state)@, |n: i32| member_team(old(state)@, user.username@) == Some(n)),
        final(state).pending_writes() == old(state).pending_writes() + team_inserts(old(state)@, final(state)@),
{
    proof {
        lemma_context_key_shapes();
    }
    let ghost u = user;
    let mut context = build_context(Some(user), state);
    context.insert("site_name", CtxValue::Str(String::from_str("FRCC")));
    context.insert("site_version", CtxValue::Str(String::from_str("1.0.0")));
    proof {
        assert(has_str(&context, "site_name"@, "FRCC"@));
    }
    context
}

/// Renders `template` for the signed-in `user` with `signed_in_context`.
fn member_page(user: user::Model, state: &mut AppState, template: &str) -> (r: Page)
    requires
        old(state).wf(),
    ensures
        final(state).wf(),
        renders_template(&r, template@),
        member_context(old(state)@, user, page_context(&r)),
        adds_teams(old(state)@, final(state)@, |n: i32| member_team(old(state)@, user.username@) == Some(n)),
        final(state).pending_writes() == old(state).pending_writes() + team_inserts(old(state)@, final(state)@),
{
    let context = signed_in_context(user, state);
    Page::Render { template: String::from_str(template), context }
}

/// The number of scans of user `name`.
fn count_scans(state: &AppState, name: &String) -> (r: usize)
    ensures
        r == scans_of(state@.scans, name@).len(),
{
    let rows = state.scans_rows();
    let mut n: usize = 0;
    let mut i: usize = 0;
    while i < rows.len()
        invariant
            i <= rows.len(),
            rows@ == state@.scans,
            n == scans_of(rows@.take(i as int), name@).len(),
            n <= i,
        decreases rows.len() - i,
    {
        proof {
            assert(rows@.take(i + 1).drop_last() =~= rows@.take(i as int));
        }
        if rows[i].username == *name {
            n = n + 1;
        }
        i = i + 1;
    }
    proof {
        assert(rows@.take(rows.len() as int) =~= rows@);
    }
    n
}

/// `GET /dashboard`: the signed-in user's values, their profile picture and
/// how many cards they have collected (scanned).
pub fn dashboard(user: user::Model, state: &mut AppState) -> (r: Page)
    requires
        old(state).wf(),
    ensures
        final(state).wf(),
        renders_template(&r, "dashboard.tera"@),
        ({
            let c = page_context(&r);
            &&& c.wf()
            &&& user_entries(old(state)@, Some(user), c)
            &&& has_str(c, "site_name"@, "FRCC"@)
            &&& has_str(c, "site_version"@, "1.0.0"@)
            &&& has_str(c, "profile_pic"@, "/images/default-profile.png"@)
            &&& c.get("cards_collected"@) == Some(CtxValue::Count(scans_of(old(state)@.scans, user.username@).len() as usize))
            &&& only_keys(
                c,
                user_keys(old(state)@, Some(user)).insert("site_name"@).insert("site_version"@).insert(
                    "profile_pic"@,
                ).insert("cards_collected"@),
            )
        }),
        adds_teams(old(state)@, final(state)@, |n: i32| member_team(old(state)@, user.username@) == Some(n)),
        final(state).pending_writes() == old(state).pending_writes() + team_inserts(old(state)@, final(state)@),
{
    proof {
        lemma_context_key_shapes();
    }
    let collected = count_scans(state, &user.username);
    let mut context = signed_in_context(user, state);
    context.insert("profile_pic", CtxValue::Str(String::from_str("/images/default-profile.png")));
    context.insert("cards_collected", CtxValue::Count(collected));
    Page::Render { template: String::from_str("dashboard.tera"), context }
}

/// `GET /admin`: site admins only; anyone else goes to the dashboard.
pub fn admin(user: user::Model, state: &mut AppState) -> (r: Page)
    requires
        old(state).wf(),
    ensures
        final(state).wf(),
        !user.is_admin ==> redirects(&r, "/dashboard"@) && final(state)@ == old(state)@
            && final(state).pending_writes() == old(state).pending_writes(),
        user.is_admin ==> renders_template(&r, "admin.tera"@) && member_context(old(state)@, user, page_context(&r))
            && adds_teams(old(state)@, final(state)@, |n: i32| member_team(old(state)@, user.username@) == Some(n)),
        final(state).pending_writes() == old(state).pending_writes() + team_inserts(old(state)@, final(state)@),
{
    if !user.is_admin {
        proof {
            crate::state::lemma_only_new_teams_refl(state@);
            assert(state.pending_writes() + team_inserts(state@, state@) =~= state.pending_writes());
        }
        return Page::Redirect(String::from_str("/dashboard"));
    }
    member_page(user, state, "admin.tera")
}

/// `GET /account`.
pub fn account(user: user::Model, state: &mut AppState) -> (r: Page)
    requires
        old(state).wf(),
    ensures
        final(state).wf(),
        renders_template(&r, "account.tera"@),
        member_context(old(state)@, user, page_context(&r)),
        adds_teams(old(state)@, final(state)@, |n: i32| member_team(old(state)@, user.username@) == Some(n)),
        final(state).pending_writes() == old(state).pending_writes() + team_inserts(old(state)@, final(state)@),
{
    member_page(user, state, "account.tera")
}

/// `GET /edit_cards`: team admins only; anyone else goes to the dashboard.
pub fn edit_cards(user: user::Model, state: &mut AppState) -> (r: Page)
    requires
        old(state).wf(),
    ensures
        final(state).wf(),
        ({
            let team_admin = match find(old(state)@.user_teams, user.username@) {
                Some(m) => m.is_admin,
                None => false,
            };
            &&& !team_admin ==> redirects(&r, "/dashboard"@) && final(state)@ == old(state)@
                && final(state).pending_writes() == old(state).pending_writes()
            &&& team_admin ==> renders_template(&r, "edit_cards.tera"@) && member_context(old(state)@, user, page_context(&r))
                && adds_teams(old(state)@, final(state)@, |n: i32| member_team(old(state)@, user.username@) == Some(n))
        }),
        final(state).pending_writes() == old(state).pending_writes() + team_inserts(old(state)@, final(state)@),
{
    if !state.is_team_admin(&user.username) {
        proof {
            crate::state::lemma_only_new_teams_refl(state@);
            assert(state.pending_writes() + team_inserts(state@, state@) =~= state.pending_writes());
        }
        return Page::Redirect(String::from_str("/dashboard"));
    }
    member_page(user, state, "edit_cards.tera")
}

} // verus!
