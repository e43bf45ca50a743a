use frcc::context::{Context, CtxValue};
use frcc::entity::{card_design, scan, card, user, user_team};
use frcc::frontend::{account, admin, create_standard_context, dashboard, edit_cards, hero, scan as scan_page, signin, Page};
use frcc::state::AppState;
use frcc::structs::ErrorParams;
use frcc::tables::Tables;

fn empty_tables() -> Tables {
    Tables {
        users: Vec::new(),
        teams: Vec::new(),
        user_teams: Vec::new(),
        invites: Vec::new(),
        auth_tokens: Vec::new(),
        card_designs: Vec::new(),
        cards: Vec::new(),
        card_abilities: Vec::new(),
        scans: Vec::new(),
    }
}

fn person(name: &str, is_admin: bool) -> user::Model {
    user::Model {
        username: name.to_string(),
        password: "x".to_string(),
        invited_with_code: None,
        is_admin,
        is_verified: false,
    }
}

fn value<'a>(c: &'a Context, key: &str) -> Option<&'a CtxValue> {
    c.entries().iter().find(|e| e.key == key).map(|e| &e.value)
}

fn rendered(p: Page) -> (String, Context) {
    match p {
        Page::Render { template, context } => (template, context),
        Page::Redirect(to) => panic!("unexpected redirect to {to}"),
    }
}

fn redirect_of(p: Page) -> String {
    match p {
        Page::Redirect(to) => to,
        Page::Render { template, .. } => panic!("unexpected render of {template}"),
    }
}

#[test]
fn standard_context_names_the_site() {
    let c = create_standard_context(false, None);
    assert_eq!(c.entries().len(), 3);
    assert!(matches!(value(&c, "is_auth"), Some(CtxValue::Bool(false))));
    assert!(matches!(value(&c, "site_name"), Some(CtxValue::Str(s)) if s == "FRCC"));
    assert!(matches!(value(&c, "site_version"), Some(CtxValue::Str(s)) if s == "1.0.0"));
    let c2 = create_standard_context(true, Some(person("amy", true)));
    assert_eq!(c2.entries().len(), 5);
    assert!(matches!(value(&c2, "username"), Some(CtxValue::Str(s)) if s == "amy"));
    assert!(matches!(value(&c2, "is_site_admin"), Some(CtxValue::Bool(true))));
}

#[test]
fn public_pages_render_their_template() {
    let (template, c) = rendered(scan_page(true));
    assert_eq!(template, "scan.tera");
    assert!(matches!(value(&c, "is_auth"), Some(CtxValue::Bool(true))));
    let (template, c) = rendered(signin(false, &ErrorParams { error: Some("invalid".to_string()) }));
    assert_eq!(template, "signin.tera");
    assert!(matches!(value(&c, "is_error"), Some(CtxValue::Bool(true))));
    let (_, c) = rendered(signin(false, &ErrorParams { error: None }));
    assert!(matches!(value(&c, "is_error"), Some(CtxValue::Bool(false))));
}

#[test]
fn hero_shows_the_first_design_or_sends_members_on() {
    let mut t = empty_tables();
    t.card_designs.push(card_design::Model { id: 5, team: 1, name: "A".to_string(), note: "".to_string(), year: 2025 });
    t.card_designs.push(card_design::Model { id: 3, team: 1, name: "B".to_string(), note: "".to_string(), year: 2025 });
    let state = AppState::new(t).ok().unwrap();
    assert_eq!(redirect_of(hero(&state, true)), "/dashboard");
    let (template, c) = rendered(hero(&state, false));
    assert_eq!(template, "hero.tera");
    assert!(matches!(value(&c, "random_design"), Some(CtxValue::OptInt(Some(5)))));
    let empty = AppState::new(empty_tables()).ok().unwrap();
    let (_, c) = rendered(hero(&empty, false));
    assert!(matches!(value(&c, "random_design"), Some(CtxValue::OptInt(None))));
}

#[test]
fn dashboard_counts_the_collected_cards() {
    let mut t = empty_tables();
    t.users.push(person("ola", false));
    t.user_teams.push(user_team::Model { user: "ola".to_string(), team: 33, is_admin: false, invite: None });
    t.card_designs.push(card_design::Model { id: 1, team: 33, name: "A".to_string(), note: "".to_string(), year: 2025 });
    t.cards.push(card::Model { id: "k1".to_string(), design: 1 });
    t.cards.push(card::Model { id: "k2".to_string(), design: 1 });
    t.scans.push(scan::Model { username: "ola".to_string(), card: "k1".to_string(), scan_time: 1 });
    t.scans.push(scan::Model { username: "ola".to_string(), card: "k2".to_string(), scan_time: 2 });
    t.scans.push(scan::Model { username: "max".to_string(), card: "k2".to_string(), scan_time: 3 });
    let mut state = AppState::new(t).ok().unwrap();
    let ola = state.find_user(&"ola".to_string()).unwrap();
    let (template, c) = rendered(dashboard(ola, &mut state));
    assert_eq!(template, "dashboard.tera");
    assert!(matches!(value(&c, "cards_collected"), Some(CtxValue::Count(2))));
    assert!(matches!(value(&c, "profile_pic"), Some(CtxValue::Str(s)) if s == "/images/default-profile.png"));
    assert!(matches!(value(&c, "has_team"), Some(CtxValue::Bool(true))));
    assert!(matches!(value(&c, "team_number"), Some(CtxValue::Int(33))));
    assert!(matches!(value(&c, "team_name"), Some(CtxValue::Str(s)) if s.is_empty()));
    assert!(matches!(value(&c, "site_name"), Some(CtxValue::Str(s)) if s == "FRCC"));
    assert!(matches!(value(&c, "site_version"), Some(CtxValue::Str(s)) if s == "1.0.0"));
    assert_eq!(c.entries().len(), 11);
    assert_eq!(state.take_pending().len(), 1);
}

#[test]
fn admin_and_edit_pages_turn_others_away() {
    let mut t = empty_tables();
    t.users.push(person("root", true));
    t.users.push(person("lee", false));
    t.user_teams.push(user_team::Model { user: "lee".to_string(), team: 9, is_admin: true, invite: None });
    let mut state = AppState::new(t).ok().unwrap();
    let root = state.find_user(&"root".to_string()).unwrap();
    let lee = state.find_user(&"lee".to_string()).unwrap();
    assert_eq!(redirect_of(admin(lee.clone(), &mut state)), "/dashboard");
    let (template, c) = rendered(admin(root.clone(), &mut state));
    assert_eq!(template, "admin.tera");
    assert!(matches!(value(&c, "has_team"), Some(CtxValue::Bool(false))));
    assert!(matches!(value(&c, "site_name"), Some(CtxValue::Str(s)) if s == "FRCC"));
    assert_eq!(c.entries().len(), 6);
    assert_eq!(redirect_of(edit_cards(root.clone(), &mut state)), "/dashboard");
    let (template, c) = rendered(edit_cards(lee.clone(), &mut state));
    assert_eq!(template, "edit_cards.tera");
    assert!(matches!(value(&c, "is_team_admin"), Some(CtxValue::Bool(true))));
    let (template, _) = rendered(account(root, &mut state));
    assert_eq!(template, "account.tera");
}
