use frcc::api::{change_password, create_invite_code, get_user, get_users, get_team, modify_team, modify_user, Reply};
use frcc::structs::UserData;
use frcc::entity::{team, user, user_team};
use frcc::state::{AppState, Fault};
use frcc::structs::{ChangePassword, TeamData};
use frcc::tables::{DbWrite, Tables};

fn empty_tables() -> Tables {
    Tables {
        users: Vec::new(),
        teams: Vec::new(),
        user_teams: Vec::new(),
        invites: Vec::new(),
        auth_tokens: Vec::new(),
        card_designs: Vec::new(),
        cards: Vec::new(),
        card_abilities: Vec::new(),
        scans: Vec::new(),
    }
}

fn person(name: &str, is_admin: bool, is_verified: bool) -> user::Model {
    user::Model {
        username: name.to_string(),
        password: "x".to_string(),
        invited_with_code: None,
        is_admin,
        is_verified,
    }
}

fn text_of(r: Result<Reply, Fault>) -> (u16, String) {
    match r {
        Ok(Reply::Text { status, body }) => (status, body),
        _ => panic!("expected a text answer"),
    }
}

#[test]
fn invite_codes_for_admins_and_verified_users_only() {
    let mut t = empty_tables();
    t.users.push(person("root", true, false));
    t.users.push(person("vera", false, true));
    t.users.push(person("joe", false, false));
    let mut state = AppState::new(t).ok().unwrap();
    let root = state.find_user(&"root".to_string()).unwrap();
    let vera = state.find_user(&"vera".to_string()).unwrap();
    let joe = state.find_user(&"joe".to_string()).unwrap();
    let (status, code) = text_of(create_invite_code(&root, &mut state));
    assert_eq!(status, 200);
    assert_eq!(code.len(), 64);
    let (status2, code2) = text_of(create_invite_code(&vera, &mut state));
    assert_eq!(status2, 200);
    assert_ne!(code, code2);
    let (status3, body3) = text_of(create_invite_code(&joe, &mut state));
    assert_eq!(status3, 403);
    assert_eq!(body3, "You are not allowed to create invite codes");
    let writes = state.take_pending();
    assert_eq!(writes.len(), 2);
    assert!(matches!(&writes[0], DbWrite::InsertInvite(i) if i.code == code && i.inviter == "root"));
}

#[test]
fn only_site_admins_see_users() {
    let mut t = empty_tables();
    t.users.push(person("root", true, false));
    t.users.push(person("joe", false, false));
    t.user_teams.push(user_team::Model { user: "joe".to_string(), team: 971, is_admin: true, invite: None });
    let mut state = AppState::new(t).ok().unwrap();
    let root = state.find_user(&"root".to_string()).unwrap();
    let joe = state.find_user(&"joe".to_string()).unwrap();
    assert_eq!(text_of(get_user(&mut state, &joe, &"root".to_string())), (403, "You are not an admin".to_string()));
    match get_user(&mut state, &root, &"joe".to_string()) {
        Ok(Reply::User(d)) => {
            assert_eq!(d.username, "joe");
            assert_eq!(d.team, Some("971".to_string()));
            assert_eq!(d.is_team_admin, Some(true));
            assert!(!d.is_admin);
        }
        _ => panic!("expected a user"),
    }
    assert!(matches!(get_user(&mut state, &root, &"nobody".to_string()), Err(Fault::NoSuchUser)));
    match get_users(&mut state, &root) {
        Reply::Users(list) => {
            assert_eq!(list.len(), 2);
            assert_eq!(list[0].username, "root");
            assert_eq!(list[0].team, None);
            assert_eq!(list[0].is_team_admin, Some(false));
        }
        _ => panic!("expected users"),
    }
}

#[test]
fn team_lookup_and_rename() {
    let mut t = empty_tables();
    t.users.push(person("cap", false, false));
    t.users.push(person("pat", false, false));
    t.teams.push(team::Model { number: 118, name: "Robonauts".to_string() });
    t.user_teams.push(user_team::Model { user: "cap".to_string(), team: 118, is_admin: true, invite: None });
    t.user_teams.push(user_team::Model { user: "pat".to_string(), team: 118, is_admin: false, invite: None });
    let mut state = AppState::new(t).ok().unwrap();
    match get_team(&state, 118) {
        Reply::Team(d) => {
            assert_eq!(d.number, 118);
            assert_eq!(d.name, "Robonauts");
        }
        _ => panic!("expected a team"),
    }
    assert!(matches!(get_team(&state, 9999), Reply::Status(404)));
    let cap = state.find_user(&"cap".to_string()).unwrap();
    let pat = state.find_user(&"pat".to_string()).unwrap();
    let form = TeamData { number: 118, name: "Robonauts II".to_string() };
    assert!(matches!(modify_team(&mut state, &pat, 118, &form), Ok(Reply::Status(200))));
    assert_eq!(state.find_team(118).unwrap().name, "Robonauts");
    assert!(matches!(modify_team(&mut state, &cap, 118, &form), Ok(Reply::Status(200))));
    assert_eq!(state.find_team(118).unwrap().name, "Robonauts II");
    let writes = state.take_pending();
    assert_eq!(writes.len(), 1);
    assert!(matches!(&writes[0], DbWrite::UpdateTeam(t) if t.number == 118 && t.name == "Robonauts II"));
}

#[test]
fn change_password_with_a_wrong_current_password() {
    let mut state = AppState::new(empty_tables()).ok().unwrap();
    state.create_user(None, &"zed".to_string(), &"old".to_string()).unwrap();
    let zed = state.find_user(&"zed".to_string()).unwrap();
    let form = ChangePassword {
        current_password: "bad".to_string(),
        new_password: "new".to_string(),
        confirm_password: "new".to_string(),
    };
    assert_eq!(text_of(change_password(&mut state, &zed, &form)), (400, "Incorrect password".to_string()));
    assert!(state.check_user_password(&zed.password, &"old".to_string()));
    assert!(!state.check_user_password(&zed.password, &"new".to_string()));
}

#[test]
fn modify_user_puts_the_user_in_a_team() {
    let mut t = empty_tables();
    t.users.push(person("root", true, false));
    t.users.push(person("kim", false, false));
    t.teams.push(team::Model { number: 5, name: "Five".to_string() });
    let mut state = AppState::new(t).ok().unwrap();
    let root = state.find_user(&"root".to_string()).unwrap();
    let data = |team: &str| UserData {
        username: "kim".to_string(),
        is_admin: false,
        is_verified: true,
        team: Some(team.to_string()),
        is_team_admin: Some(true),
    };
    assert_eq!(text_of(modify_user(&mut state, &root, &"kim".to_string(), &data("5"))), (200, "User updated".to_string()));
    assert_eq!(state.find_team(5).unwrap().name, "Five");
    assert_eq!(state.find_membership(&"kim".to_string()).unwrap().team, 5);
    assert!(state.find_user(&"kim".to_string()).unwrap().is_verified);
    modify_user(&mut state, &root, &"kim".to_string(), &data("77")).ok().unwrap();
    assert_eq!(state.find_team(77).unwrap().name, "");
    assert!(state.is_team_admin(&"kim".to_string()));
    assert!(matches!(modify_user(&mut state, &root, &"kim".to_string(), &data("x")), Err(Fault::BadTeamNumber)));
}
