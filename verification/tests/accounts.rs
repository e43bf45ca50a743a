use frcc::api::{join_team, leave_team, login, logout, register, Reply};
use frcc::auth::{Auth, IsAuth};
use frcc::entity::{auth_token, user, user_team};
use frcc::state::{AppState, Fault};
use frcc::structs::{JoinTeamData, LoginForm};
use frcc::tables::{DbWrite, Tables};

fn empty_tables() -> Tables {
    Tables {
        users: Vec::new(),
        teams: Vec::new(),
        user_teams: Vec::new(),
        invites: Vec::new(),
        auth_tokens: Vec::new(),
        card_designs: Vec::new(),
        cards: Vec::new(),
        card_abilities: Vec::new(),
        scans: Vec::new(),
    }
}

fn form(name: &str, password: &str) -> LoginForm {
    LoginForm { username: name.to_string(), password: password.to_string() }
}

fn plain_user(name: &str, password_hash: &str) -> user::Model {
    user::Model {
        username: name.to_string(),
        password: password_hash.to_string(),
        invited_with_code: None,
        is_admin: false,
        is_verified: false,
    }
}

fn signed_in_token(r: Result<Reply, Fault>) -> String {
    match r {
        Ok(Reply::SignedIn { token, to }) => {
            assert_eq!(to, "/dashboard");
            token
        }
        _ => panic!("expected a sign-in"),
    }
}

#[test]
fn register_then_login_signs_in() {
    let mut state = AppState::new(empty_tables()).ok().unwrap();
    let first = signed_in_token(register(&mut state, &form("alice", "hunter2")));
    assert_eq!(first.len(), 64);
    let u = state.find_user(&"alice".to_string()).unwrap();
    assert!(u.is_admin);
    assert!(!u.is_verified);
    assert!(u.invited_with_code.is_none());
    assert_ne!(u.password, "hunter2");
    let second = signed_in_token(login(&mut state, &form("alice", "hunter2")));
    assert_ne!(first, second);
    let who = Auth::from_request_parts(&state, Some(&second)).ok().unwrap();
    assert_eq!(who.0.username, "alice");
    let writes = state.take_pending();
    assert_eq!(writes.len(), 3);
    assert!(matches!(&writes[0], DbWrite::InsertUser(u) if u.username == "alice"));
    assert!(matches!(&writes[1], DbWrite::InsertAuthToken(t) if t.token == first));
    assert!(matches!(&writes[2], DbWrite::InsertAuthToken(t) if t.token == second));
    assert_eq!(state.take_pending().len(), 0);
}

#[test]
fn login_with_wrong_password_goes_back_to_signin() {
    let mut state = AppState::new(empty_tables()).ok().unwrap();
    signed_in_token(register(&mut state, &form("bob", "right")));
    state.take_pending();
    let r = login(&mut state, &form("bob", "wrong"));
    assert!(matches!(r, Ok(Reply::Redirect(ref p)) if p == "/signin?error=invalid"));
    assert_eq!(state.take_pending().len(), 0);
}

#[test]
fn login_of_unknown_user_goes_back_to_signin() {
    let mut state = AppState::new(empty_tables()).ok().unwrap();
    let r = login(&mut state, &form("nobody", "x"));
    assert!(matches!(r, Ok(Reply::Redirect(ref p)) if p == "/signin?error=invalid"));
}

#[test]
fn login_against_a_malformed_hash_is_an_error() {
    let mut t = empty_tables();
    t.users.push(plain_user("carol", "not a phc string"));
    let mut state = AppState::new(t).ok().unwrap();
    let r = login(&mut state, &form("carol", "x"));
    assert!(matches!(r, Err(Fault::MalformedPasswordHash)));
    assert_eq!(state.try_check_user_password(&"not a phc string".to_string(), &"x".to_string()), None);
}

#[test]
fn register_with_taken_name_goes_back_to_signup() {
    let mut t = empty_tables();
    t.users.push(plain_user("dave", "x"));
    let mut state = AppState::new(t).ok().unwrap();
    let r = register(&mut state, &form("dave", "pw"));
    assert!(matches!(r, Ok(Reply::Redirect(ref p)) if p == "/signup?error=taken"));
    assert_eq!(state.take_pending().len(), 0);
}

#[test]
fn create_user_refuses_a_taken_name() {
    let mut t = empty_tables();
    t.users.push(plain_user("erin", "x"));
    let mut state = AppState::new(t).ok().unwrap();
    let r = state.create_user(None, &"erin".to_string(), &"pw".to_string());
    assert_eq!(r, Err(Fault::UsernameTaken));
}

#[test]
fn logout_forgets_the_token() {
    let mut state = AppState::new(empty_tables()).ok().unwrap();
    let token = signed_in_token(register(&mut state, &form("frank", "pw")));
    let r = logout(&mut state, Some(&token));
    assert!(matches!(r, Ok(Reply::Redirect(ref p)) if p == "/"));
    assert!(state.get_user_for_token(&token).is_none());
    match Auth::from_request_parts(&state, Some(&token)) {
        Err(rej) => assert!(rej.remove_cookie),
        Ok(_) => panic!("a forgotten token must not sign in"),
    }
    let writes = state.take_pending();
    assert!(matches!(writes.last(), Some(DbWrite::DeleteAuthToken(t)) if *t == token));
}

#[test]
fn logout_without_cookie_is_an_error() {
    let mut state = AppState::new(empty_tables()).ok().unwrap();
    assert!(matches!(logout(&mut state, None), Err(Fault::NoTokenCookie)));
}

#[test]
fn auth_without_cookie_is_rejected_and_is_auth_follows_the_cookie() {
    let state = AppState::new(empty_tables()).ok().unwrap();
    match Auth::from_request_parts(&state, None) {
        Err(rej) => assert!(!rej.remove_cookie),
        Ok(_) => panic!("no cookie, no user"),
    }
    let unknown = "unknown".to_string();
    assert!(IsAuth::from_request_parts(&state, Some(&unknown)).ok().unwrap().0);
    assert!(!IsAuth::from_request_parts(&state, None).ok().unwrap().0);
}

#[test]
fn new_refuses_a_token_of_a_missing_user() {
    let mut t = empty_tables();
    t.auth_tokens.push(auth_token::Model { user: "ghost".to_string(), token: "t".to_string() });
    assert!(matches!(AppState::new(t), Err(Fault::MalformedTables)));
}

#[test]
fn new_refuses_duplicate_users() {
    let mut t = empty_tables();
    t.users.push(plain_user("gina", "x"));
    t.users.push(plain_user("gina", "y"));
    assert!(matches!(AppState::new(t), Err(Fault::MalformedTables)));
}

#[test]
fn get_team_creates_the_row_once() {
    let mut state = AppState::new(empty_tables()).ok().unwrap();
    let t1 = state.get_team(254);
    assert_eq!(t1.number, 254);
    assert_eq!(t1.name, "");
    let t2 = state.get_team(254);
    assert_eq!(t2.number, 254);
    assert_eq!(t2.name, "");
    let writes = state.take_pending();
    assert_eq!(writes.len(), 1);
    assert!(matches!(&writes[0], DbWrite::InsertTeam(t) if t.number == 254));
}

fn join(code: Option<&str>, team: &str) -> JoinTeamData {
    JoinTeamData { team_number: team.to_string(), join_code: code.map(|c| c.to_string()) }
}

#[test]
fn a_join_code_makes_one_admin() {
    let mut t = empty_tables();
    t.users.push(plain_user("hank", "x"));
    t.users.push(plain_user("iris", "x"));
    t.invites.push(frcc::entity::invite::Model { code: "secret".to_string(), inviter: "hank".to_string() });
    let mut state = AppState::new(t).ok().unwrap();
    let hank = state.find_user(&"hank".to_string()).unwrap();
    let iris = state.find_user(&"iris".to_string()).unwrap();
    let r = join_team(&mut state, &hank, &join(Some("secret"), "4533"));
    assert!(matches!(r, Ok(Reply::Redirect(ref p)) if p == "/account"));
    let m = state.find_membership(&"hank".to_string()).unwrap();
    assert!(m.is_admin);
    assert_eq!(m.invite, Some("secret".to_string()));
    assert_eq!(m.team, 4533);
    join_team(&mut state, &iris, &join(Some("secret"), "4533")).ok().unwrap();
    let m2 = state.find_membership(&"iris".to_string()).unwrap();
    assert!(!m2.is_admin);
    assert_eq!(m2.invite, None);
    assert!(state.is_team_admin(&"hank".to_string()));
    assert!(!state.is_team_admin(&"iris".to_string()));
}

#[test]
fn joining_with_an_empty_code_or_none_is_not_admin() {
    let mut t = empty_tables();
    t.users.push(plain_user("jack", "x"));
    t.users.push(plain_user("kate", "x"));
    let mut state = AppState::new(t).ok().unwrap();
    let jack = state.find_user(&"jack".to_string()).unwrap();
    let kate = state.find_user(&"kate".to_string()).unwrap();
    join_team(&mut state, &jack, &join(Some(""), "1")).ok().unwrap();
    join_team(&mut state, &kate, &join(None, "1")).ok().unwrap();
    assert!(!state.is_team_admin(&"jack".to_string()));
    assert!(!state.is_team_admin(&"kate".to_string()));
}

#[test]
fn join_team_refuses_a_bad_number_and_a_second_team() {
    let mut t = empty_tables();
    t.users.push(plain_user("liam", "x"));
    let mut state = AppState::new(t).ok().unwrap();
    let liam = state.find_user(&"liam".to_string()).unwrap();
    assert!(matches!(join_team(&mut state, &liam, &join(None, "12a")), Err(Fault::BadTeamNumber)));
    join_team(&mut state, &liam, &join(None, "+12")).ok().unwrap();
    assert_eq!(state.find_membership(&"liam".to_string()).unwrap().team, 12);
    assert!(matches!(join_team(&mut state, &liam, &join(None, "13")), Err(Fault::AlreadyMember)));
}

#[test]
fn leave_team_deletes_the_admin_invite() {
    let mut t = empty_tables();
    t.users.push(plain_user("mia", "x"));
    t.invites.push(frcc::entity::invite::Model { code: "abc".to_string(), inviter: "mia".to_string() });
    t.user_teams.push(user_team::Model { user: "mia".to_string(), team: 7, is_admin: true, invite: Some("abc".to_string()) });
    let mut state = AppState::new(t).ok().unwrap();
    let mia = state.find_user(&"mia".to_string()).unwrap();
    let r = leave_team(&mut state, &mia);
    assert!(matches!(r, Ok(Reply::Redirect(ref p)) if p == "/account"));
    assert!(state.find_membership(&"mia".to_string()).is_none());
    let writes = state.take_pending();
    assert_eq!(writes.len(), 2);
    assert!(matches!(&writes[0], DbWrite::DeleteInvite(c) if c == "abc"));
    assert!(matches!(&writes[1], DbWrite::DeleteUserTeam(u) if u == "mia"));
    assert!(matches!(leave_team(&mut state, &mia), Err(Fault::NotMember)));
}

#[test]
fn invite_codes_are_always_reported_valid() {
    let state = AppState::new(empty_tables()).ok().unwrap();
    assert!(state.is_valid_invite_code(&"anything".to_string()));
}

#[test]
fn a_code_that_is_no_invite_makes_no_admin() {
    let mut t = empty_tables();
    t.users.push(plain_user("nora", "x"));
    let mut state = AppState::new(t).ok().unwrap();
    let nora = state.find_user(&"nora".to_string()).unwrap();
    join_team(&mut state, &nora, &join(Some("made-up"), "5")).ok().unwrap();
    let m = state.find_membership(&"nora".to_string()).unwrap();
    assert!(!m.is_admin);
    assert_eq!(m.invite, None);
}

#[test]
fn an_invite_is_not_reused_after_its_admin_leaves() {
    let mut t = empty_tables();
    t.users.push(plain_user("otto", "x"));
    t.users.push(plain_user("pia", "x"));
    t.invites.push(frcc::entity::invite::Model { code: "once".to_string(), inviter: "otto".to_string() });
    let mut state = AppState::new(t).ok().unwrap();
    let otto = state.find_user(&"otto".to_string()).unwrap();
    let pia = state.find_user(&"pia".to_string()).unwrap();
    join_team(&mut state, &otto, &join(Some("once"), "8")).ok().unwrap();
    assert!(state.is_team_admin(&"otto".to_string()));
    leave_team(&mut state, &otto).ok().unwrap();
    join_team(&mut state, &pia, &join(Some("once"), "8")).ok().unwrap();
    assert!(!state.is_team_admin(&"pia".to_string()));
    join_team(&mut state, &otto, &join(Some("once"), "8")).ok().unwrap();
    assert!(!state.is_team_admin(&"otto".to_string()));
}

#[test]
fn a_drawn_token_or_code_that_is_taken_is_refused() {
    let mut t = empty_tables();
    t.users.push(plain_user("quin", "x"));
    t.auth_tokens.push(auth_token::Model { user: "quin".to_string(), token: "tok".to_string() });
    t.invites.push(frcc::entity::invite::Model { code: "inv".to_string(), inviter: "quin".to_string() });
    let mut state = AppState::new(t).ok().unwrap();
    let quin = "quin".to_string();
    assert_eq!(state.add_token(&quin, "tok".to_string()), Err(Fault::IdCollision));
    assert_eq!(state.add_token(&"nobody".to_string(), "new".to_string()), Err(Fault::NoSuchUser));
    assert_eq!(state.add_token(&quin, "new".to_string()), Ok("new".to_string()));
    assert_eq!(state.get_user_for_token(&"new".to_string()).unwrap().username, "quin");
    assert_eq!(state.add_invite(&quin, "inv".to_string()), Err(Fault::IdCollision));
    assert_eq!(state.add_invite(&quin, "inv2".to_string()), Ok("inv2".to_string()));
    assert_eq!(state.add_user(&quin, "h".to_string()), Err(Fault::UsernameTaken));
    assert_eq!(state.add_user(&"rex".to_string(), "h".to_string()), Ok(()));
    assert_eq!(state.find_user(&"rex".to_string()).unwrap().password, "h");
}

#[test]
fn created_users_store_an_argon2id_hash() {
    let mut state = AppState::new(empty_tables()).ok().unwrap();
    state.create_user(None, &"sam".to_string(), &"pw".to_string()).unwrap();
    let sam = state.find_user(&"sam".to_string()).unwrap();
    assert!(sam.password.starts_with("$argon2id$"));
    assert!(state.check_user_password(&sam.password, &"pw".to_string()));
}
