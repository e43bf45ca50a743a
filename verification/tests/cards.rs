use frcc::api::{do_scan, get_cards, get_scans, sort_newest_first, Reply};
use frcc::designs::{add_card_design, create_card, CardUpload};
use frcc::entity::{card, card_ability, card_design, scan, team, user, user_team};
use frcc::state::{AppState, Fault};
use frcc::structs::{CardAbilityData, CardData, GetCardsParams};
use frcc::tables::{DbWrite, Tables};

fn empty_tables() -> Tables {
    Tables {
        users: Vec::new(),
        teams: Vec::new(),
        user_teams: Vec::new(),
        invites: Vec::new(),
        auth_tokens: Vec::new(),
        card_designs: Vec::new(),
        cards: Vec::new(),
        card_abilities: Vec::new(),
        scans: Vec::new(),
    }
}

fn plain_user(name: &str) -> user::Model {
    user::Model {
        username: name.to_string(),
        password: "x".to_string(),
        invited_with_code: None,
        is_admin: false,
        is_verified: false,
    }
}

fn design(id: i32, team: i32, name: &str, year: i16) -> card_design::Model {
    card_design::Model { id, team, name: name.to_string(), note: format!("note {id}"), year }
}

fn collection() -> Tables {
    let mut t = empty_tables();
    t.users.push(plain_user("ana"));
    t.users.push(plain_user("ben"));
    t.teams.push(team::Model { number: 4533, name: "Rustaceans".to_string() });
    t.card_designs.push(design(1, 4533, "Ferris", 2024));
    t.card_designs.push(design(2, 254, "Cheesy", 2025));
    t.cards.push(card::Model { id: "c1".to_string(), design: 1 });
    t.cards.push(card::Model { id: "c2".to_string(), design: 2 });
    t.cards.push(card::Model { id: "c3".to_string(), design: 1 });
    t.card_abilities.push(card_ability::Model {
        id: 1,
        card: 1,
        level: 3,
        amount: "".to_string(),
        title: "Climb".to_string(),
        description: "Climbs high".to_string(),
    });
    t
}

fn one_card(r: Result<Reply, Fault>) -> CardData {
    match r {
        Ok(Reply::Card(d)) => d,
        _ => panic!("expected a card"),
    }
}

fn card_list(r: Reply) -> Vec<CardData> {
    match r {
        Reply::Cards(list) => list,
        _ => panic!("expected a list of cards"),
    }
}

#[test]
fn scanning_unlocks_the_card_once() {
    let mut state = AppState::new(collection()).ok().unwrap();
    let ana = state.find_user(&"ana".to_string()).unwrap();
    let d = one_card(do_scan(&mut state, &ana, &"c1".to_string()));
    assert_eq!(d.card_id, Some("c1".to_string()));
    assert_eq!(d.card_design_id, 1);
    assert_eq!(d.team_number, 4533);
    assert_eq!(d.year, 2024);
    assert_eq!(d.team_name, "Rustaceans");
    assert_eq!(d.card_name, Some("Ferris".to_string()));
    assert_eq!(d.card_note, Some("note 1".to_string()));
    let abilities = d.abilities.unwrap();
    assert_eq!(abilities.len(), 1);
    assert_eq!(abilities[0].stat, 3);
    assert_eq!(abilities[0].title, "Climb");
    assert!(matches!(do_scan(&mut state, &ana, &"c1".to_string()), Err(Fault::AlreadyScanned)));
    assert!(matches!(do_scan(&mut state, &ana, &"nope".to_string()), Ok(Reply::Status(404))));
    let writes = state.take_pending();
    assert_eq!(writes.len(), 1);
    assert!(matches!(&writes[0], DbWrite::InsertScan(s) if s.card == "c1" && s.username == "ana"));
}

#[test]
fn scanning_a_card_of_an_unknown_team_creates_the_team() {
    let mut state = AppState::new(collection()).ok().unwrap();
    let ben = state.find_user(&"ben".to_string()).unwrap();
    let d = one_card(do_scan(&mut state, &ben, &"c2".to_string()));
    assert_eq!(d.team_number, 254);
    assert_eq!(d.team_name, "");
    let abilities = d.abilities.unwrap();
    assert_eq!(abilities.len(), 0);
    let writes = state.take_pending();
    assert_eq!(writes.len(), 2);
    assert!(matches!(&writes[1], DbWrite::InsertTeam(t) if t.number == 254));
}

#[test]
fn scans_are_listed_newest_first() {
    let mut t = collection();
    t.scans.push(scan::Model { username: "ana".to_string(), card: "c1".to_string(), scan_time: 10 });
    t.scans.push(scan::Model { username: "ben".to_string(), card: "c2".to_string(), scan_time: 50 });
    t.scans.push(scan::Model { username: "ana".to_string(), card: "c3".to_string(), scan_time: 30 });
    t.scans.push(scan::Model { username: "ana".to_string(), card: "c2".to_string(), scan_time: 20 });
    let mut state = AppState::new(t).ok().unwrap();
    let ana = state.find_user(&"ana".to_string()).unwrap();
    let list = card_list(get_scans(&mut state, &ana));
    let ids: Vec<String> = list.iter().map(|d| d.card_id.clone().unwrap()).collect();
    assert_eq!(ids, vec!["c3".to_string(), "c2".to_string(), "c1".to_string()]);
}

#[test]
fn sorting_keeps_ties_in_table_order() {
    let mk = |card: &str, time: i64| scan::Model { username: "u".to_string(), card: card.to_string(), scan_time: time };
    let sorted = sort_newest_first(vec![mk("a", 5), mk("b", 9), mk("c", 5), mk("d", 1), mk("e", 9)]);
    let cards: Vec<&str> = sorted.iter().map(|s| s.card.as_str()).collect();
    assert_eq!(cards, vec!["b", "e", "a", "c", "d"]);
    assert_eq!(sort_newest_first(Vec::new()).len(), 0);
}

#[test]
fn get_cards_of_a_user_lists_their_scans_unlocked() {
    let mut t = collection();
    t.scans.push(scan::Model { username: "ana".to_string(), card: "c3".to_string(), scan_time: 1 });
    let mut state = AppState::new(t).ok().unwrap();
    let params = GetCardsParams { user: Some("ana".to_string()), team: None, year: None };
    let list = match get_cards(&mut state, &params) {
        Ok(Reply::Cards(l)) => l,
        _ => panic!("expected cards"),
    };
    assert_eq!(list.len(), 1);
    assert_eq!(list[0].card_id, Some("c3".to_string()));
    assert_eq!(list[0].card_design_id, 1);
}

#[test]
fn get_cards_without_a_user_shows_one_locked_card_per_design() {
    let mut state = AppState::new(collection()).ok().unwrap();
    let all = GetCardsParams { user: None, team: None, year: None };
    let list = match get_cards(&mut state, &all) {
        Ok(Reply::Cards(l)) => l,
        _ => panic!("expected cards"),
    };
    assert_eq!(list.len(), 2);
    assert_eq!(list[0].card_design_id, 1);
    assert_eq!(list[0].card_id, None);
    assert!(list[0].abilities.is_none());
    assert!(list[0].card_name.is_none());
    assert_eq!(list[1].card_design_id, 2);
    let by_team = GetCardsParams { user: None, team: Some(254), year: None };
    match get_cards(&mut state, &by_team) {
        Ok(Reply::Cards(l)) => {
            assert_eq!(l.len(), 1);
            assert_eq!(l[0].team_number, 254);
        }
        _ => panic!("expected cards"),
    }
    let by_year = GetCardsParams { user: None, team: None, year: Some(2024) };
    match get_cards(&mut state, &by_year) {
        Ok(Reply::Cards(l)) => {
            assert_eq!(l.len(), 1);
            assert_eq!(l[0].year, 2024);
        }
        _ => panic!("expected cards"),
    }
}

fn ability(stat: u8, title: &str) -> CardAbilityData {
    CardAbilityData { stat, title: title.to_string(), description: format!("{title} well") }
}

#[test]
fn add_card_design_numbers_rows_after_the_largest_ids() {
    let mut t = collection();
    t.card_designs.push(design(7, 4533, "Old", 2023));
    t.card_abilities.push(card_ability::Model {
        id: 10,
        card: 7,
        level: 1,
        amount: "".to_string(),
        title: "t".to_string(),
        description: "d".to_string(),
    });
    let mut state = AppState::new(t).ok().unwrap();
    let id = add_card_design(&mut state, 4533, 2025, "New".to_string(), "".to_string(), vec![ability(2, "Drive"), ability(200, "Shoot")])
        .ok()
        .unwrap();
    assert_eq!(id, 8);
    let writes = state.take_pending();
    assert_eq!(writes.len(), 3);
    match &writes[0] {
        DbWrite::InsertCardDesign(d) => {
            assert_eq!(d.id, 8);
            assert_eq!(d.team, 4533);
            assert_eq!(d.year, 2025);
            assert_eq!(d.name, "New");
        }
        _ => panic!("expected the design first"),
    }
    match (&writes[1], &writes[2]) {
        (DbWrite::InsertCardAbility(a), DbWrite::InsertCardAbility(b)) => {
            assert_eq!((a.id, a.card, a.level, a.title.as_str()), (11, 8, 2, "Drive"));
            assert_eq!((b.id, b.card, b.level, b.title.as_str()), (12, 8, -56, "Shoot"));
            assert_eq!(a.amount, "");
        }
        _ => panic!("expected two abilities"),
    }
}

#[test]
fn add_card_design_in_empty_tables_starts_at_one() {
    let mut state = AppState::new(empty_tables()).ok().unwrap();
    let id = add_card_design(&mut state, 1, 2025, "A".to_string(), "n".to_string(), vec![ability(1, "x")]).ok().unwrap();
    assert_eq!(id, 1);
    let writes = state.take_pending();
    assert!(matches!(&writes[1], DbWrite::InsertCardAbility(a) if a.id == 1 && a.card == 1));
}

#[test]
fn add_card_design_refuses_when_ids_run_out() {
    let mut t = empty_tables();
    t.card_designs.push(design(i32::MAX, 1, "Last", 2020));
    let mut state = AppState::new(t).ok().unwrap();
    let r = add_card_design(&mut state, 1, 2025, "A".to_string(), "".to_string(), Vec::new());
    assert_eq!(r, Err(Fault::IdsExhausted));
    assert_eq!(state.take_pending().len(), 0);
}

fn upload(name: Option<&str>, has_model: bool) -> CardUpload {
    CardUpload {
        bot_name: name.map(|n| n.to_string()),
        note: None,
        abilities: vec![ability(4, "Intake")],
        has_model,
    }
}

#[test]
fn create_card_by_a_team_member() {
    let mut t = collection();
    t.user_teams.push(user_team::Model { user: "ana".to_string(), team: 4533, is_admin: true, invite: None });
    let mut state = AppState::new(t).ok().unwrap();
    let ana = state.find_user(&"ana".to_string()).unwrap();
    let model = create_card(&mut state, &ana, upload(Some("Bolt"), true)).ok().unwrap().unwrap();
    assert_eq!(model.len(), 33);
    assert!(model.chars().all(|c| c.is_ascii_alphanumeric() || c == '_' || c == '-'));
    let writes = state.take_pending();
    assert_eq!(writes.len(), 2);
    match &writes[0] {
        DbWrite::InsertCardDesign(d) => {
            assert_eq!(d.id, 3);
            assert_eq!(d.team, 4533);
            assert_eq!(d.name, "Bolt");
            assert_eq!(d.note, "");
        }
        _ => panic!("expected the design first"),
    }
    assert!(matches!(&writes[1], DbWrite::InsertCardAbility(a) if a.id == 2 && a.card == 3 && a.level == 4));
}

#[test]
fn create_card_without_a_team_stores_nothing() {
    let mut state = AppState::new(collection()).ok().unwrap();
    let ben = state.find_user(&"ben".to_string()).unwrap();
    let r = create_card(&mut state, &ben, upload(Some("Bolt"), true));
    assert_eq!(r, Ok(None));
    assert_eq!(state.take_pending().len(), 0);
}

#[test]
fn create_card_by_someone_without_a_team_needs_no_fields() {
    let mut state = AppState::new(collection()).ok().unwrap();
    let ben = state.find_user(&"ben".to_string()).unwrap();
    assert_eq!(create_card(&mut state, &ben, upload(None, false)), Ok(None));
    assert_eq!(state.take_pending().len(), 0);
}

#[test]
fn a_scan_is_listed_and_cannot_be_repeated() {
    let mut state = AppState::new(collection()).ok().unwrap();
    let ben = state.find_user(&"ben".to_string()).unwrap();
    one_card(do_scan(&mut state, &ben, &"c3".to_string()));
    let list = card_list(get_scans(&mut state, &ben));
    assert_eq!(list.len(), 1);
    assert_eq!(list[0].card_id, Some("c3".to_string()));
    assert!(matches!(do_scan(&mut state, &ben, &"c3".to_string()), Err(Fault::AlreadyScanned)));
}

#[test]
fn consecutive_designs_get_consecutive_ids() {
    let mut state = AppState::new(collection()).ok().unwrap();
    let first = add_card_design(&mut state, 4533, 2025, "One".to_string(), "".to_string(), Vec::new()).ok().unwrap();
    let second = add_card_design(&mut state, 4533, 2025, "Two".to_string(), "".to_string(), Vec::new()).ok().unwrap();
    assert_eq!(first, 3);
    assert_eq!(second, first + 1);
}
