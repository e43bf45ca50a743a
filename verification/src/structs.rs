//! What the forms and the JSON API carry, and how a card is shown.

use vstd::prelude::*;
use crate::entity::{card, card_ability};
use crate::state::{AppState, adds_teams, team_name, team_inserts};
use crate::tables::{find, has_key, lemma_push_fresh};

verus! {

/// The sign-in and sign-up form.
pub struct LoginForm {
    pub username: String,
    pub password: String,
}

/// One ability as the API shows it; `stat` is the ability's level.
#[derive(Debug, Clone)]
pub struct CardAbilityData {
    pub stat: u8,
    pub title: String,
    pub description: String,
}

/// Filters of `GET /api/cards`.
pub struct GetCardsParams {
    pub user: Option<String>,
    pub team: Option<i32>,
    pub year: Option<i16>,
}

/// A user as the admin API shows and takes it; `team` is the team number in
/// decimal.
#[derive(Debug)]
pub struct UserData {
    pub username: String,
    pub is_admin: bool,
    pub is_verified: bool,
    pub team: Option<String>,
    pub is_team_admin: Option<bool>,
}

/// The join-team form.
pub struct JoinTeamData {
    pub team_number: String,
    pub join_code: Option<String>,
}

/// The change-password form.
pub struct ChangePassword {
    pub current_password: String,
    pub new_password: String,
    pub confirm_password: String,
}

/// A team as the API shows it, and the team-rename form.
pub struct TeamData {
    pub number: i32,
    pub name: String,
}

/// A team member as the API shows and takes it.
pub struct UserTeamData {
    pub username: String,
    pub is_admin: bool,
}

/// A card as the API shows it. Locked cards show only the design, team and
/// year; unlocked (scanned) cards also show the card id, name, note and
/// abilities.
pub struct CardData {
    pub card_id: Option<String>,
    pub card_design_id: i32,
    pub team_number: i32,
    pub year: u16,
    pub team_name: String,
    pub card_name: Option<String>,
    pub card_note: Option<String>,
    pub abilities: Option<Vec<CardAbilityData>>,
}

/// The `error` query parameter of the sign-in and sign-up pages.
pub struct ErrorParams {
    pub error: Option<String>,
}

/// `d` shows ability row `a`.
pub open spec fn ability_data_of(a: card_ability::Model, d: CardAbilityData) -> bool {
    &&& d.stat == a.level as u8
    &&& d.title == a.title
    &&& d.description == a.description
}

/// `r` is card `c` as `CardData::from_card` shows it against the tables `v`.
pub open spec fn card_data_of(v: crate::tables::DbView, c: card::Model, unlocked: bool, r: CardData) -> bool {
    let d = find(v.card_designs, c.design).unwrap();
    &&& r.card_id == (if unlocked { Some(c.id) } else { None })
    &&& r.card_design_id == c.design
    &&& r.team_number == d.team
    &&& r.year == d.year as u16
    &&& r.team_name@ == team_name(v, d.team)
    &&& r.card_name == (if unlocked { Some(d.name) } else { None })
    &&& r.card_note == (if unlocked { Some(d.note) } else { None })
    &&& if unlocked {
        let found = find(v.card_abilities, c.design);
        &&& r.abilities matches Some(list)
        &&& list@.len() == (if found is Some { 1int } else { 0int })
        &&& found matches Some(a) ==> ability_data_of(a, list@[0])
    } else {
        r.abilities is None
    }
}

impl CardData {
    /// Card `cardd` as the API shows it; the design's team is created (with an
    /// empty name) where it has no row, as `AppState::get_team` does.
    pub fn from_card(cardd: card::Model, state: &mut AppState, unlocked: bool) -> (r: CardData)
        requires
            old(state).wf(),
            has_key(old(state)@.card_designs, cardd.design),
        ensures
            final(state).wf(),
            card_data_of(old(state)@, cardd, unlocked, r),
            adds_teams(
                old(state)@,
                final(state)@,
                |n: i32| n == find(old(state)@.card_designs, cardd.design).unwrap().team,
            ),
            final(state).pending_writes() == old(state).pending_writes() + team_inserts(
                old(state)@,
                final(state)@,
            ),
    {
        let design = state.find_card_design(cardd.design).unwrap();
        let ghost v0 = state@;
        let team = state.get_team(design.team);
        proof {
            if !has_key(v0.teams, design.team) {
                lemma_push_fresh(v0.teams, team);
            }
        }
        let abilities = if unlocked {
            let rows = state.get_card_design_abilities(cardd.design);
            let mut list: Vec<CardAbilityData> = Vec::new();
            let mut i: usize = 0;
            while i < rows.len()
                invariant
                    i <= rows.len(),
                    list@.len() == i,
                    forall|j: int| 0 <= j < i ==> ability_data_of(rows@[j], #[trigger] list@[j]),
                decreases rows.len() - i,
            {
                let a = &rows[i];
                list.push(
                    CardAbilityData {
                        stat: a.level as u8,
                        title: a.title.clone(),
                        description: a.description.clone(),
                    },
                );
                i = i + 1;
            }
            Some(list)
        } else {
            None
        };
        CardData {
            card_id: if unlocked { Some(cardd.id) } else { None },
            card_design_id: cardd.design,
            team_number: design.team,
            year: design.year as u16,
            team_name: team.name,
            card_name: if unlocked { Some(design.name) } else { None },
            card_note: if unlocked { Some(design.note) } else { None },
            abilities,
        }
    }
}

} // verus!
