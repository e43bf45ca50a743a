//! Adding a card design, with its abilities, from a team member's upload
//! (`POST /api/cards`).

use vstd::prelude::*;
use crate::entity::{card_ability, card_design, user};
use crate::state::{AppState, Fault, adds_teams, team_inserts, team_or_new};
use crate::tables::{DbView, DbWrite, Keyed, find, has_key, keys_unique, lemma_push_fresh};
use crate::structs::CardAbilityData;
use crate::secrets::{current_year, is_safe_char, random_id};

verus! {

/// The largest of a non-empty list of ids.
pub open spec fn max_id(ids: Seq<i32>) -> int
    recommends
        ids.len() > 0,
    decreases ids.len(),
{
    if ids.len() <= 1 {
        ids[0] as int
    } else {
        let m = max_id(ids.drop_last());
        if m < ids.last() {
            ids.last() as int
        } else {
            m
        }
    }
}

/// The id the database gives the next row of a table whose ids are `ids`:
/// one more than the largest, or 1 in an empty table.
pub open spec fn next_id(ids: Seq<i32>) -> int {
    if ids.len() == 0 {
        1
    } else {
        max_id(ids) + 1
    }
}

/// The ids of the card designs.
pub open spec fn design_ids(s: Seq<card_design::Model>) -> Seq<i32> {
    s.map_values(|d: card_design::Model| d.id)
}

/// The ids of the ability rows.
pub open spec fn ability_ids(s: Seq<card_ability::Model>) -> Seq<i32> {
    s.map_values(|a: card_ability::Model| a.id)
}

/// `row` is ability `a` stored with id `id` for design `design`.
pub open spec fn ability_row_of(row: card_ability::Model, id: int, design: i32, a: CardAbilityData) -> bool {
    &&& row.id == id
    &&& row.card == design
    &&& row.level == a.stat as i8
    &&& row.amount@ == Seq::<char>::empty()
    &&& row.title@ == a.title@
    &&& row.description@ == a.description@
}

/// The ids a design with `n` abilities needs do not all fit in an `i32`.
pub open spec fn ids_exhausted(v: DbView, n: int) -> bool {
    ||| next_id(design_ids(v.card_designs)) > i32::MAX
    ||| next_id(ability_ids(v.card_abilities)) + n - 1 > i32::MAX
}

/// `after` holds, past the rows of `before`, one new design for the bot
/// `name` with note `note`, of team `team` and year `year`, with the next
/// design id, and then one ability row per ability of `abilities`, in order,
/// numbered on from the ability table's next id.
pub open spec fn design_added(
    before: DbView,
    after: DbView,
    team: i32,
    year: i16,
    name: Seq<char>,
    note: Seq<char>,
    abilities: Seq<CardAbilityData>,
) -> bool {
    let d = after.card_designs.last();
    let id = next_id(design_ids(before.card_designs));
    let first = next_id(ability_ids(before.card_abilities));
    let m = before.card_abilities.len();
    &&& after.card_designs == before.card_designs.push(d)
    &&& d.id == id
    &&& d.team == team
    &&& d.year == year
    &&& d.name@ == name
    &&& d.note@ == note
    &&& after.card_abilities.len() == m + abilities.len()
    &&& after.card_abilities.take(m as int) == before.card_abilities
    &&& forall|k: int| 0 <= k < abilities.len() ==> ability_row_of(
        #[trigger] after.card_abilities[m + k],
        first + k,
        d.id,
        abilities[k],
    )
}

/// The writes that store what `design_added` describes, in order.
pub open spec fn design_writes(before: DbView, after: DbView) -> Seq<DbWrite> {
    seq![DbWrite::InsertCardDesign(after.card_designs.last())] + after.card_abilities.skip(
        before.card_abilities.len() as int,
    ).map_values(|a: card_ability::Model| DbWrite::InsertCardAbility(a))
}

proof fn lemma_max_id(ids: Seq<i32>)
    requires
        ids.len() > 0,
    ensures
        forall|i: int| 0 <= i < ids.len() ==> ids[i] <= max_id(ids),
        exists|i: int| 0 <= i < ids.len() && ids[i] == max_id(ids),
    decreases ids.len(),
{
    if ids.len() > 1 {
        lemma_max_id(ids.drop_last());
        let k = choose|i: int| 0 <= i < ids.drop_last().len() && ids.drop_last()[i] == max_id(ids.drop_last());
        assert(ids[k] == ids.drop_last()[k]);
        assert forall|i: int| 0 <= i < ids.len() implies ids[i] <= max_id(ids) by {
            if i < ids.len() - 1 {
                assert(ids[i] == ids.drop_last()[i]);
            }
        }
    } else {
        assert(ids[0] == max_id(ids));
    }
}

/// Every id of `ids` is below `next_id(ids)`.
proof fn lemma_next_id_above(ids: Seq<i32>)
    ensures
        forall|i: int| 0 <= i < ids.len() ==> ids[i] < next_id(ids),
        next_id(ids) >= i32::MIN + 1,
{
    if ids.len() > 0 {
        lemma_max_id(ids);
    }
}

/// The next id of a table, computed as the database does.
fn compute_next_id(ids: &Vec<i32>) -> (r: i64)
    ensures
        r == next_id(ids@),
{
    if ids.len() == 0 {
        return 1;
    }
    let mut m: i32 = ids[0];
    let mut i: usize = 1;
    while i < ids.len()
        invariant
            1 <= i <= ids.len(),
            m == max_id(ids@.take(i as int)),
        decreases ids.len() - i,
    {
        proof {
            assert(ids@.take(i + 1).drop_last() =~= ids@.take(i as int));
        }
        if m < ids[i] {
            m = ids[i];
        }
        i = i + 1;
    }
    proof {
        assert(ids@.take(ids.len() as int) =~= ids@);
    }
    m as i64 + 1
}

/// The ids of the design rows, in table order.
fn design_id_list(rows: &Vec<card_design::Model>) -> (r: Vec<i32>)
    ensures
        r@ == design_ids(rows@),
{
    let mut out: Vec<i32> = Vec::new();
    let mut i: usize = 0;
    while i < rows.len()
        invariant
            i <= rows.len(),
            out@ == design_ids(rows@.take(i as int)),
        decreases rows.len() - i,
    {
        proof {
            assert(rows@.take(i + 1).drop_last() =~= rows@.take(i as int));
        }
        out.push(rows[i].id);
        i = i + 1;
    }
    proof {
        assert(rows@.take(rows.len() as int) =~= rows@);
    }
    out
}

/// The ids of the ability rows, in table order.
fn ability_id_list(rows: &Vec<card_ability::Model>) -> (r: Vec<i32>)
    ensures
        r@ == ability_ids(rows@),
{
    let mut out: Vec<i32> = Vec::new();
    let mut i: usize = 0;
    while i < rows.len()
        invariant
            i <= rows.len(),
            out@ == ability_ids(rows@.take(i as int)),
        decreases rows.len() - i,
    {
        proof {
            assert(rows@.take(i + 1).drop_last() =~= rows@.take(i as int));
        }
        out.push(rows[i].id);
        i = i + 1;
    }
    proof {
        assert(rows@.take(rows.len() as int) =~= rows@);
    }
    out
}

/// Stores a new card design of team `team`, made in `year`, for the bot
/// `bot_name` with note `note`, and then each ability of `abilities` in order.
/// The design gets the table's next id and the abilities consecutive ids from
/// the ability table's next id, as the database numbers rows. Returns the
/// design's id; nothing is stored where the ids would not fit.
pub fn add_card_design(
    state: &mut AppState,
    team: i32,
    year: i32,
    bot_name: String,
    note: String,
    abilities: Vec<CardAbilityData>,
) -> (r: Result<i32, Fault>)
    requires
        old(state).wf(),
    ensures
        final(state).wf(),
        ids_exhausted(old(state)@, abilities@.len() as int) <==> r is Err,
        r is Err ==> r == Err::<i32, Fault>(Fault::IdsExhausted) && final(state)@ == old(state)@
            && final(state).pending_writes() == old(state).pending_writes(),
        r matches Ok(id) ==> {
            &&& id == next_id(design_ids(old(state)@.card_designs))
            &&& design_added(old(state)@, final(state)@, team, year as i16, bot_name@, note@, abilities@)
            &&& final(state)@ == (DbView {
                card_designs: final(state)@.card_designs,
                card_abilities: final(state)@.card_abilities,
                ..old(state)@
            })
            &&& final(state).pending_writes() == old(state).pending_writes() + design_writes(old(state)@, final(state)@)
        },
{
    let ghost v0 = state@;
    let ghost p0 = state.pending_writes();
    let dids = design_id_list(state.card_designs_rows());
    let aids = ability_id_list(state.card_abilities_rows());
    let design_id = compute_next_id(&dids);
    let first = compute_next_id(&aids);
    if design_id > 2147483647 {
        return Err(Fault::IdsExhausted);
    }
    let n: usize = abilities.len();
    let room: i64 = 2147483647i64 - first + 1;
    proof {
        lemma_next_id_above(aids@);
        lemma_next_id_above(dids@);
        assert forall|i: int| 0 <= i < v0.card_abilities.len() implies #[trigger] v0.card_abilities[i].id < first by {
            assert(aids@[i] == v0.card_abilities[i].id);
        }
    }
    if room < 0 || (n as u64) > (room as u64) {
        return Err(Fault::IdsExhausted);
    }
    let design_id: i32 = design_id as i32;
    let d = card_design::Model { id: design_id, team, name: bot_name, note, year: year as i16 };
    proof {
        if has_key(v0.card_designs, design_id) {
            let k = choose|k: int| 0 <= k < v0.card_designs.len() && #[trigger] v0.card_designs[k].key() == design_id;
            assert(dids@[k] == v0.card_designs[k].id);
        }
    }
    state.insert_card_design(d);
    let ghost v1 = state@;
    let ghost p1 = state.pending_writes();
    let mut k: usize = 0;
    while k < n
        invariant
            state.wf(),
            n == abilities@.len(),
            k <= n,
            first == next_id(ability_ids(v0.card_abilities)),
            first + n - 1 <= i32::MAX,
            forall|i: int| 0 <= i < v0.card_abilities.len() ==> #[trigger] v0.card_abilities[i].id < first,
            state@ == (DbView { card_abilities: state@.card_abilities, ..v1 }),
            state@.card_abilities.len() == v0.card_abilities.len() + k,
            state@.card_abilities.take(v0.card_abilities.len() as int) == v0.card_abilities,
            forall|j: int| 0 <= j < k ==> ability_row_of(
                #[trigger] state@.card_abilities[v0.card_abilities.len() + j],
                first + j,
                design_id,
                abilities@[j],
            ),
            state.pending_writes() == p1 + state@.card_abilities.skip(v0.card_abilities.len() as int).map_values(
                |a: card_ability::Model| DbWrite::InsertCardAbility(a),
            ),
        decreases n - k,
    {
        let ab = &abilities[k];
        let id: i32 = (first + k as i64) as i32;
        let row = card_ability::Model {
            id,
            card: design_id,
            level: ab.stat as i8,
            amount: String::new(),
            title: ab.title.clone(),
            description: ab.description.clone(),
        };
        let ghost before = state@.card_abilities;
        proof {
            if has_key(before, id) {
                let i = choose|i: int| 0 <= i < before.len() && #[trigger] before[i].key() == id;
                if i < v0.card_abilities.len() {
                    assert(before[i] == v0.card_abilities[i]);
                } else {
                    assert(ability_row_of(before[v0.card_abilities.len() + (i - v0.card_abilities.len())], first + (i - v0.card_abilities.len()), design_id, abilities@[i - v0.card_abilities.len()]));
                }
            }
        }
        state.insert_card_ability(row);
        proof {
            let after = state@.card_abilities;
            let m = v0.card_abilities.len();
            assert(after.take(m as int) =~= before.take(m as int));
            assert forall|j: int| 0 <= j < k + 1 implies ability_row_of(
                #[trigger] after[m + j],
                first + j,
                design_id,
                abilities@[j],
            ) by {
                if j < k {
                    assert(after[m + j] == before[m + j]);
                }
            }
            assert(after.skip(m as int) =~= before.skip(m as int).push(row));
            assert(after.skip(m as int).map_values(|a: card_ability::Model| DbWrite::InsertCardAbility(a))
                =~= before.skip(m as int).map_values(|a: card_ability::Model| DbWrite::InsertCardAbility(a)).push(
                DbWrite::InsertCardAbility(row),
            ));
        }
        k = k + 1;
    }
    proof {
        assert(state@.card_designs.last() == d);
        assert(state@.card_designs == v0.card_designs.push(d));
        assert(p1 == p0.push(DbWrite::InsertCardDesign(d)));
        assert(p0.push(DbWrite::InsertCardDesign(d)) + state@.card_abilities.skip(v0.card_abilities.len() as int).map_values(
            |a: card_ability::Model| DbWrite::InsertCardAbility(a),
        ) =~= p0 + design_writes(v0, state@));
    }
    Ok(design_id)
}

/// A card upload as `POST /api/cards` receives it: the bot's name, its note,
/// its abilities (the JSON part, already read), and whether a 3D model came
/// with it.
pub struct CardUpload {
    pub bot_name: Option<String>,
    pub note: Option<String>,
    pub abilities: Vec<CardAbilityData>,
    pub has_model: bool,
}

/// `POST /api/cards`: a member of a team adds a card design for that team,
/// made this year. A caller with no team gets `Ok(None)` and nothing is
/// stored. A member's upload must carry its model and its bot name (the site
/// gives up on one that does not); a missing note is stored as empty. On
/// success the answer is the new, random 33-character name under which the
/// model is to be saved. Looking up the caller's team creates its row, with
/// an empty name, where it has none.
pub fn create_card(state: &mut AppState, user: &user::Model, upload: CardUpload) -> (r: Result<Option<String>, Fault>)
    requires
        old(state).wf(),
        find(old(state)@.user_teams, user.username@) is Some ==> upload.has_model && upload.bot_name is Some,
    ensures
        final(state).wf(),
        match find(old(state)@.user_teams, user.username@) {
            None => r == Ok::<Option<String>, Fault>(None) && final(state)@ == old(state)@
                && final(state).pending_writes() == old(state).pending_writes(),
            Some(m) => {
                let note = match upload.note {
                    Some(s) => s@,
                    None => Seq::<char>::empty(),
                };
                &&& (r is Err <==> ids_exhausted(old(state)@, upload.abilities@.len() as int))
                &&& r is Err ==> r == Err::<Option<String>, Fault>(Fault::IdsExhausted)
                    && adds_teams(old(state)@, final(state)@, |k: i32| k == m.team)
                    && final(state).pending_writes() == old(state).pending_writes() + team_inserts(old(state)@, final(state)@)
                &&& r matches Ok(x) ==> {
                    &&& x matches Some(model)
                    &&& model@.len() == 33
                    &&& forall|i: int| 0 <= i < model@.len() ==> is_safe_char(#[trigger] model@[i])
                    &&& adds_teams(
                        old(state)@,
                        DbView {
                            card_designs: old(state)@.card_designs,
                            card_abilities: old(state)@.card_abilities,
                            ..final(state)@
                        },
                        |k: i32| k == m.team,
                    )
                    &&& design_added(
                        old(state)@,
                        final(state)@,
                        m.team,
                        final(state)@.card_designs.last().year,
                        upload.bot_name.unwrap()@,
                        note,
                        upload.abilities@,
                    )
                    &&& final(state).pending_writes() == old(state).pending_writes() + team_inserts(old(state)@, final(state)@)
                        + design_writes(old(state)@, final(state)@)
                }
            },
        },
{
    let ghost v0 = state@;
    let team = match state.get_user_team(&user.username) {
        Some(t) => t,
        None => {
            return Ok(None);
        },
    };
    let bot_name = match upload.bot_name {
        Some(n) => n,
        None => {
            proof {
                assert(false);
            }
            String::new()
        },
    };
    let note = match upload.note {
        Some(n) => n,
        None => String::new(),
    };
    let model = random_id(33);
    let ghost v1 = state@;
    let ghost p1 = state.pending_writes();
    match add_card_design(state, team.number, current_year(), bot_name, note, upload.abilities) {
        Ok(_) => {
            proof {
                assert(DbView { card_designs: v0.card_designs, card_abilities: v0.card_abilities, ..state@ } == v1);
                assert(team_inserts(v0, state@) == team_inserts(v0, v1));
                assert(design_writes(v1, state@) == design_writes(v0, state@));
            }
            Ok(Some(model))
        },
        Err(e) => Err(e),
    }
}

} // verus!
