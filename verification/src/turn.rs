use vstd::prelude::*;

use crate::model::{
    entity_index, find_entity, first_index_where, lemma_first_index_is,
    lemma_first_index_where, RpgEntityState,
};
use crate::movement::copy_texts;
use vstd::string::StringExecFns;

verus! {

/// Whose turn it is, the initiative order and the round and turn counters.
#[derive(Debug, Clone)]
pub struct RpgTurnState {
    pub initiative_order: Vec<String>,
    pub current_actor_id: String,
    pub round: u64,
    pub turn: u64,
}

/// Whether the entity with an identity exists and has positive vitality.
pub open spec fn is_living(entities: Seq<RpgEntityState>, id: Seq<char>) -> bool {
    let i = entity_index(entities, id);
    i >= 0 && entities[i].vitality.current > 0
}

pub open spec fn text_is(id: Seq<char>) -> spec_fn(String) -> bool {
    |s: String| s@ == id
}

/// The slot the turn starts counting from: the current actor's first slot in
/// the initiative order, or the first slot when it is not there.
pub open spec fn start_slot(turn: RpgTurnState) -> int {
    let p = first_index_where(turn.initiative_order@, text_is(turn.current_actor_id@));
    if p < 0 {
        0
    } else {
        p
    }
}

/// The slot `k` places after the start, cyclically.
pub open spec fn slot_after(turn: RpgTurnState, k: int) -> int {
    (start_slot(turn) + k) % (turn.initiative_order@.len() as int)
}

pub open spec fn steps(n: int) -> Seq<int> {
    Seq::new(n as nat, |j: int| j + 1)
}

pub open spec fn living_after(turn: RpgTurnState, entities: Seq<RpgEntityState>) -> spec_fn(
    int,
) -> bool {
    |k: int| is_living(entities, turn.initiative_order@[slot_after(turn, k)]@)
}

/// How many slots after the start the next living participant sits
/// (`1..=len`, the start itself last), or -1 when nobody in the order lives.
pub open spec fn next_living_offset(turn: RpgTurnState, entities: Seq<RpgEntityState>) -> int {
    let j = first_index_where(
        steps(turn.initiative_order@.len() as int),
        living_after(turn, entities),
    );
    if j < 0 {
        -1
    } else {
        j + 1
    }
}

pub open spec fn saturating_next(v: u64) -> u64 {
    if v == u64::MAX {
        v
    } else {
        (v + 1) as u64
    }
}

/// Whether the entity with an identity exists and has positive vitality.
pub fn participant_is_living(entities: &Vec<RpgEntityState>, id: &String) -> (b: bool)
    ensures
        b == is_living(entities@, id@),
{
    match find_entity(entities, id) {
        Some(i) => entities[i].vitality.current > 0,
        None => false,
    }
}

fn first_slot_of(order: &Vec<String>, id: &String) -> (r: Option<usize>)
    ensures
        match r {
            Some(p) => p < order@.len() && p as int == first_index_where(order@, text_is(id@)),
            None => first_index_where(order@, text_is(id@)) == -1,
        },
{
    let mut p: usize = 0;
    while p < order.len()
        invariant
            p <= order@.len(),
            forall|q: int| 0 <= q < p ==> !text_is(id@)(#[trigger] order@[q]),
        decreases order.len() - p,
    {
        if order[p] == *id {
            proof {
                lemma_first_index_is(order@, text_is(id@), p as int);
            }
            return Some(p);
        }
        p = p + 1;
    }
    proof {
        lemma_first_index_is(order@, text_is(id@), -1);
    }
    None
}

proof fn lemma_some_offset_reaches(turn: RpgTurnState, q: int)
    requires
        0 <= q < turn.initiative_order@.len(),
    ensures
        ({
            let n = turn.initiative_order@.len() as int;
            let k = if q > start_slot(turn) {
                q - start_slot(turn)
            } else {
                q - start_slot(turn) + n
            };
            1 <= k <= n && slot_after(turn, k) == q
        }),
{
    let n = turn.initiative_order@.len() as int;
    let s = start_slot(turn);
    lemma_first_index_where(turn.initiative_order@, text_is(turn.current_actor_id@));
    assert(0 <= s < n);
    if q > s {
        assert((s + (q - s)) % n == q) by (nonlinear_arith)
            requires
                0 <= q < n,
        ;
    } else {
        assert((s + (q - s + n)) % n == q) by (nonlinear_arith)
            requires
                0 <= q < n,
        ;
    }
}

/// The turn after the current one: the next participant in initiative order
/// (cyclically, starting after the current actor's slot, or after the first
/// slot when the current actor is not in the order) that has positive
/// vitality becomes the current actor; the turn counter advances by one and
/// the round counter advances when the order wraps (both saturating). With
/// an empty order or nobody living, the turn is unchanged.
pub fn next_turn(turn: &RpgTurnState, entities: &Vec<RpgEntityState>) -> (r: RpgTurnState)
    ensures
        r.initiative_order@ == turn.initiative_order@,
        ({
            let k = next_living_offset(*turn, entities@);
            if turn.initiative_order@.len() == 0 || k < 0 {
                &&& r.current_actor_id@ == turn.current_actor_id@
                &&& r.round == turn.round
                &&& r.turn == turn.turn
            } else {
                let s = slot_after(*turn, k);
                &&& r.current_actor_id@ == turn.initiative_order@[s]@
                &&& r.round == if s <= start_slot(*turn) {
                    saturating_next(turn.round)
                } else {
                    turn.round
                }
                &&& r.turn == saturating_next(turn.turn)
            }
        }),
        (exists|q: int|
            0 <= q < turn.initiative_order@.len() && is_living(
                entities@,
                (#[trigger] turn.initiative_order@[q])@,
            )) ==> is_living(entities@, r.current_actor_id@),
{
    let order = &turn.initiative_order;
    let n = order.len();
    let unchanged = RpgTurnState {
        initiative_order: copy_texts(order),
        current_actor_id: turn.current_actor_id.clone(),
        round: turn.round,
        turn: turn.turn,
    };
    if n == 0 {
        return unchanged;
    }
    let current = match first_slot_of(order, &turn.current_actor_id) {
        Some(p) => p,
        None => 0,
    };
    assert(current as int == start_slot(*turn));
    let ghost seq = steps(n as int);
    let ghost f = living_after(*turn, entities@);
    let mut k: usize = 0;
    while k < n
        invariant
            n == turn.initiative_order@.len(),
            order@ == turn.initiative_order@,
            n > 0,
            current < n,
            current as int == start_slot(*turn),
            seq == steps(n as int),
            f == living_after(*turn, entities@),
            k <= n,
            forall|j: int| 0 <= j < k ==> !f(#[trigger] seq[j]),
        decreases n - k,
    {
        let offset = k + 1;
        let next = if offset >= n - current {
            offset - (n - current)
        } else {
            current + offset
        };
        proof {
            let ni = n as int;
            let c = current as int;
            let o = offset as int;
            if o >= ni - c {
                assert((c + o) % ni == c + o - ni) by (nonlinear_arith)
                    requires
                        ni <= c + o < 2 * ni,
                ;
            } else {
                assert((c + o) % ni == c + o) by (nonlinear_arith)
                    requires
                        0 <= c + o < ni,
                ;
            }
            assert(next as int == slot_after(*turn, o));
        }
        if participant_is_living(entities, &order[next]) {
            proof {
                assert(f(seq[k as int]));
                lemma_first_index_is(seq, f, k as int);
            }
            let round = if next <= current {
                turn.round.saturating_add(1)
            } else {
                turn.round
            };
            return RpgTurnState {
                initiative_order: copy_texts(order),
                current_actor_id: order[next].clone(),
                round,
                turn: turn.turn.saturating_add(1),
            };
        }
        k = k + 1;
    }
    proof {
        lemma_first_index_is(seq, f, -1);
        if exists|q: int|
            0 <= q < turn.initiative_order@.len() && is_living(
                entities@,
                (#[trigger] turn.initiative_order@[q])@,
            ) {
            let q = choose|q: int|
                0 <= q < turn.initiative_order@.len() && is_living(
                    entities@,
                    (#[trigger] turn.initiative_order@[q])@,
                );
            lemma_some_offset_reaches(*turn, q);
            let k = if q > start_slot(*turn) {
                q - start_slot(*turn)
            } else {
                q - start_slot(*turn) + n
            };
            assert(f(seq[k - 1]));
        }
    }
    unchanged
}

/// Whether an encounter is still being fought, or which team (if any) is
/// left standing.
#[derive(Debug, Clone)]
pub enum RpgEncounterOutcomeView {
    InProgress,
    Completed { winning_team_ids: Vec<String> },
}

pub open spec fn entity_living(e: RpgEntityState) -> bool {
    e.vitality.current > 0
}

/// Whether two living entities belong to different teams.
pub open spec fn teams_contested(entities: Seq<RpgEntityState>) -> bool {
    exists|i: int, j: int|
        0 <= i < entities.len() && 0 <= j < entities.len() && entity_living(#[trigger] entities[i])
            && entity_living(#[trigger] entities[j]) && entities[i].team_id@ != entities[j].team_id@
}

/// The encounter goes on while living entities of two or more teams remain;
/// otherwise it is completed and the winners are the teams of the living
/// (one team, or none when nobody lives).
pub fn encounter_outcome(entities: &Vec<RpgEntityState>) -> (r: RpgEncounterOutcomeView)
    ensures
        r is InProgress <==> teams_contested(entities@),
        r matches RpgEncounterOutcomeView::Completed { winning_team_ids } ==> {
            &&& (winning_team_ids@.len() == 0 <==> forall|i: int|
                0 <= i < entities@.len() ==> !entity_living(#[trigger] entities@[i]))
            &&& winning_team_ids@.len() <= 1
            &&& forall|i: int|
                0 <= i < entities@.len() && entity_living(#[trigger] entities@[i])
                    ==> winning_team_ids@[0]@ == entities@[i].team_id@
        },
{
    let mut first: Option<usize> = None;
    let mut i: usize = 0;
    while i < entities.len()
        invariant
            i <= entities@.len(),
            match first {
                None => forall|j: int| 0 <= j < i ==> !entity_living(#[trigger] entities@[j]),
                Some(f) => f < i && entity_living(entities@[f as int]) && forall|j: int|
                    0 <= j < i && entity_living(#[trigger] entities@[j]) ==> entities@[j].team_id@
                        == entities@[f as int].team_id@,
            },
        decreases entities.len() - i,
    {
        if entities[i].vitality.current > 0 {
            match first {
                None => {
                    first = Some(i);
                },
                Some(f) => {
                    if entities[i].team_id != entities[f].team_id {
                        assert(entity_living(entities@[f as int]) && entity_living(
                            entities@[i as int],
                        ));
                        return RpgEncounterOutcomeView::InProgress;
                    }
                },
            }
        }
        i = i + 1;
    }
    match first {
        None => RpgEncounterOutcomeView::Completed { winning_team_ids: Vec::new() },
        Some(f) => {
            let mut winners: Vec<String> = Vec::new();
            winners.push(entities[f].team_id.clone());
            RpgEncounterOutcomeView::Completed { winning_team_ids: winners }
        },
    }
}

/// A target that exists but has no positive vitality.
pub open spec fn inactive_target(entities: Seq<RpgEntityState>) -> spec_fn(String) -> bool {
    |id: String| entity_index(entities, id@) >= 0 && !is_living(entities, id@)
}

/// Why an intent involves someone who cannot act or be targeted: an actor
/// without positive vitality, or else the first existing target without it.
pub open spec fn living_intent_refusal(
    entities: Seq<RpgEntityState>,
    actor_id: Seq<char>,
    target_ids: Seq<String>,
) -> Option<(Seq<char>, Seq<char>, Seq<char>)> {
    let t = first_index_where(target_ids, inactive_target(entities));
    if !is_living(entities, actor_id) {
        Some(
            (
                "RPG_TURN_ACTOR_INACTIVE"@,
                "$.command.intent.actorId"@,
                "participant "@ + actor_id + " cannot act without positive vitality"@,
            ),
        )
    } else if t >= 0 {
        Some(
            (
                "RPG_INTENT_TARGET_INACTIVE"@,
                crate::text::indexed("$.command.intent.targetIds"@, t as nat, Seq::empty()),
                "participant "@ + target_ids[t]@ + " cannot be targeted without positive vitality"@,
            ),
        )
    } else {
        None
    }
}

/// Refuses an intent whose actor, or one of whose existing targets, has no
/// positive vitality.
pub fn living_intent_rejection(
    entities: &Vec<RpgEntityState>,
    actor_id: &String,
    target_ids: &Vec<String>,
) -> (r: Option<crate::model::RpgResolutionRejection>)
    ensures
        match r {
            None => living_intent_refusal(entities@, actor_id@, target_ids@) is None,
            Some(x) => living_intent_refusal(entities@, actor_id@, target_ids@) == Some(
                crate::model::rejection_text(x),
            ),
        },
{
    proof {
        reveal_strlit("");
    }
    if !participant_is_living(entities, actor_id) {
        return Some(
            crate::model::resolution_rejection(
                "RPG_TURN_ACTOR_INACTIVE",
                String::from_str("$.command.intent.actorId"),
                crate::text::join3(
                    "participant ",
                    actor_id.as_str(),
                    " cannot act without positive vitality",
                ),
            ),
        );
    }
    let ghost f = inactive_target(entities@);
    let mut t: usize = 0;
    while t < target_ids.len()
        invariant
            f == inactive_target(entities@),
            is_living(entities@, actor_id@),
            ""@ == Seq::<char>::empty(),
            t <= target_ids@.len(),
            forall|j: int| 0 <= j < t ==> !f(#[trigger] target_ids@[j]),
        decreases target_ids.len() - t,
    {
        let exists = find_entity(entities, &target_ids[t]).is_some();
        if exists && !participant_is_living(entities, &target_ids[t]) {
            proof {
                assert(f(target_ids@[t as int]));
                lemma_first_index_is(target_ids@, f, t as int);
            }
            return Some(
                crate::model::resolution_rejection(
                    "RPG_INTENT_TARGET_INACTIVE",
                    crate::text::indexed_path("$.command.intent.targetIds", t, ""),
                    crate::text::join3(
                        "participant ",
                        target_ids[t].as_str(),
                        " cannot be targeted without positive vitality",
                    ),
                ),
            );
        }
        t = t + 1;
    }
    proof {
        lemma_first_index_is(target_ids@, f, -1);
    }
    None
}

/// Whether an accepted resolution passes the turn on: only under rules
/// whose activation budgets are fixed, and only while the encounter is still
/// in progress after it.
pub fn turn_advances(variable_budgets: bool, entities: &Vec<RpgEntityState>) -> (b: bool)
    ensures
        b == (!variable_budgets && teams_contested(entities@)),
{
    if variable_budgets {
        return false;
    }
    match encounter_outcome(entities) {
        RpgEncounterOutcomeView::InProgress => true,
        _ => false,
    }
}

} // verus!
