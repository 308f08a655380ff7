use vstd::prelude::*;

use crate::board::{
    cell_blocks_position, cell_blocks_position_spec, position_in_board, position_in_board_spec,
    GridPosition, RpgBoardSetup,
};
use crate::model::{
    entity_index, find_entity, first_index_where, last_index_where, lemma_first_index_is,
    lemma_last_index_is, rejection_text, resolution_rejection, RpgCapabilityFacts, RpgEntityState,
    RpgResolutionRejection,
};
use crate::model::{RpgPortableNamedInteger, RpgTurnControl, RPG_END_TURN_CONTROL_ID};
use crate::scenario::{
    concat_upto, diagnostic_texts, one, only_if, DiagnosticText, RpgParticipantSetup, RpgScenario,
    RpgScenarioDiagnostic,
};
use crate::setup::{lists, participant_with_id};
use crate::text::{indexed, join, join3, text, texts};
use crate::turn::{is_living, teams_contested, RpgTurnState};
use vstd::string::StringExecFns;

verus! {

pub open spec fn entity_at(p: GridPosition) -> spec_fn(RpgEntityState) -> bool {
    |e: RpgEntityState| e.position == p
}

/// The latest earlier entity standing where entity `i` stands, or -1.
pub open spec fn earlier_occupant(entities: Seq<RpgEntityState>, i: int) -> int {
    last_index_where(entities.take(i), entity_at(entities[i].position))
}

pub open spec fn misplaced(board: &RpgBoardSetup, entities: Seq<RpgEntityState>) -> spec_fn(
    int,
) -> bool {
    |i: int|
        !position_in_board_spec(board, entities[i].position) || cell_blocks_position_spec(
            board,
            entities[i].position,
        ) || earlier_occupant(entities, i) >= 0
}

pub open spec fn indices(n: int) -> Seq<int> {
    Seq::new(n as nat, |i: int| i)
}

/// Why a resolved state does not fit its board, checking the entities in
/// order: the first entity outside the board, on an impassable cell, or on
/// the cell of an earlier entity.
pub open spec fn board_state_refusal(board: &RpgBoardSetup, entities: Seq<RpgEntityState>) -> Option<
    (Seq<char>, Seq<char>, Seq<char>),
> {
    let i = first_index_where(indices(entities.len() as int), misplaced(board, entities));
    if i < 0 {
        None
    } else {
        let e = entities[i];
        if !position_in_board_spec(board, e.position) {
            Some(
                (
                    "RPG_BOARD_POSITION_OUT_OF_BOUNDS"@,
                    "$.resolution.state.position"@,
                    "participant "@ + e.id@ + " moved outside the board extent"@,
                ),
            )
        } else if cell_blocks_position_spec(board, e.position) {
            Some(
                (
                    "RPG_BOARD_POSITION_BLOCKED"@,
                    "$.resolution.state.position"@,
                    "participant "@ + e.id@ + " moved onto an impassable cell"@,
                ),
            )
        } else {
            Some(
                (
                    "RPG_BOARD_POSITION_OCCUPIED"@,
                    "$.resolution.state.position"@,
                    "participants "@ + entities[earlier_occupant(entities, i)].id@ + " and "@ + e.id@
                        + " occupy the same cell"@,
                ),
            )
        }
    }
}

fn earlier_occupant_of(entities: &Vec<RpgEntityState>, i: usize) -> (r: Option<usize>)
    requires
        i < entities@.len(),
    ensures
        match r {
            Some(j) => j < i && j as int == earlier_occupant(entities@, i as int),
            None => earlier_occupant(entities@, i as int) == -1,
        },
{
    let ghost prefix = entities@.take(i as int);
    let ghost f = entity_at(entities@[i as int].position);
    let p = entities[i].position;
    let mut j = i;
    while j > 0
        invariant
            j <= i < entities@.len(),
            prefix == entities@.take(i as int),
            f == entity_at(p),
            p == entities@[i as int].position,
            forall|q: int| j <= q < i ==> !f(#[trigger] prefix[q]),
        decreases j,
    {
        if entities[j - 1].position == p {
            proof {
                assert(f(prefix[j - 1]));
                lemma_last_index_is(prefix, f, j - 1);
            }
            return Some(j - 1);
        }
        j = j - 1;
    }
    proof {
        lemma_last_index_is(prefix, f, -1);
    }
    None
}

/// Refuses a resolved state in which an entity stands outside the board, on
/// an impassable cell, or on the cell of an earlier entity (the first such
/// entity in the state's order decides).
pub fn runtime_board_rejection(board: &RpgBoardSetup, entities: &Vec<RpgEntityState>) -> (r: Option<
    RpgResolutionRejection,
>)
    ensures
        match r {
            None => board_state_refusal(board, entities@) is None,
            Some(x) => board_state_refusal(board, entities@) == Some(rejection_text(x)),
        },
{
    let ghost seq = indices(entities@.len() as int);
    let ghost f = misplaced(board, entities@);
    let mut i: usize = 0;
    while i < entities.len()
        invariant
            seq == indices(entities@.len() as int),
            f == misplaced(board, entities@),
            i <= entities@.len(),
            forall|q: int| 0 <= q < i ==> !f(#[trigger] seq[q]),
        decreases entities.len() - i,
    {
        let e = &entities[i];
        if !position_in_board(board, e.position) {
            proof {
                assert(f(seq[i as int]));
                lemma_first_index_is(seq, f, i as int);
            }
            return Some(
                resolution_rejection(
                    "RPG_BOARD_POSITION_OUT_OF_BOUNDS",
                    text("$.resolution.state.position"),
                    join3("participant ", e.id.as_str(), " moved outside the board extent"),
                ),
            );
        }
        if cell_blocks_position(board, e.position) {
            proof {
                assert(f(seq[i as int]));
                lemma_first_index_is(seq, f, i as int);
            }
            return Some(
                resolution_rejection(
                    "RPG_BOARD_POSITION_BLOCKED",
                    text("$.resolution.state.position"),
                    join3("participant ", e.id.as_str(), " moved onto an impassable cell"),
                ),
            );
        }
        match earlier_occupant_of(entities, i) {
            Some(j) => {
                proof {
                    assert(f(seq[i as int]));
                    lemma_first_index_is(seq, f, i as int);
                }
                let head = join3("participants ", entities[j].id.as_str(), " and ");
                return Some(
                    resolution_rejection(
                        "RPG_BOARD_POSITION_OCCUPIED",
                        text("$.resolution.state.position"),
                        join3(head.as_str(), e.id.as_str(), " occupy the same cell"),
                    ),
                );
            },
            None => {},
        }
        proof {
            assert(!f(seq[i as int]));
        }
        i = i + 1;
    }
    proof {
        lemma_first_index_is(seq, f, -1);
    }
    None
}

/// The item an action was bound to: the binding, the equipment slot, the
/// item definition and the carried instance.
#[derive(Debug, Clone)]
pub struct RpgIntentItemBinding {
    pub binding_id: String,
    pub slot_id: String,
    pub item_definition_id: String,
    pub item_instance_id: String,
}

/// What restore validation reads of one encounter log entry.
#[derive(Debug, Clone)]
pub struct RpgEncounterLogRecord {
    pub sequence: u64,
    pub state_revision: u64,
    pub actor_id: String,
    pub action_id: String,
    pub item_binding: Option<RpgIntentItemBinding>,
}

/// A ruleset activation budget and the amount each entity starts with.
#[derive(Debug, Clone)]
pub struct RpgActivationBudgetRule {
    pub id: String,
    pub initial_amount: i32,
}

/// How an action binds an item: the binding identity, the slots the item may
/// occupy and the item definitions the action accepts.
#[derive(Debug, Clone)]
pub struct RpgItemBindingRule {
    pub action_id: String,
    pub binding_id: String,
    pub slot_ids: Vec<String>,
    pub item_definition_ids: Vec<String>,
}

/// What restore validation reads of the compiled rules.
#[derive(Debug, Clone)]
pub struct RpgRestoreRules {
    pub activation_budgets: Vec<RpgActivationBudgetRule>,
    pub accepted_activation_ceiling: Option<u32>,
    pub item_bindings: Vec<RpgItemBindingRule>,
}

pub open spec fn participant_ids(ps: Seq<RpgParticipantSetup>) -> Set<Seq<char>> {
    Set::new(|s: Seq<char>| exists|i: int| 0 <= i < ps.len() && (#[trigger] ps[i]).id@ == s)
}

pub open spec fn entity_ids(es: Seq<RpgEntityState>) -> Set<Seq<char>> {
    Set::new(|s: Seq<char>| exists|i: int| 0 <= i < es.len() && (#[trigger] es[i]).id@ == s)
}

pub open spec fn opt_text(o: Option<String>) -> Option<Seq<char>> {
    match o {
        Some(s) => Some(s@),
        None => None,
    }
}

/// The entity keeps the class and character features the scenario selected.
pub open spec fn selection_matches(e: RpgEntityState, p: RpgParticipantSetup) -> bool {
    opt_text(e.class_definition_id) == opt_text(p.class_definition_id) && texts(
        e.character_feature_ids@,
    ) == texts(p.feature_definition_ids@)
}

pub open spec fn budget_with(id: Seq<char>) -> spec_fn(RpgPortableNamedInteger) -> bool {
    |b: RpgPortableNamedInteger| b.id@ == id
}

pub open spec fn rule_budget_ids(rules: &RpgRestoreRules) -> Set<Seq<char>> {
    Set::new(
        |s: Seq<char>|
            exists|k: int|
                0 <= k < rules.activation_budgets@.len() && (
                #[trigger] rules.activation_budgets@[k]).id@ == s,
    )
}

pub open spec fn entity_budget_ids(e: RpgEntityState) -> Set<Seq<char>> {
    Set::new(
        |s: Seq<char>|
            exists|k: int|
                0 <= k < e.activation_budgets@.len() && (#[trigger] e.activation_budgets@[k]).id@
                    == s,
    )
}

/// The entity holds ruleset budget `k` with an amount in `0..=initial`.
pub open spec fn budget_in_range(rules: &RpgRestoreRules, e: RpgEntityState, k: int) -> bool {
    let rule = rules.activation_budgets@[k];
    let j = first_index_where(e.activation_budgets@, budget_with(rule.id@));
    j >= 0 && 0 <= e.activation_budgets@[j].value <= rule.initial_amount
}

/// The entity holds exactly the ruleset's budgets, each within reach.
pub open spec fn budgets_consistent(rules: &RpgRestoreRules, e: RpgEntityState) -> bool {
    &&& rule_budget_ids(rules) == entity_budget_ids(e)
    &&& forall|k: int|
        0 <= k < rules.activation_budgets@.len() ==> #[trigger] budget_in_range(rules, e, k)
}

/// What restore validation finds about the entity of scenario participant `i`.
pub open spec fn entity_restore_diagnostics(
    scenario: &RpgScenario,
    state: &RpgCapabilityFacts,
    rules: &RpgRestoreRules,
    i: int,
) -> Seq<DiagnosticText> {
    let p = scenario.participants@[i];
    let x = entity_index(state.entities@, p.id@);
    if x < 0 {
        Seq::empty()
    } else {
        let e = state.entities@[x];
        only_if(
            !selection_matches(e, p),
            one(
                "RPG_CHECKPOINT_CHARACTER_SELECTION_MISMATCH"@,
                indexed("$.state.entities"@, i as nat, Seq::empty()),
                "checkpoint class and character-feature selection must match the scenario binding"@,
            ),
        ) + only_if(
            !budgets_consistent(rules, e),
            one(
                "RPG_CHECKPOINT_ACTIVATION_BUDGET_INVALID"@,
                indexed("$.state.entities"@, i as nat, ".activationBudgets"@),
                "checkpoint activation budgets must exactly match the Ruleset and remain within their reachable range"@,
            ),
        )
    }
}

pub open spec fn activation_count_valid(rules: &RpgRestoreRules, state: &RpgCapabilityFacts) -> bool {
    match rules.accepted_activation_ceiling {
        None => state.accepted_activations_this_turn == 0,
        Some(c) => state.accepted_activations_this_turn <= c,
    }
}

/// The restored turn names a scenario participant, has positive counters,
/// and, while the encounter goes on, a living current actor.
pub open spec fn restored_turn_valid(
    scenario: &RpgScenario,
    turn: &RpgTurnState,
    state: &RpgCapabilityFacts,
) -> bool {
    &&& participant_ids(scenario.participants@).contains(turn.current_actor_id@)
    &&& turn.round != 0
    &&& turn.turn != 0
    &&& teams_contested(state.entities@) ==> is_living(state.entities@, turn.current_actor_id@)
}

pub open spec fn board_state_diagnostics(board: &RpgBoardSetup, state: &RpgCapabilityFacts) -> Seq<
    DiagnosticText,
> {
    match board_state_refusal(board, state.entities@) {
        None => Seq::empty(),
        Some((code, path, message)) => one(
            "RPG_CHECKPOINT_BOARD_STATE_INVALID"@,
            path,
            code + ": "@ + message,
        ),
    }
}

/// The acting participant owns the logged action (or ended its turn).
pub open spec fn action_owned(scenario: &RpgScenario, entry: RpgEncounterLogRecord) -> bool {
    let d = last_index_where(scenario.participants@, participant_with_id(entry.actor_id@));
    d >= 0 && (entry.action_id@ == RPG_END_TURN_CONTROL_ID@ || lists(
        scenario.participants@[d].definition_ids@,
        entry.action_id@,
    ))
}

pub open spec fn rule_for(action_id: Seq<char>) -> spec_fn(RpgItemBindingRule) -> bool {
    |r: RpgItemBindingRule| r.action_id@ == action_id
}

pub open spec fn carries(p: RpgParticipantSetup, b: RpgIntentItemBinding) -> bool {
    exists|k: int|
        0 <= k < p.items@.len() && (#[trigger] p.items@[k]).id@ == b.item_instance_id@
            && p.items@[k].definition_id@ == b.item_definition_id@
}

pub open spec fn equips(p: RpgParticipantSetup, b: RpgIntentItemBinding) -> bool {
    exists|k: int|
        0 <= k < p.equipment@.len() && (#[trigger] p.equipment@[k]).slot_id@ == b.slot_id@
            && p.equipment@[k].item_instance_id@ == b.item_instance_id@
}

/// A logged item binding is present exactly when the action requires one,
/// and then names the required binding, an allowed slot and an accepted item
/// definition that the actor carries in that slot.
pub open spec fn item_binding_valid(
    scenario: &RpgScenario,
    rules: &RpgRestoreRules,
    entry: RpgEncounterLogRecord,
) -> bool {
    let r = first_index_where(rules.item_bindings@, rule_for(entry.action_id@));
    match entry.item_binding {
        None => r < 0,
        Some(b) => r >= 0 && {
            let req = rules.item_bindings@[r];
            let p = first_index_where(scenario.participants@, participant_with_id(entry.actor_id@));
            &&& b.binding_id@ == req.binding_id@
            &&& lists(req.slot_ids@, b.slot_id@)
            &&& lists(req.item_definition_ids@, b.item_definition_id@)
            &&& p >= 0
            &&& carries(scenario.participants@[p], b)
            &&& equips(scenario.participants@[p], b)
        },
    }
}

/// Log entry `k` is the `k + 1`-th, names a reached positive revision, an
/// owned action and a valid item binding.
pub open spec fn log_entry_valid(
    scenario: &RpgScenario,
    state: &RpgCapabilityFacts,
    rules: &RpgRestoreRules,
    log: Seq<RpgEncounterLogRecord>,
    k: int,
) -> bool {
    let entry = log[k];
    &&& entry.sequence == (if k + 1 > u64::MAX {
        u64::MAX as int
    } else {
        k + 1
    })
    &&& entry.state_revision != 0
    &&& entry.state_revision <= state.revision
    &&& action_owned(scenario, entry)
    &&& item_binding_valid(scenario, rules, entry)
}

/// Every finding about a restored encounter, in report order.
pub open spec fn restored_encounter_diagnostics(
    scenario: &RpgScenario,
    turn: &RpgTurnState,
    log: Seq<RpgEncounterLogRecord>,
    state: &RpgCapabilityFacts,
    rules: &RpgRestoreRules,
) -> Seq<DiagnosticText> {
    only_if(
        participant_ids(scenario.participants@) != entity_ids(state.entities@),
        one(
            "RPG_CHECKPOINT_PARTICIPANT_SET_MISMATCH"@,
            "$.state.entities"@,
            "checkpoint state must contain exactly the scenario participants"@,
        ),
    ) + concat_upto(
        scenario.participants@.len() as int,
        |i: int| entity_restore_diagnostics(scenario, state, rules, i),
    ) + only_if(
        !activation_count_valid(rules, state),
        one(
            "RPG_CHECKPOINT_ACTIVATION_COUNT_INVALID"@,
            "$.state.acceptedActivationsThisTurn"@,
            "checkpoint accepted activation count is incompatible with the Ruleset ceiling"@,
        ),
    ) + only_if(
        texts(turn.initiative_order@) != texts(scenario.turn.initiative_order@),
        one(
            "RPG_CHECKPOINT_TURN_ORDER_MISMATCH"@,
            "$.turn.initiativeOrder"@,
            "checkpoint initiative order must match the scenario binding"@,
        ),
    ) + only_if(
        !restored_turn_valid(scenario, turn, state),
        one(
            "RPG_CHECKPOINT_TURN_STATE_INVALID"@,
            "$.turn"@,
            "checkpoint turn state must identify an active scenario participant with positive counters"@,
        ),
    ) + board_state_diagnostics(&scenario.board, state) + concat_upto(
        log.len() as int,
        |k: int|
            only_if(
                !log_entry_valid(scenario, state, rules, log, k),
                one(
                    "RPG_CHECKPOINT_LOG_INVALID"@,
                    indexed("$.log"@, k as nat, Seq::empty()),
                    "checkpoint log sequence, revision, actor, or action is invalid"@,
                ),
            ),
    )
}

fn participant_listed(ps: &Vec<RpgParticipantSetup>, id: &String) -> (b: bool)
    ensures
        b == participant_ids(ps@).contains(id@),
{
    let mut i: usize = 0;
    while i < ps.len()
        invariant
            i <= ps@.len(),
            forall|q: int| 0 <= q < i ==> (#[trigger] ps@[q]).id@ != id@,
        decreases ps.len() - i,
    {
        if ps[i].id == *id {
            assert(participant_ids(ps@).contains(id@));
            return true;
        }
        i = i + 1;
    }
    false
}

fn same_participant_ids(ps: &Vec<RpgParticipantSetup>, es: &Vec<RpgEntityState>) -> (b: bool)
    ensures
        b == (participant_ids(ps@) == entity_ids(es@)),
{
    let mut i: usize = 0;
    while i < ps.len()
        invariant
            i <= ps@.len(),
            forall|q: int| 0 <= q < i ==> entity_ids(es@).contains(#[trigger] ps@[q].id@),
        decreases ps.len() - i,
    {
        match find_entity(es, &ps[i].id) {
            None => {
                proof {
                    crate::model::lemma_entity_index(es@, ps@[i as int].id@);
                    assert(participant_ids(ps@).contains(ps@[i as int].id@));
                    assert(!entity_ids(es@).contains(ps@[i as int].id@));
                }
                return false;
            },
            Some(x) => {
                assert(entity_ids(es@).contains(es@[x as int].id@));
            },
        }
        i = i + 1;
    }
    let mut j: usize = 0;
    while j < es.len()
        invariant
            j <= es@.len(),
            forall|q: int| 0 <= q < j ==> participant_ids(ps@).contains(#[trigger] es@[q].id@),
        decreases es.len() - j,
    {
        if !participant_listed(ps, &es[j].id) {
            assert(entity_ids(es@).contains(es@[j as int].id@));
            return false;
        }
        j = j + 1;
    }
    assert forall|s: Seq<char>| participant_ids(ps@).contains(s) implies entity_ids(es@).contains(s) by {
        let q = choose|q: int| 0 <= q < ps@.len() && (#[trigger] ps@[q]).id@ == s;
        assert(entity_ids(es@).contains(ps@[q].id@));
    }
    assert forall|s: Seq<char>| entity_ids(es@).contains(s) implies participant_ids(ps@).contains(s) by {
        let q = choose|q: int| 0 <= q < es@.len() && (#[trigger] es@[q]).id@ == s;
        assert(participant_ids(ps@).contains(es@[q].id@));
    }
    assert(participant_ids(ps@) =~= entity_ids(es@));
    true
}

fn same_option_text(a: &Option<String>, b: &Option<String>) -> (r: bool)
    ensures
        r == (opt_text(*a) == opt_text(*b)),
{
    match (a, b) {
        (Some(x), Some(y)) => *x == *y,
        (None, None) => true,
        _ => false,
    }
}

fn first_budget(e: &RpgEntityState, id: &String) -> (r: Option<usize>)
    ensures
        match r {
            Some(j) => j < e.activation_budgets@.len() && j as int == first_index_where(
                e.activation_budgets@,
                budget_with(id@),
            ),
            None => first_index_where(e.activation_budgets@, budget_with(id@)) == -1,
        },
{
    let bs = &e.activation_budgets;
    let mut j: usize = 0;
    while j < bs.len()
        invariant
            bs@ == e.activation_budgets@,
            j <= bs@.len(),
            forall|q: int| 0 <= q < j ==> !budget_with(id@)(#[trigger] bs@[q]),
        decreases bs.len() - j,
    {
        if bs[j].id == *id {
            proof {
                lemma_first_index_is(bs@, budget_with(id@), j as int);
            }
            return Some(j);
        }
        j = j + 1;
    }
    proof {
        lemma_first_index_is(bs@, budget_with(id@), -1);
    }
    None
}

fn rule_budget_listed(rules: &RpgRestoreRules, id: &String) -> (b: bool)
    ensures
        b == rule_budget_ids(rules).contains(id@),
{
    let rs = &rules.activation_budgets;
    let mut k: usize = 0;
    while k < rs.len()
        invariant
            rs@ == rules.activation_budgets@,
            k <= rs@.len(),
            forall|q: int| 0 <= q < k ==> (#[trigger] rs@[q]).id@ != id@,
        decreases rs.len() - k,
    {
        if rs[k].id == *id {
            assert(rule_budget_ids(rules).contains(id@));
            return true;
        }
        k = k + 1;
    }
    false
}

fn budgets_consistent_exec(rules: &RpgRestoreRules, e: &RpgEntityState) -> (b: bool)
    ensures
        b == budgets_consistent(rules, *e),
{
    let rs = &rules.activation_budgets;
    let mut k: usize = 0;
    while k < rs.len()
        invariant
            rs@ == rules.activation_budgets@,
            k <= rs@.len(),
            forall|q: int| 0 <= q < k ==> #[trigger] budget_in_range(rules, *e, q),
            forall|q: int| 0 <= q < k ==> entity_budget_ids(*e).contains(#[trigger] rs@[q].id@),
        decreases rs.len() - k,
    {
        match first_budget(e, &rs[k].id) {
            None => {
                proof {
                    assert(!budget_in_range(rules, *e, k as int));
                }
                return false;
            },
            Some(j) => {
                let v = e.activation_budgets[j].value;
                if v < 0 || v > rs[k].initial_amount {
                    proof {
                        assert(!budget_in_range(rules, *e, k as int));
                    }
                    return false;
                }
                proof {
                    crate::model::lemma_first_index_where(
                        e.activation_budgets@,
                        budget_with(rs@[k as int].id@),
                    );
                    assert(entity_budget_ids(*e).contains(e.activation_budgets@[j as int].id@));
                }
            },
        }
        k = k + 1;
    }
    let bs = &e.activation_budgets;
    let mut j: usize = 0;
    while j < bs.len()
        invariant
            bs@ == e.activation_budgets@,
            j <= bs@.len(),
            forall|q: int| 0 <= q < j ==> rule_budget_ids(rules).contains(#[trigger] bs@[q].id@),
        decreases bs.len() - j,
    {
        if !rule_budget_listed(rules, &bs[j].id) {
            assert(entity_budget_ids(*e).contains(bs@[j as int].id@));
            return false;
        }
        j = j + 1;
    }
    assert forall|s: Seq<char>| rule_budget_ids(rules).contains(s) implies entity_budget_ids(
        *e,
    ).contains(s) by {
        let q = choose|q: int|
            0 <= q < rules.activation_budgets@.len() && (
            #[trigger] rules.activation_budgets@[q]).id@ == s;
        assert(entity_budget_ids(*e).contains(rs@[q].id@));
    }
    assert forall|s: Seq<char>| entity_budget_ids(*e).contains(s) implies rule_budget_ids(
        rules,
    ).contains(s) by {
        let q = choose|q: int|
            0 <= q < e.activation_budgets@.len() && (#[trigger] e.activation_budgets@[q]).id@ == s;
        assert(rule_budget_ids(rules).contains(bs@[q].id@));
    }
    assert(rule_budget_ids(rules) =~= entity_budget_ids(*e));
    true
}

fn entity_restore_findings(
    scenario: &RpgScenario,
    state: &RpgCapabilityFacts,
    rules: &RpgRestoreRules,
    i: usize,
) -> (out: Vec<RpgScenarioDiagnostic>)
    requires
        i < scenario.participants@.len(),
    ensures
        diagnostic_texts(out@) == entity_restore_diagnostics(scenario, state, rules, i as int),
{
    proof {
        reveal_strlit("");
    }
    let p = &scenario.participants[i];
    let mut out: Vec<RpgScenarioDiagnostic> = Vec::new();
    match find_entity(&state.entities, &p.id) {
        None => {},
        Some(x) => {
            let e = &state.entities[x];
            if !same_option_text(&e.class_definition_id, &p.class_definition_id)
                || !crate::text::same_texts(&e.character_feature_ids, &p.feature_definition_ids) {
                out.push(
                    crate::scenario::scenario_diagnostic(
                        "RPG_CHECKPOINT_CHARACTER_SELECTION_MISMATCH",
                        crate::text::indexed_path("$.state.entities", i, ""),
                        text(
                            "checkpoint class and character-feature selection must match the scenario binding",
                        ),
                    ),
                );
            }
            if !budgets_consistent_exec(rules, e) {
                out.push(
                    crate::scenario::scenario_diagnostic(
                        "RPG_CHECKPOINT_ACTIVATION_BUDGET_INVALID",
                        crate::text::indexed_path("$.state.entities", i, ".activationBudgets"),
                        text(
                            "checkpoint activation budgets must exactly match the Ruleset and remain within their reachable range",
                        ),
                    ),
                );
            }
        },
    }
    assert(diagnostic_texts(out@) =~= entity_restore_diagnostics(scenario, state, rules, i as int));
    out
}

fn last_participant_with(ps: &Vec<RpgParticipantSetup>, id: &String) -> (r: Option<usize>)
    ensures
        match r {
            Some(d) => d < ps@.len() && d as int == last_index_where(ps@, participant_with_id(id@)),
            None => last_index_where(ps@, participant_with_id(id@)) == -1,
        },
{
    let mut d = ps.len();
    while d > 0
        invariant
            d <= ps@.len(),
            forall|q: int| d <= q < ps@.len() ==> !participant_with_id(id@)(#[trigger] ps@[q]),
        decreases d,
    {
        if ps[d - 1].id == *id {
            proof {
                lemma_last_index_is(ps@, participant_with_id(id@), d - 1);
            }
            return Some(d - 1);
        }
        d = d - 1;
    }
    proof {
        lemma_last_index_is(ps@, participant_with_id(id@), -1);
    }
    None
}

pub(crate) fn first_participant_with(ps: &Vec<RpgParticipantSetup>, id: &String) -> (r: Option<usize>)
    ensures
        match r {
            Some(d) => d < ps@.len() && d as int == first_index_where(ps@, participant_with_id(id@)),
            None => first_index_where(ps@, participant_with_id(id@)) == -1,
        },
{
    let mut d: usize = 0;
    while d < ps.len()
        invariant
            d <= ps@.len(),
            forall|q: int| 0 <= q < d ==> !participant_with_id(id@)(#[trigger] ps@[q]),
        decreases ps.len() - d,
    {
        if ps[d].id == *id {
            proof {
                lemma_first_index_is(ps@, participant_with_id(id@), d as int);
            }
            return Some(d);
        }
        d = d + 1;
    }
    proof {
        lemma_first_index_is(ps@, participant_with_id(id@), -1);
    }
    None
}

fn action_owned_exec(scenario: &RpgScenario, entry: &RpgEncounterLogRecord) -> (b: bool)
    ensures
        b == action_owned(scenario, *entry),
{
    match last_participant_with(&scenario.participants, &entry.actor_id) {
        None => false,
        Some(d) => entry.action_id == text(RPG_END_TURN_CONTROL_ID) || crate::text::contains_text(
            &scenario.participants[d].definition_ids,
            &entry.action_id,
        ),
    }
}

fn binding_rule_of(rules: &RpgRestoreRules, action_id: &String) -> (r: Option<usize>)
    ensures
        match r {
            Some(k) => k < rules.item_bindings@.len() && k as int == first_index_where(
                rules.item_bindings@,
                rule_for(action_id@),
            ),
            None => first_index_where(rules.item_bindings@, rule_for(action_id@)) == -1,
        },
{
    let rs = &rules.item_bindings;
    let mut k: usize = 0;
    while k < rs.len()
        invariant
            rs@ == rules.item_bindings@,
            k <= rs@.len(),
            forall|q: int| 0 <= q < k ==> !rule_for(action_id@)(#[trigger] rs@[q]),
        decreases rs.len() - k,
    {
        if rs[k].action_id == *action_id {
            proof {
                lemma_first_index_is(rs@, rule_for(action_id@), k as int);
            }
            return Some(k);
        }
        k = k + 1;
    }
    proof {
        lemma_first_index_is(rs@, rule_for(action_id@), -1);
    }
    None
}

fn carries_exec(p: &RpgParticipantSetup, b: &RpgIntentItemBinding) -> (r: bool)
    ensures
        r == carries(*p, *b),
{
    let mut k: usize = 0;
    while k < p.items.len()
        invariant
            k <= p.items@.len(),
            forall|q: int|
                0 <= q < k ==> !((#[trigger] p.items@[q]).id@ == b.item_instance_id@
                    && p.items@[q].definition_id@ == b.item_definition_id@),
        decreases p.items.len() - k,
    {
        if p.items[k].id == b.item_instance_id && p.items[k].definition_id == b.item_definition_id {
            return true;
        }
        k = k + 1;
    }
    false
}

fn equips_exec(p: &RpgParticipantSetup, b: &RpgIntentItemBinding) -> (r: bool)
    ensures
        r == equips(*p, *b),
{
    let mut k: usize = 0;
    while k < p.equipment.len()
        invariant
            k <= p.equipment@.len(),
            forall|q: int|
                0 <= q < k ==> !((#[trigger] p.equipment@[q]).slot_id@ == b.slot_id@
                    && p.equipment@[q].item_instance_id@ == b.item_instance_id@),
        decreases p.equipment.len() - k,
    {
        if p.equipment[k].slot_id == b.slot_id && p.equipment[k].item_instance_id
            == b.item_instance_id {
            return true;
        }
        k = k + 1;
    }
    false
}

fn item_binding_valid_exec(
    scenario: &RpgScenario,
    rules: &RpgRestoreRules,
    entry: &RpgEncounterLogRecord,
) -> (r: bool)
    ensures
        r == item_binding_valid(scenario, rules, *entry),
{
    let rule = binding_rule_of(rules, &entry.action_id);
    match &entry.item_binding {
        None => rule.is_none(),
        Some(b) => match rule {
            None => false,
            Some(k) => {
                let req = &rules.item_bindings[k];
                if b.binding_id != req.binding_id || !crate::text::contains_text(
                    &req.slot_ids,
                    &b.slot_id,
                ) || !crate::text::contains_text(&req.item_definition_ids, &b.item_definition_id) {
                    return false;
                }
                match first_participant_with(&scenario.participants, &entry.actor_id) {
                    None => false,
                    Some(d) => carries_exec(&scenario.participants[d], b) && equips_exec(
                        &scenario.participants[d],
                        b,
                    ),
                }
            },
        },
    }
}

fn push_restore_finding(out: &mut Vec<RpgScenarioDiagnostic>, code: &str, path: String, message: String)
    ensures
        diagnostic_texts(final(out)@) == diagnostic_texts(old(out)@) + one(code@, path@, message@),
{
    let ghost before = out@;
    out.push(crate::scenario::scenario_diagnostic(code, path, message));
    assert(diagnostic_texts(out@) =~= diagnostic_texts(before) + one(code@, path@, message@));
}

fn append_restore_findings(out: &mut Vec<RpgScenarioDiagnostic>, more: Vec<RpgScenarioDiagnostic>)
    ensures
        diagnostic_texts(final(out)@) == diagnostic_texts(old(out)@) + diagnostic_texts(more@),
{
    let mut more = more;
    let ghost a = out@;
    let ghost b = more@;
    out.append(&mut more);
    assert(diagnostic_texts(out@) =~= diagnostic_texts(a) + diagnostic_texts(b));
}

/// Validates a restored encounter against its scenario binding and rules:
/// the state holds exactly the scenario participants with their character
/// selections and activation budgets, the activation count and the turn are
/// consistent, the positions fit the board, and every log entry is in
/// sequence with an owned action and a valid item binding. Returns every
/// finding, in report order.
pub fn validate_restored_encounter(
    scenario: &RpgScenario,
    turn: &RpgTurnState,
    log: &Vec<RpgEncounterLogRecord>,
    state: &RpgCapabilityFacts,
    rules: &RpgRestoreRules,
) -> (out: Vec<RpgScenarioDiagnostic>)
    ensures
        diagnostic_texts(out@) == restored_encounter_diagnostics(scenario, turn, log@, state, rules),
{
    proof {
        reveal_strlit("");
    }
    let mut out: Vec<RpgScenarioDiagnostic> = Vec::new();
    if !same_participant_ids(&scenario.participants, &state.entities) {
        push_restore_finding(
            &mut out,
            "RPG_CHECKPOINT_PARTICIPANT_SET_MISMATCH",
            text("$.state.entities"),
            text("checkpoint state must contain exactly the scenario participants"),
        );
    }
    let ghost head = diagnostic_texts(out@);
    let ghost f = |i: int| entity_restore_diagnostics(scenario, state, rules, i);
    let mut i: usize = 0;
    while i < scenario.participants.len()
        invariant
            f == (|i: int| entity_restore_diagnostics(scenario, state, rules, i)),
            i <= scenario.participants@.len(),
            diagnostic_texts(out@) == head + concat_upto(i as int, f),
        decreases scenario.participants.len() - i,
    {
        append_restore_findings(&mut out, entity_restore_findings(scenario, state, rules, i));
        proof {
            assert(head + concat_upto(i + 1, f) =~= head + concat_upto(i as int, f) + f(i as int));
        }
        i = i + 1;
    }
    let count_valid = match rules.accepted_activation_ceiling {
        None => state.accepted_activations_this_turn == 0,
        Some(c) => state.accepted_activations_this_turn <= c,
    };
    if !count_valid {
        push_restore_finding(
            &mut out,
            "RPG_CHECKPOINT_ACTIVATION_COUNT_INVALID",
            text("$.state.acceptedActivationsThisTurn"),
            text("checkpoint accepted activation count is incompatible with the Ruleset ceiling"),
        );
    }
    if !crate::text::same_texts(&turn.initiative_order, &scenario.turn.initiative_order) {
        push_restore_finding(
            &mut out,
            "RPG_CHECKPOINT_TURN_ORDER_MISMATCH",
            text("$.turn.initiativeOrder"),
            text("checkpoint initiative order must match the scenario binding"),
        );
    }
    let in_progress = match crate::turn::encounter_outcome(&state.entities) {
        crate::turn::RpgEncounterOutcomeView::InProgress => true,
        _ => false,
    };
    let current_active = crate::turn::participant_is_living(&state.entities, &turn.current_actor_id);
    if !participant_listed(&scenario.participants, &turn.current_actor_id) || turn.round == 0
        || turn.turn == 0 || (in_progress && !current_active) {
        push_restore_finding(
            &mut out,
            "RPG_CHECKPOINT_TURN_STATE_INVALID",
            text("$.turn"),
            text(
                "checkpoint turn state must identify an active scenario participant with positive counters",
            ),
        );
    }
    match runtime_board_rejection(&scenario.board, &state.entities) {
        None => {},
        Some(rejection) => {
            let head = join(rejection.code.as_str(), ": ");
            push_restore_finding(
                &mut out,
                "RPG_CHECKPOINT_BOARD_STATE_INVALID",
                rejection.path,
                join(head.as_str(), rejection.message.as_str()),
            );
        },
    }
    let ghost head2 = diagnostic_texts(out@);
    let ghost g = |k: int|
        only_if(
            !log_entry_valid(scenario, state, rules, log@, k),
            one(
                "RPG_CHECKPOINT_LOG_INVALID"@,
                indexed("$.log"@, k as nat, Seq::empty()),
                "checkpoint log sequence, revision, actor, or action is invalid"@,
            ),
        );
    let mut k: usize = 0;
    while k < log.len()
        invariant
            g == (|k: int|
                only_if(
                    !log_entry_valid(scenario, state, rules, log@, k),
                    one(
                        "RPG_CHECKPOINT_LOG_INVALID"@,
                        indexed("$.log"@, k as nat, Seq::empty()),
                        "checkpoint log sequence, revision, actor, or action is invalid"@,
                    ),
                )),
            ""@ == Seq::<char>::empty(),
            k <= log@.len(),
            diagnostic_texts(out@) == head2 + concat_upto(k as int, g),
        decreases log.len() - k,
    {
        let entry = &log[k];
        let expected = (k as u64).saturating_add(1);
        let valid = entry.sequence == expected && entry.state_revision != 0 && entry.state_revision
            <= state.revision && action_owned_exec(scenario, entry) && item_binding_valid_exec(
            scenario,
            rules,
            entry,
        );
        let ghost before = diagnostic_texts(out@);
        if !valid {
            push_restore_finding(
                &mut out,
                "RPG_CHECKPOINT_LOG_INVALID",
                crate::text::indexed_path("$.log", k, ""),
                text("checkpoint log sequence, revision, actor, or action is invalid"),
            );
        }
        proof {
            assert(valid == log_entry_valid(scenario, state, rules, log@, k as int));
            assert(diagnostic_texts(out@) =~= before + g(k as int));
            assert(head2 + concat_upto(k + 1, g) =~= head2 + concat_upto(k as int, g) + g(k as int));
        }
        k = k + 1;
    }
    assert(diagnostic_texts(out@) =~= restored_encounter_diagnostics(scenario, turn, log@, state, rules));
    out
}

/// The sequence number the log entry at position `k` carries.
pub open spec fn log_sequence(k: int) -> int {
    if k + 1 > u64::MAX {
        u64::MAX as int
    } else {
        k + 1
    }
}

/// Every entry of the log carries its position's sequence number.
pub open spec fn log_in_sequence(log: Seq<RpgEncounterLogRecord>) -> bool {
    forall|k: int| 0 <= k < log.len() ==> (#[trigger] log[k]).sequence == log_sequence(k)
}

/// Appends the log entry of an accepted command, numbered after the entries
/// already logged (saturating); a log in sequence stays in sequence.
pub fn record(
    log: &mut Vec<RpgEncounterLogRecord>,
    state_revision: u64,
    actor_id: String,
    action_id: String,
    item_binding: Option<RpgIntentItemBinding>,
)
    ensures
        final(log)@.len() == old(log)@.len() + 1,
        final(log)@.take(old(log)@.len() as int) == old(log)@,
        final(log)@.last().sequence == log_sequence(old(log)@.len() as int),
        final(log)@.last().state_revision == state_revision,
        final(log)@.last().actor_id@ == actor_id@,
        final(log)@.last().action_id@ == action_id@,
        final(log)@.last().item_binding == item_binding,
        log_in_sequence(old(log)@) ==> log_in_sequence(final(log)@),
{
    let sequence = (log.len() as u64).saturating_add(1);
    let ghost before = log@;
    log.push(
        RpgEncounterLogRecord { sequence, state_revision, actor_id, action_id, item_binding },
    );
    assert(log@.take(before.len() as int) =~= before);
    assert forall|k: int| 0 <= k < log@.len() && log_in_sequence(before) implies (
    #[trigger] log@[k]).sequence == log_sequence(k) by {
        if k < before.len() {
            assert(log@[k] == before[k]);
        }
    }
}

/// Appends the log entry of an accepted turn control, logged under the
/// control's portable identifier with no item binding.
pub fn record_control(
    log: &mut Vec<RpgEncounterLogRecord>,
    state_revision: u64,
    actor_id: String,
    control: RpgTurnControl,
)
    ensures
        final(log)@.len() == old(log)@.len() + 1,
        final(log)@.take(old(log)@.len() as int) == old(log)@,
        final(log)@.last().sequence == log_sequence(old(log)@.len() as int),
        final(log)@.last().state_revision == state_revision,
        final(log)@.last().actor_id@ == actor_id@,
        final(log)@.last().action_id@ == RPG_END_TURN_CONTROL_ID@,
        final(log)@.last().item_binding is None,
        log_in_sequence(old(log)@) ==> log_in_sequence(final(log)@),
{
    record(log, state_revision, actor_id, text(control.id()), None);
}

} // verus!
