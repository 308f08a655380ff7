use vstd::prelude::*;

use crate::board::{
    cell_blocks_position, cell_blocks_position_spec, position_in_board, position_in_board_spec,
    GridPosition,
};
use crate::model::{
    first_index_where, last_index_where, lemma_first_index_is, lemma_last_index_is, BoundedValue,
};
use crate::scenario::{
    concat_upto, definition_with_id, diagnostic_texts, one, only_if, DiagnosticText,
    RpgDefinitionKind, RpgDefinitionVisibility, RpgInitialCapability,
    RpgParticipantSetup, RpgRandomSourceBinding, RpgScenario, RpgScenarioCatalog,
    RpgScenarioDiagnostic, RpgTurnInitialization,
};
use crate::text::{
    blank, contains_text, indexed, indexed_path, is_blank, join, join3, text,
};

verus! {

fn push_finding(out: &mut Vec<RpgScenarioDiagnostic>, code: &str, path: String, message: String)
    ensures
        diagnostic_texts(final(out)@) == diagnostic_texts(old(out)@) + one(code@, path@, message@),
{
    let ghost before = out@;
    out.push(crate::scenario::scenario_diagnostic(code, path, message));
    assert(diagnostic_texts(out@) =~= diagnostic_texts(before) + one(code@, path@, message@));
}

fn append_findings(out: &mut Vec<RpgScenarioDiagnostic>, more: Vec<RpgScenarioDiagnostic>)
    ensures
        diagnostic_texts(final(out)@) == diagnostic_texts(old(out)@) + diagnostic_texts(more@),
{
    let mut more = more;
    let ghost a = out@;
    let ghost b = more@;
    out.append(&mut more);
    assert(diagnostic_texts(out@) =~= diagnostic_texts(a) + diagnostic_texts(b));
}

// ---------------------------------------------------------------------------
// Random source binding
// ---------------------------------------------------------------------------

/// Findings about the random policy and source binding.
pub open spec fn binding_diagnostics(binding: &RpgRandomSourceBinding) -> Seq<DiagnosticText> {
    only_if(
        is_blank(binding.policy_id@),
        one(
            "RPG_SCENARIO_RANDOM_ID_EMPTY"@,
            "$.randomSource.policyId"@,
            "random source identity must not be empty"@,
        ),
    ) + only_if(
        is_blank(binding.source_id@),
        one(
            "RPG_SCENARIO_RANDOM_ID_EMPTY"@,
            "$.randomSource.sourceId"@,
            "random source identity must not be empty"@,
        ),
    ) + only_if(
        binding.policy_version == 0 || binding.source_version == 0,
        one(
            "RPG_SCENARIO_RANDOM_VERSION_INVALID"@,
            "$.randomSource"@,
            "random policy and source versions must be positive"@,
        ),
    )
}

/// Validates the random source binding: non-blank identities, positive versions.
pub fn validate_binding(binding: &RpgRandomSourceBinding) -> (out: Vec<RpgScenarioDiagnostic>)
    ensures
        diagnostic_texts(out@) == binding_diagnostics(binding),
{
    let mut out: Vec<RpgScenarioDiagnostic> = Vec::new();
    if blank(binding.policy_id.as_str()) {
        push_finding(
            &mut out,
            "RPG_SCENARIO_RANDOM_ID_EMPTY",
            text("$.randomSource.policyId"),
            text("random source identity must not be empty"),
        );
    }
    if blank(binding.source_id.as_str()) {
        push_finding(
            &mut out,
            "RPG_SCENARIO_RANDOM_ID_EMPTY",
            text("$.randomSource.sourceId"),
            text("random source identity must not be empty"),
        );
    }
    if binding.policy_version == 0 || binding.source_version == 0 {
        push_finding(
            &mut out,
            "RPG_SCENARIO_RANDOM_VERSION_INVALID",
            text("$.randomSource"),
            text("random policy and source versions must be positive"),
        );
    }
    assert(diagnostic_texts(out@) =~= binding_diagnostics(binding));
    out
}

// ---------------------------------------------------------------------------
// Turn initialisation
// ---------------------------------------------------------------------------

/// A participant identity of the scenario (blank identities are not identities).
pub open spec fn is_participant_id(scenario: &RpgScenario, id: Seq<char>) -> bool {
    exists|p: int|
        0 <= p < scenario.participants@.len() && !is_blank(
            (#[trigger] scenario.participants@[p]).id@,
        ) && scenario.participants@[p].id@ == id
}

pub open spec fn in_initiative(turn: &RpgTurnInitialization, id: Seq<char>) -> bool {
    exists|o: int| 0 <= o < turn.initiative_order@.len() && (#[trigger] turn.initiative_order@[o])@ == id
}

pub open spec fn participant_with_id(id: Seq<char>) -> spec_fn(RpgParticipantSetup) -> bool {
    |p: RpgParticipantSetup| p.id@ == id
}

pub open spec fn is_vitality(c: RpgInitialCapability) -> bool {
    c is Vitality
}

pub open spec fn vitality_capability() -> spec_fn(RpgInitialCapability) -> bool {
    |c: RpgInitialCapability| is_vitality(c)
}

/// Whether the first participant with an identity has a first vitality
/// capability with positive current value.
pub open spec fn participant_setup_active(scenario: &RpgScenario, id: Seq<char>) -> bool {
    let p = first_index_where(scenario.participants@, participant_with_id(id));
    if p < 0 {
        false
    } else {
        let caps = scenario.participants@[p].capabilities@;
        let v = first_index_where(caps, vitality_capability());
        v >= 0 && caps[v]->Vitality_value.current > 0
    }
}

pub open spec fn order_entry_diagnostics(scenario: &RpgScenario, o: int) -> Seq<DiagnosticText> {
    let order = scenario.turn.initiative_order@;
    let id = order[o]@;
    let path = indexed("$.turn.initiativeOrder"@, o as nat, Seq::empty());
    only_if(
        !is_participant_id(scenario, id),
        one(
            "RPG_SCENARIO_TURN_PARTICIPANT_UNKNOWN"@,
            path,
            "unknown initiative participant "@ + id,
        ),
    ) + only_if(
        exists|q: int| 0 <= q < o && (#[trigger] order[q])@ == id,
        one(
            "RPG_SCENARIO_TURN_PARTICIPANT_DUPLICATE"@,
            path,
            "duplicate initiative participant "@ + id,
        ),
    )
}

pub open spec fn order_complete(scenario: &RpgScenario) -> bool {
    &&& forall|o: int|
        0 <= o < scenario.turn.initiative_order@.len() ==> is_participant_id(
            scenario,
            (#[trigger] scenario.turn.initiative_order@[o])@,
        )
    &&& forall|p: int|
        0 <= p < scenario.participants@.len() && !is_blank(
            (#[trigger] scenario.participants@[p]).id@,
        ) ==> in_initiative(&scenario.turn, scenario.participants@[p].id@)
}

/// Findings about the opening turn: initiative entries, completeness of the
/// order, the current actor and the counters.
pub open spec fn turn_diagnostics(scenario: &RpgScenario) -> Seq<DiagnosticText> {
    let turn = &scenario.turn;
    concat_upto(
        turn.initiative_order@.len() as int,
        |o: int| order_entry_diagnostics(scenario, o),
    ) + only_if(
        !order_complete(scenario),
        one(
            "RPG_SCENARIO_TURN_ORDER_INCOMPLETE"@,
            "$.turn.initiativeOrder"@,
            "initiative order must contain every participant exactly once"@,
        ),
    ) + (if !in_initiative(turn, turn.current_actor_id@) {
        one(
            "RPG_SCENARIO_CURRENT_ACTOR_UNKNOWN"@,
            "$.turn.currentActorId"@,
            "current actor must appear in initiative order"@,
        )
    } else {
        only_if(
            !participant_setup_active(scenario, turn.current_actor_id@),
            one(
                "RPG_SCENARIO_CURRENT_ACTOR_INACTIVE"@,
                "$.turn.currentActorId"@,
                "current actor must have positive vitality"@,
            ),
        )
    }) + only_if(
        turn.round == 0 || turn.turn == 0,
        one("RPG_SCENARIO_TURN_COUNTER_INVALID"@, "$.turn"@, "round and turn counters must be positive"@),
    )
}

fn participant_id_exists(scenario: &RpgScenario, id: &String) -> (b: bool)
    ensures
        b == is_participant_id(scenario, id@),
{
    let ps = &scenario.participants;
    let mut p: usize = 0;
    while p < ps.len()
        invariant
            ps@ == scenario.participants@,
            p <= ps@.len(),
            forall|q: int| 0 <= q < p ==> !(!is_blank((#[trigger] ps@[q]).id@) && ps@[q].id@ == id@),
        decreases ps.len() - p,
    {
        if !blank(ps[p].id.as_str()) && ps[p].id == *id {
            assert(!is_blank(ps@[p as int].id@) && ps@[p as int].id@ == id@);
            return true;
        }
        p = p + 1;
    }
    false
}

fn first_participant(scenario: &RpgScenario, id: &String) -> (r: Option<usize>)
    ensures
        match r {
            Some(p) => p < scenario.participants@.len() && p as int == first_index_where(
                scenario.participants@,
                participant_with_id(id@),
            ),
            None => first_index_where(scenario.participants@, participant_with_id(id@)) == -1,
        },
{
    let ps = &scenario.participants;
    let mut p: usize = 0;
    while p < ps.len()
        invariant
            ps@ == scenario.participants@,
            p <= ps@.len(),
            forall|q: int| 0 <= q < p ==> !participant_with_id(id@)(#[trigger] ps@[q]),
        decreases ps.len() - p,
    {
        if ps[p].id == *id {
            proof {
                assert(participant_with_id(id@)(ps@[p as int]));
                lemma_first_index_is(ps@, participant_with_id(id@), p as int);
            }
            return Some(p);
        }
        p = p + 1;
    }
    proof {
        lemma_first_index_is(ps@, participant_with_id(id@), -1);
    }
    None
}

fn setup_active(scenario: &RpgScenario, id: &String) -> (b: bool)
    ensures
        b == participant_setup_active(scenario, id@),
{
    match first_participant(scenario, id) {
        None => false,
        Some(p) => {
            let caps = &scenario.participants[p].capabilities;
            let ghost f = vitality_capability();
            let mut k: usize = 0;
            while k < caps.len()
                invariant
                    f == vitality_capability(),
                    p < scenario.participants@.len(),
                    p as int == first_index_where(scenario.participants@, participant_with_id(id@)),
                    caps@ == scenario.participants@[p as int].capabilities@,
                    k <= caps@.len(),
                    forall|q: int| 0 <= q < k ==> !f(#[trigger] caps@[q]),
                decreases caps.len() - k,
            {
                if let RpgInitialCapability::Vitality { value } = &caps[k] {
                    proof {
                        assert(f(caps@[k as int]));
                        lemma_first_index_is(caps@, f, k as int);
                    }
                    return value.current > 0;
                }
                k = k + 1;
            }
            proof {
                lemma_first_index_is(caps@, f, -1);
            }
            false
        },
    }
}

fn initiative_contains(turn: &RpgTurnInitialization, id: &String) -> (b: bool)
    ensures
        b == in_initiative(turn, id@),
{
    contains_text(&turn.initiative_order, id)
}

/// Validates the opening turn against the scenario's participants.
pub fn validate_turn(scenario: &RpgScenario) -> (out: Vec<RpgScenarioDiagnostic>)
    ensures
        diagnostic_texts(out@) == turn_diagnostics(scenario),
{
    proof {
        reveal_strlit("");
    }
    let turn = &scenario.turn;
    let order = &turn.initiative_order;
    let mut out: Vec<RpgScenarioDiagnostic> = Vec::new();
    let ghost f = |o: int| order_entry_diagnostics(scenario, o);
    let mut all_known = true;
    let mut o: usize = 0;
    while o < order.len()
        invariant
            f == (|o: int| order_entry_diagnostics(scenario, o)),
            order@ == scenario.turn.initiative_order@,
            o <= order@.len(),
            ""@ == Seq::<char>::empty(),
            diagnostic_texts(out@) == concat_upto(o as int, f),
            all_known == forall|q: int| 0 <= q < o ==> is_participant_id(scenario, (#[trigger] order@[q])@),
        decreases order.len() - o,
    {
        let id = &order[o];
        let path = indexed_path("$.turn.initiativeOrder", o, "");
        let ghost before = diagnostic_texts(out@);
        let known = participant_id_exists(scenario, id);
        if !known {
            all_known = false;
            push_finding(
                &mut out,
                "RPG_SCENARIO_TURN_PARTICIPANT_UNKNOWN",
                path.clone(),
                join("unknown initiative participant ", id.as_str()),
            );
        }
        let mut repeated = false;
        let mut q: usize = 0;
        while q < o
            invariant
                order@ == scenario.turn.initiative_order@,
                o < order@.len(),
                *id == order@[o as int],
                q <= o,
                repeated == exists|r: int| 0 <= r < q && (#[trigger] order@[r])@ == id@,
            decreases o - q,
        {
            if order[q] == *id {
                repeated = true;
            }
            q = q + 1;
        }
        if repeated {
            push_finding(
                &mut out,
                "RPG_SCENARIO_TURN_PARTICIPANT_DUPLICATE",
                path,
                join("duplicate initiative participant ", id.as_str()),
            );
        }
        proof {
            assert(diagnostic_texts(out@) =~= before + f(o as int));
        }
        o = o + 1;
    }
    let mut all_listed = true;
    let ps = &scenario.participants;
    let mut p: usize = 0;
    while p < ps.len()
        invariant
            ps@ == scenario.participants@,
            p <= ps@.len(),
            all_listed == forall|q: int|
                0 <= q < p && !is_blank((#[trigger] ps@[q]).id@) ==> in_initiative(turn, ps@[q].id@),
        decreases ps.len() - p,
    {
        if !blank(ps[p].id.as_str()) && !initiative_contains(turn, &ps[p].id) {
            all_listed = false;
        }
        p = p + 1;
    }
    if !(all_known && all_listed) {
        push_finding(
            &mut out,
            "RPG_SCENARIO_TURN_ORDER_INCOMPLETE",
            text("$.turn.initiativeOrder"),
            text("initiative order must contain every participant exactly once"),
        );
    }
    if !initiative_contains(turn, &turn.current_actor_id) {
        push_finding(
            &mut out,
            "RPG_SCENARIO_CURRENT_ACTOR_UNKNOWN",
            text("$.turn.currentActorId"),
            text("current actor must appear in initiative order"),
        );
    } else if !setup_active(scenario, &turn.current_actor_id) {
        push_finding(
            &mut out,
            "RPG_SCENARIO_CURRENT_ACTOR_INACTIVE",
            text("$.turn.currentActorId"),
            text("current actor must have positive vitality"),
        );
    }
    if turn.round == 0 || turn.turn == 0 {
        push_finding(
            &mut out,
            "RPG_SCENARIO_TURN_COUNTER_INVALID",
            text("$.turn"),
            text("round and turn counters must be positive"),
        );
    }
    assert(diagnostic_texts(out@) =~= turn_diagnostics(scenario));
    out
}

} // verus!

verus! {

// ---------------------------------------------------------------------------
// Participant identity, position and definition references
// ---------------------------------------------------------------------------

pub open spec fn participant_path(i: int) -> Seq<char> {
    indexed("$.participants"@, i as nat, Seq::empty())
}

pub open spec fn identity_diagnostics(scenario: &RpgScenario, i: int) -> Seq<DiagnosticText> {
    let ps = scenario.participants@;
    let p = ps[i];
    let path = participant_path(i);
    (if is_blank(p.id@) {
        one(
            "RPG_SCENARIO_PARTICIPANT_ID_EMPTY"@,
            path + ".id"@,
            "participant identity must not be empty"@,
        )
    } else {
        only_if(
            exists|q: int| 0 <= q < i && (#[trigger] ps[q]).id@ == p.id@,
            one(
                "RPG_SCENARIO_PARTICIPANT_DUPLICATE"@,
                path + ".id"@,
                "duplicate participant "@ + p.id@,
            ),
        )
    }) + only_if(
        is_blank(p.label@),
        one(
            "RPG_SCENARIO_PARTICIPANT_LABEL_EMPTY"@,
            path + ".label"@,
            "participant label must not be empty"@,
        ),
    ) + only_if(
        is_blank(p.team_id@),
        one("RPG_SCENARIO_TEAM_ID_EMPTY"@, path + ".teamId"@, "team identity must not be empty"@),
    )
}

pub open spec fn at_position(p: GridPosition) -> spec_fn(RpgParticipantSetup) -> bool {
    |q: RpgParticipantSetup| q.position == p
}

/// The latest earlier participant standing on the same position, or -1.
pub open spec fn occupant(scenario: &RpgScenario, i: int) -> int {
    let ps = scenario.participants@;
    last_index_where(ps.take(i), at_position(ps[i].position))
}

pub open spec fn position_diagnostics(scenario: &RpgScenario, i: int) -> Seq<DiagnosticText> {
    let ps = scenario.participants@;
    let p = ps[i];
    let path = participant_path(i);
    let o = occupant(scenario, i);
    (if !position_in_board_spec(&scenario.board, p.position) {
        one(
            "RPG_SCENARIO_POSITION_OUT_OF_BOUNDS"@,
            path + ".position"@,
            "participant position is outside the board extent"@,
        )
    } else if o >= 0 {
        one(
            "RPG_SCENARIO_POSITION_OCCUPIED"@,
            path + ".position"@,
            "participant position is already occupied by "@ + ps[o].id@,
        )
    } else {
        Seq::empty()
    }) + only_if(
        cell_blocks_position_spec(&scenario.board, p.position),
        one(
            "RPG_SCENARIO_POSITION_BLOCKED"@,
            path + ".position"@,
            "participant position is on an impassable cell"@,
        ),
    )
}

/// The artifact record a definition identity resolves to, or -1.
pub open spec fn definition_record(catalog: &RpgScenarioCatalog, id: Seq<char>) -> int {
    last_index_where(catalog.definitions@, definition_with_id(id))
}

pub open spec fn lists(v: Seq<String>, s: Seq<char>) -> bool {
    exists|j: int| 0 <= j < v.len() && (#[trigger] v[j])@ == s
}

pub open spec fn reference_diagnostics(
    catalog: &RpgScenarioCatalog,
    ids: Seq<String>,
    d: int,
    path: Seq<char>,
) -> Seq<DiagnosticText> {
    let id = ids[d]@;
    let dp = indexed(path + ".definitionIds"@, d as nat, Seq::empty());
    let r = definition_record(catalog, id);
    if exists|q: int| 0 <= q < d && (#[trigger] ids[q])@ == id {
        one("RPG_SCENARIO_DEFINITION_DUPLICATE"@, dp, "duplicate definition reference "@ + id)
    } else if r < 0 {
        one(
            "RPG_SCENARIO_DEFINITION_UNKNOWN"@,
            dp,
            "definition "@ + id + " is not in the bound artifact"@,
        )
    } else if catalog.definitions@[r].visibility != RpgDefinitionVisibility::Exported {
        one(
            "RPG_SCENARIO_DEFINITION_NOT_EXPORTED"@,
            dp,
            "definition "@ + id + " is not exported by the bound artifact"@,
        )
    } else {
        Seq::empty()
    }
}

pub open spec fn references_action(catalog: &RpgScenarioCatalog, ids: Seq<String>) -> bool {
    exists|d: int|
        #![trigger ids[d]]
        0 <= d < ids.len() && {
            let r = definition_record(catalog, ids[d]@);
            &&& r >= 0
            &&& catalog.definitions@[r].visibility == RpgDefinitionVisibility::Exported
            &&& catalog.definitions@[r].kind == RpgDefinitionKind::Action
            &&& lists(catalog.action_ids@, ids[d]@)
        }
}

pub open spec fn definitions_diagnostics(
    catalog: &RpgScenarioCatalog,
    p: RpgParticipantSetup,
    path: Seq<char>,
) -> Seq<DiagnosticText> {
    concat_upto(
        p.definition_ids@.len() as int,
        |d: int| reference_diagnostics(catalog, p.definition_ids@, d, path),
    ) + only_if(
        !references_action(catalog, p.definition_ids@),
        one(
            "RPG_SCENARIO_PARTICIPANT_ACTION_REQUIRED"@,
            path + ".definitionIds"@,
            "each authority-controlled participant must reference an artifact action"@,
        ),
    )
}

fn definition_record_of(catalog: &RpgScenarioCatalog, id: &String) -> (r: Option<usize>)
    ensures
        match r {
            Some(i) => i < catalog.definitions@.len() && i as int == definition_record(catalog, id@),
            None => definition_record(catalog, id@) == -1,
        },
{
    let defs = &catalog.definitions;
    let mut i = defs.len();
    while i > 0
        invariant
            defs@ == catalog.definitions@,
            i <= defs@.len(),
            forall|j: int| i <= j < defs@.len() ==> !definition_with_id(id@)(#[trigger] defs@[j]),
        decreases i,
    {
        if defs[i - 1].id == *id {
            proof {
                assert(definition_with_id(id@)(defs@[i - 1]));
                lemma_last_index_is(defs@, definition_with_id(id@), i - 1);
            }
            return Some(i - 1);
        }
        i = i - 1;
    }
    proof {
        lemma_last_index_is(defs@, definition_with_id(id@), -1);
    }
    None
}

fn identity_findings(scenario: &RpgScenario, i: usize, path: &String) -> (out: Vec<
    RpgScenarioDiagnostic,
>)
    requires
        i < scenario.participants@.len(),
        path@ == participant_path(i as int),
    ensures
        diagnostic_texts(out@) == identity_diagnostics(scenario, i as int),
{
    let ps = &scenario.participants;
    let p = &ps[i];
    let mut out: Vec<RpgScenarioDiagnostic> = Vec::new();
    if blank(p.id.as_str()) {
        push_finding(
            &mut out,
            "RPG_SCENARIO_PARTICIPANT_ID_EMPTY",
            join(path.as_str(), ".id"),
            text("participant identity must not be empty"),
        );
    } else {
        let mut repeated = false;
        let mut q: usize = 0;
        while q < i
            invariant
                ps@ == scenario.participants@,
                i < ps@.len(),
                *p == ps@[i as int],
                q <= i,
                repeated == exists|r: int| 0 <= r < q && (#[trigger] ps@[r]).id@ == p.id@,
            decreases i - q,
        {
            if ps[q].id == p.id {
                repeated = true;
            }
            q = q + 1;
        }
        if repeated {
            push_finding(
                &mut out,
                "RPG_SCENARIO_PARTICIPANT_DUPLICATE",
                join(path.as_str(), ".id"),
                join("duplicate participant ", p.id.as_str()),
            );
        }
    }
    if blank(p.label.as_str()) {
        push_finding(
            &mut out,
            "RPG_SCENARIO_PARTICIPANT_LABEL_EMPTY",
            join(path.as_str(), ".label"),
            text("participant label must not be empty"),
        );
    }
    if blank(p.team_id.as_str()) {
        push_finding(
            &mut out,
            "RPG_SCENARIO_TEAM_ID_EMPTY",
            join(path.as_str(), ".teamId"),
            text("team identity must not be empty"),
        );
    }
    assert(diagnostic_texts(out@) =~= identity_diagnostics(scenario, i as int));
    out
}

fn occupant_of(scenario: &RpgScenario, i: usize) -> (r: Option<usize>)
    requires
        i < scenario.participants@.len(),
    ensures
        match r {
            Some(o) => o < i && o as int == occupant(scenario, i as int),
            None => occupant(scenario, i as int) == -1,
        },
{
    let ps = &scenario.participants;
    let p = &ps[i];
    let ghost earlier = ps@.take(i as int);
    let ghost f = at_position(p.position);
    let mut q = i;
    while q > 0
        invariant
            ps@ == scenario.participants@,
            i < ps@.len(),
            *p == ps@[i as int],
            earlier == ps@.take(i as int),
            f == at_position(p.position),
            q <= i,
            forall|r: int| q <= r < i ==> !f(#[trigger] earlier[r]),
        decreases q,
    {
        if ps[q - 1].position == p.position {
            proof {
                assert(f(earlier[q - 1]));
                lemma_last_index_is(earlier, f, q - 1);
            }
            return Some(q - 1);
        }
        q = q - 1;
    }
    proof {
        lemma_last_index_is(earlier, f, -1);
    }
    None
}

fn position_findings(scenario: &RpgScenario, i: usize, path: &String) -> (out: Vec<
    RpgScenarioDiagnostic,
>)
    requires
        i < scenario.participants@.len(),
        path@ == participant_path(i as int),
    ensures
        diagnostic_texts(out@) == position_diagnostics(scenario, i as int),
{
    let ps = &scenario.participants;
    let p = &ps[i];
    let mut out: Vec<RpgScenarioDiagnostic> = Vec::new();
    if !position_in_board(&scenario.board, p.position) {
        push_finding(
            &mut out,
            "RPG_SCENARIO_POSITION_OUT_OF_BOUNDS",
            join(path.as_str(), ".position"),
            text("participant position is outside the board extent"),
        );
    } else {
        let found = occupant_of(scenario, i);
        match found {
            Some(o) => {
                push_finding(
                    &mut out,
                    "RPG_SCENARIO_POSITION_OCCUPIED",
                    join(path.as_str(), ".position"),
                    join("participant position is already occupied by ", ps[o].id.as_str()),
                );
            },
            None => {},
        }
    }
    if cell_blocks_position(&scenario.board, p.position) {
        push_finding(
            &mut out,
            "RPG_SCENARIO_POSITION_BLOCKED",
            join(path.as_str(), ".position"),
            text("participant position is on an impassable cell"),
        );
    }
    assert(diagnostic_texts(out@) =~= position_diagnostics(scenario, i as int));
    out
}

fn definitions_findings(
    catalog: &RpgScenarioCatalog,
    p: &RpgParticipantSetup,
    path: &String,
) -> (out: Vec<RpgScenarioDiagnostic>)
    ensures
        diagnostic_texts(out@) == definitions_diagnostics(catalog, *p, path@),
{
    proof {
        reveal_strlit("");
    }
    let ids = &p.definition_ids;
    let prefix = join(path.as_str(), ".definitionIds");
    let ghost f = |d: int| reference_diagnostics(catalog, p.definition_ids@, d, path@);
    let mut out: Vec<RpgScenarioDiagnostic> = Vec::new();
    let mut has_action = false;
    let mut d: usize = 0;
    while d < ids.len()
        invariant
            f == (|d: int| reference_diagnostics(catalog, p.definition_ids@, d, path@)),
            ids@ == p.definition_ids@,
            prefix@ == path@ + ".definitionIds"@,
            ""@ == Seq::<char>::empty(),
            d <= ids@.len(),
            diagnostic_texts(out@) == concat_upto(d as int, f),
            has_action == exists|e: int|
                #![trigger ids@[e]]
                0 <= e < d && {
                    let r = definition_record(catalog, ids@[e]@);
                    &&& r >= 0
                    &&& catalog.definitions@[r].visibility == RpgDefinitionVisibility::Exported
                    &&& catalog.definitions@[r].kind == RpgDefinitionKind::Action
                    &&& lists(catalog.action_ids@, ids@[e]@)
                },
        decreases ids.len() - d,
    {
        let id = &ids[d];
        let dp = indexed_path(prefix.as_str(), d, "");
        let ghost before = diagnostic_texts(out@);
        let mut repeated = false;
        let mut q: usize = 0;
        while q < d
            invariant
                ids@ == p.definition_ids@,
                d < ids@.len(),
                *id == ids@[d as int],
                q <= d,
                repeated == exists|r: int| 0 <= r < q && (#[trigger] ids@[r])@ == id@,
            decreases d - q,
        {
            if ids[q] == *id {
                repeated = true;
            }
            q = q + 1;
        }
        let record = definition_record_of(catalog, id);
        if repeated {
            push_finding(
                &mut out,
                "RPG_SCENARIO_DEFINITION_DUPLICATE",
                dp,
                join("duplicate definition reference ", id.as_str()),
            );
        } else {
            match record {
                None => {
                    push_finding(
                        &mut out,
                        "RPG_SCENARIO_DEFINITION_UNKNOWN",
                        dp,
                        join3("definition ", id.as_str(), " is not in the bound artifact"),
                    );
                },
                Some(r) => {
                    if catalog.definitions[r].visibility != RpgDefinitionVisibility::Exported {
                        push_finding(
                            &mut out,
                            "RPG_SCENARIO_DEFINITION_NOT_EXPORTED",
                            dp,
                            join3("definition ", id.as_str(), " is not exported by the bound artifact"),
                        );
                    }
                },
            }
        }
        match record {
            Some(r) => {
                if catalog.definitions[r].visibility == RpgDefinitionVisibility::Exported
                    && catalog.definitions[r].kind == RpgDefinitionKind::Action && contains_text(
                    &catalog.action_ids,
                    id,
                ) {
                    has_action = true;
                }
            },
            None => {},
        }
        proof {
            assert(diagnostic_texts(out@) =~= before + f(d as int));
        }
        d = d + 1;
    }
    if !has_action {
        push_finding(
            &mut out,
            "RPG_SCENARIO_PARTICIPANT_ACTION_REQUIRED",
            join(path.as_str(), ".definitionIds"),
            text("each authority-controlled participant must reference an artifact action"),
        );
    }
    assert(diagnostic_texts(out@) =~= definitions_diagnostics(catalog, *p, path@));
    out
}

} // verus!

verus! {

// ---------------------------------------------------------------------------
// Character class and feature selection
// ---------------------------------------------------------------------------

pub open spec fn record_is(
    catalog: &RpgScenarioCatalog,
    id: Seq<char>,
    kind: RpgDefinitionKind,
) -> bool {
    let r = definition_record(catalog, id);
    r >= 0 && catalog.definitions@[r].kind == kind && catalog.definitions@[r].visibility
        == RpgDefinitionVisibility::Exported
}

pub open spec fn class_with_id(id: Seq<char>) -> spec_fn(crate::scenario::RpgCatalogClass) -> bool {
    |c: crate::scenario::RpgCatalogClass| c.definition_id@ == id
}

/// The compiled class a participant selects, or -1 when it selects none or an
/// invalid one.
pub open spec fn selected_class(catalog: &RpgScenarioCatalog, p: RpgParticipantSetup) -> int {
    match p.class_definition_id {
        None => -1,
        Some(c) => if record_is(catalog, c@, RpgDefinitionKind::CharacterClass) {
            last_index_where(catalog.classes@, class_with_id(c@))
        } else {
            -1
        },
    }
}

pub open spec fn feature_diagnostics(
    catalog: &RpgScenarioCatalog,
    p: RpgParticipantSetup,
    f: int,
    path: Seq<char>,
) -> Seq<DiagnosticText> {
    let features = p.feature_definition_ids@;
    let id = features[f]@;
    let fp = indexed(path + ".featureDefinitionIds"@, f as nat, Seq::empty());
    let c = selected_class(catalog, p);
    only_if(
        !crate::text::is_portable_identifier(id) || (f > 0 && !crate::text::text_before(
            features[f - 1]@,
            id,
        )),
        one(
            "RPG_SCENARIO_FEATURE_DEFINITIONS_NOT_CANONICAL"@,
            fp,
            "participant feature identities must be unique, sorted portable identifiers"@,
        ),
    ) + (if !(record_is(catalog, id, RpgDefinitionKind::CharacterFeature) && lists(
        catalog.feature_ids@,
        id,
    )) {
        one(
            "RPG_SCENARIO_FEATURE_DEFINITION_INVALID"@,
            fp,
            "feature definition "@ + id
                + " must be an exported characterFeature in the bound artifact"@,
        )
    } else {
        only_if(
            c >= 0 && !lists(catalog.classes@[c].feature_definition_ids@, id),
            one(
                "RPG_SCENARIO_FEATURE_NOT_IN_CLASS"@,
                fp,
                "selected class does not make character feature "@ + id + " available"@,
            ),
        )
    })
}

/// Findings about a participant's class and feature selection.
pub open spec fn selection_diagnostics(
    catalog: &RpgScenarioCatalog,
    p: RpgParticipantSetup,
    path: Seq<char>,
) -> Seq<DiagnosticText> {
    (match p.class_definition_id {
        Some(c) => only_if(
            !record_is(catalog, c@, RpgDefinitionKind::CharacterClass),
            one(
                "RPG_SCENARIO_CLASS_DEFINITION_INVALID"@,
                path + ".classDefinitionId"@,
                "class definition "@ + c@
                    + " must be an exported characterClass in the bound artifact"@,
            ),
        ),
        None => Seq::empty(),
    }) + only_if(
        p.class_definition_id is None && p.feature_definition_ids@.len() > 0,
        one(
            "RPG_SCENARIO_FEATURE_CLASS_REQUIRED"@,
            path + ".featureDefinitionIds"@,
            "participant feature selection requires an explicit character class"@,
        ),
    ) + concat_upto(
        p.feature_definition_ids@.len() as int,
        |f: int| feature_diagnostics(catalog, p, f, path),
    )
}

fn record_is_exec(catalog: &RpgScenarioCatalog, id: &String, kind: RpgDefinitionKind) -> (b: bool)
    ensures
        b == record_is(catalog, id@, kind),
{
    match definition_record_of(catalog, id) {
        None => false,
        Some(r) => catalog.definitions[r].kind == kind && catalog.definitions[r].visibility
            == RpgDefinitionVisibility::Exported,
    }
}

fn selected_class_of(catalog: &RpgScenarioCatalog, p: &RpgParticipantSetup) -> (r: Option<usize>)
    ensures
        match r {
            Some(c) => c < catalog.classes@.len() && c as int == selected_class(catalog, *p),
            None => selected_class(catalog, *p) == -1,
        },
{
    match &p.class_definition_id {
        None => None,
        Some(c) => {
            if !record_is_exec(catalog, c, RpgDefinitionKind::CharacterClass) {
                return None;
            }
            let classes = &catalog.classes;
            let mut i = classes.len();
            while i > 0
                invariant
                    record_is(catalog, c@, RpgDefinitionKind::CharacterClass),
                    p.class_definition_id == Some(*c),
                    classes@ == catalog.classes@,
                    i <= classes@.len(),
                    forall|j: int| i <= j < classes@.len() ==> !class_with_id(c@)(#[trigger] classes@[j]),
                decreases i,
            {
                if classes[i - 1].definition_id == *c {
                    proof {
                        assert(class_with_id(c@)(classes@[i - 1]));
                        lemma_last_index_is(classes@, class_with_id(c@), i - 1);
                    }
                    return Some(i - 1);
                }
                i = i - 1;
            }
            proof {
                lemma_last_index_is(classes@, class_with_id(c@), -1);
            }
            None
        },
    }
}

fn selection_findings(
    catalog: &RpgScenarioCatalog,
    p: &RpgParticipantSetup,
    path: &String,
) -> (out: Vec<RpgScenarioDiagnostic>)
    ensures
        diagnostic_texts(out@) == selection_diagnostics(catalog, *p, path@),
{
    proof {
        reveal_strlit("");
    }
    let mut out: Vec<RpgScenarioDiagnostic> = Vec::new();
    match &p.class_definition_id {
        Some(c) => {
            if !record_is_exec(catalog, c, RpgDefinitionKind::CharacterClass) {
                push_finding(
                    &mut out,
                    "RPG_SCENARIO_CLASS_DEFINITION_INVALID",
                    join(path.as_str(), ".classDefinitionId"),
                    join3(
                        "class definition ",
                        c.as_str(),
                        " must be an exported characterClass in the bound artifact",
                    ),
                );
            }
        },
        None => {},
    }
    let selected = selected_class_of(catalog, p);
    let features = &p.feature_definition_ids;
    if p.class_definition_id.is_none() && features.len() > 0 {
        push_finding(
            &mut out,
            "RPG_SCENARIO_FEATURE_CLASS_REQUIRED",
            join(path.as_str(), ".featureDefinitionIds"),
            text("participant feature selection requires an explicit character class"),
        );
    }
    let prefix = join(path.as_str(), ".featureDefinitionIds");
    let ghost head = diagnostic_texts(out@);
    let ghost g = |f: int| feature_diagnostics(catalog, *p, f, path@);
    let mut f: usize = 0;
    while f < features.len()
        invariant
            g == (|f: int| feature_diagnostics(catalog, *p, f, path@)),
            features@ == p.feature_definition_ids@,
            prefix@ == path@ + ".featureDefinitionIds"@,
            ""@ == Seq::<char>::empty(),
            f <= features@.len(),
            match selected {
                Some(c) => c < catalog.classes@.len() && c as int == selected_class(catalog, *p),
                None => selected_class(catalog, *p) == -1,
            },
            diagnostic_texts(out@) == head + concat_upto(f as int, g),
        decreases features.len() - f,
    {
        let id = &features[f];
        let fp = indexed_path(prefix.as_str(), f, "");
        let ghost before = diagnostic_texts(out@);
        let out_of_order = f > 0 && !crate::text::text_lt(features[f - 1].as_str(), id.as_str());
        if !crate::text::portable_identifier(id.as_str()) || out_of_order {
            push_finding(
                &mut out,
                "RPG_SCENARIO_FEATURE_DEFINITIONS_NOT_CANONICAL",
                fp.clone(),
                text("participant feature identities must be unique, sorted portable identifiers"),
            );
        }
        if !(record_is_exec(catalog, id, RpgDefinitionKind::CharacterFeature) && contains_text(
            &catalog.feature_ids,
            id,
        )) {
            push_finding(
                &mut out,
                "RPG_SCENARIO_FEATURE_DEFINITION_INVALID",
                fp,
                join3(
                    "feature definition ",
                    id.as_str(),
                    " must be an exported characterFeature in the bound artifact",
                ),
            );
        } else {
            match selected {
                Some(c) => {
                    if !contains_text(&catalog.classes[c].feature_definition_ids, id) {
                        push_finding(
                            &mut out,
                            "RPG_SCENARIO_FEATURE_NOT_IN_CLASS",
                            fp,
                            join3(
                                "selected class does not make character feature ",
                                id.as_str(),
                                " available",
                            ),
                        );
                    }
                },
                None => {},
            }
        }
        proof {
            assert(diagnostic_texts(out@) =~= before + g(f as int));
            assert(head + concat_upto(f + 1, g) =~= head + concat_upto(f as int, g) + g(f as int));
        }
        f = f + 1;
    }
    assert(diagnostic_texts(out@) =~= selection_diagnostics(catalog, *p, path@));
    out
}

} // verus!

verus! {

// ---------------------------------------------------------------------------
// Items and equipment
// ---------------------------------------------------------------------------

pub open spec fn item_diagnostics(
    catalog: &RpgScenarioCatalog,
    p: RpgParticipantSetup,
    k: int,
    path: Seq<char>,
) -> Seq<DiagnosticText> {
    let items = p.items@;
    let item = items[k];
    let ip = indexed(path + ".items"@, k as nat, Seq::empty());
    let d = item.definition_id@;
    let r = definition_record(catalog, d);
    only_if(
        !crate::text::is_portable_identifier(item.id@) || exists|q: int|
            0 <= q < k && (#[trigger] items[q]).id@ == item.id@,
        one(
            "RPG_SCENARIO_ITEM_INSTANCE_ID_INVALID"@,
            ip + ".id"@,
            "item instance identities must be non-empty and unique per participant"@,
        ),
    ) + if r < 0 {
        one(
            "RPG_SCENARIO_ITEM_DEFINITION_UNKNOWN"@,
            ip + ".definitionId"@,
            "item definition "@ + d + " is not in the bound artifact"@,
        )
    } else if catalog.definitions@[r].kind != RpgDefinitionKind::Item {
        one(
            "RPG_SCENARIO_ITEM_DEFINITION_INCOMPATIBLE"@,
            ip + ".definitionId"@,
            "definition "@ + d + " is not an item"@,
        )
    } else if catalog.definitions@[r].visibility == RpgDefinitionVisibility::Exported
        && catalog_has_item(catalog, d) {
        Seq::empty()
    } else {
        one(
            "RPG_SCENARIO_ITEM_DEFINITION_NOT_EXPORTED"@,
            ip + ".definitionId"@,
            "item definition "@ + d + " is not exported by the bound artifact"@,
        )
    }
}

pub open spec fn item_with_definition(d: Seq<char>) -> spec_fn(crate::scenario::RpgCatalogItem) -> bool {
    |it: crate::scenario::RpgCatalogItem| it.definition_id@ == d
}

pub open spec fn catalog_item(catalog: &RpgScenarioCatalog, d: Seq<char>) -> int {
    last_index_where(catalog.items@, item_with_definition(d))
}

pub open spec fn catalog_has_item(catalog: &RpgScenarioCatalog, d: Seq<char>) -> bool {
    catalog_item(catalog, d) >= 0
}

pub open spec fn carried_instance(id: Seq<char>) -> spec_fn(crate::scenario::RpgItemInstanceSetup) -> bool {
    |it: crate::scenario::RpgItemInstanceSetup| crate::text::is_portable_identifier(it.id@) && it.id@
        == id
}

pub open spec fn equipment_diagnostics(
    catalog: &RpgScenarioCatalog,
    p: RpgParticipantSetup,
    k: int,
    path: Seq<char>,
) -> Seq<DiagnosticText> {
    let slots = p.equipment@;
    let e = slots[k];
    let ep = indexed(path + ".equipment"@, k as nat, Seq::empty());
    let inst = last_index_where(p.items@, carried_instance(e.item_instance_id@));
    only_if(
        !crate::text::is_portable_identifier(e.slot_id@) || exists|q: int|
            0 <= q < k && (#[trigger] slots[q]).slot_id@ == e.slot_id@,
        one(
            "RPG_SCENARIO_EQUIPMENT_SLOT_INVALID"@,
            ep + ".slotId"@,
            "equipment slot identities must be non-empty and unique per participant"@,
        ),
    ) + only_if(
        exists|q: int| 0 <= q < k && (#[trigger] slots[q]).item_instance_id@ == e.item_instance_id@,
        one(
            "RPG_SCENARIO_ITEM_EQUIPPED_MULTIPLE_TIMES"@,
            ep + ".itemInstanceId"@,
            "one item instance may occupy only one equipment slot"@,
        ),
    ) + if inst < 0 {
        one(
            "RPG_SCENARIO_EQUIPMENT_ITEM_UNKNOWN"@,
            ep + ".itemInstanceId"@,
            "equipment references unknown item instance "@ + e.item_instance_id@,
        )
    } else {
        let c = catalog_item(catalog, p.items@[inst].definition_id@);
        only_if(
            c >= 0 && !lists(catalog.items@[c].allowed_slots@, e.slot_id@),
            one(
                "RPG_SCENARIO_EQUIPMENT_SLOT_NOT_ALLOWED"@,
                ep + ".slotId"@,
                "item definition "@ + catalog.items@[c].definition_id@ + " cannot occupy slot "@
                    + e.slot_id@,
            ),
        )
    }
}

/// Findings about a participant's items and equipment.
pub open spec fn inventory_diagnostics(
    catalog: &RpgScenarioCatalog,
    p: RpgParticipantSetup,
    path: Seq<char>,
) -> Seq<DiagnosticText> {
    concat_upto(p.items@.len() as int, |k: int| item_diagnostics(catalog, p, k, path))
        + concat_upto(p.equipment@.len() as int, |k: int| equipment_diagnostics(catalog, p, k, path))
}

fn catalog_item_of(catalog: &RpgScenarioCatalog, d: &String) -> (r: Option<usize>)
    ensures
        match r {
            Some(c) => c < catalog.items@.len() && c as int == catalog_item(catalog, d@),
            None => catalog_item(catalog, d@) == -1,
        },
{
    let items = &catalog.items;
    let mut i = items.len();
    while i > 0
        invariant
            items@ == catalog.items@,
            i <= items@.len(),
            forall|j: int| i <= j < items@.len() ==> !item_with_definition(d@)(#[trigger] items@[j]),
        decreases i,
    {
        if items[i - 1].definition_id == *d {
            proof {
                assert(item_with_definition(d@)(items@[i - 1]));
                lemma_last_index_is(items@, item_with_definition(d@), i - 1);
            }
            return Some(i - 1);
        }
        i = i - 1;
    }
    proof {
        lemma_last_index_is(items@, item_with_definition(d@), -1);
    }
    None
}

fn carried_instance_of(p: &RpgParticipantSetup, id: &String) -> (r: Option<usize>)
    ensures
        match r {
            Some(c) => c < p.items@.len() && c as int == last_index_where(
                p.items@,
                carried_instance(id@),
            ),
            None => last_index_where(p.items@, carried_instance(id@)) == -1,
        },
{
    let items = &p.items;
    let mut i = items.len();
    while i > 0
        invariant
            items@ == p.items@,
            i <= items@.len(),
            forall|j: int| i <= j < items@.len() ==> !carried_instance(id@)(#[trigger] items@[j]),
        decreases i,
    {
        if crate::text::portable_identifier(items[i - 1].id.as_str()) && items[i - 1].id == *id {
            proof {
                assert(carried_instance(id@)(items@[i - 1]));
                lemma_last_index_is(items@, carried_instance(id@), i - 1);
            }
            return Some(i - 1);
        }
        i = i - 1;
    }
    proof {
        lemma_last_index_is(items@, carried_instance(id@), -1);
    }
    None
}

fn item_findings(
    catalog: &RpgScenarioCatalog,
    p: &RpgParticipantSetup,
    k: usize,
    path: &String,
) -> (out: Vec<RpgScenarioDiagnostic>)
    requires
        k < p.items@.len(),
    ensures
        diagnostic_texts(out@) == item_diagnostics(catalog, *p, k as int, path@),
{
    proof {
        reveal_strlit("");
    }
    let items = &p.items;
    let item = &items[k];
    let prefix = join(path.as_str(), ".items");
    let ip = indexed_path(prefix.as_str(), k, "");
    let mut out: Vec<RpgScenarioDiagnostic> = Vec::new();
    let mut repeated = false;
    let mut q: usize = 0;
    while q < k
        invariant
            items@ == p.items@,
            k < items@.len(),
            *item == items@[k as int],
            q <= k,
            repeated == exists|r: int| 0 <= r < q && (#[trigger] items@[r]).id@ == item.id@,
        decreases k - q,
    {
        if items[q].id == item.id {
            repeated = true;
        }
        q = q + 1;
    }
    if !crate::text::portable_identifier(item.id.as_str()) || repeated {
        push_finding(
            &mut out,
            "RPG_SCENARIO_ITEM_INSTANCE_ID_INVALID",
            join(ip.as_str(), ".id"),
            text("item instance identities must be non-empty and unique per participant"),
        );
    }
    let d = &item.definition_id;
    match definition_record_of(catalog, d) {
        None => {
            push_finding(
                &mut out,
                "RPG_SCENARIO_ITEM_DEFINITION_UNKNOWN",
                join(ip.as_str(), ".definitionId"),
                join3("item definition ", d.as_str(), " is not in the bound artifact"),
            );
        },
        Some(r) => {
            if catalog.definitions[r].kind != RpgDefinitionKind::Item {
                push_finding(
                    &mut out,
                    "RPG_SCENARIO_ITEM_DEFINITION_INCOMPATIBLE",
                    join(ip.as_str(), ".definitionId"),
                    join3("definition ", d.as_str(), " is not an item"),
                );
            } else if catalog.definitions[r].visibility == RpgDefinitionVisibility::Exported
                && catalog_item_of(catalog, d).is_some() {
            } else {
                push_finding(
                    &mut out,
                    "RPG_SCENARIO_ITEM_DEFINITION_NOT_EXPORTED",
                    join(ip.as_str(), ".definitionId"),
                    join3("item definition ", d.as_str(), " is not exported by the bound artifact"),
                );
            }
        },
    }
    assert(diagnostic_texts(out@) =~= item_diagnostics(catalog, *p, k as int, path@));
    out
}

fn equipment_findings(
    catalog: &RpgScenarioCatalog,
    p: &RpgParticipantSetup,
    k: usize,
    path: &String,
) -> (out: Vec<RpgScenarioDiagnostic>)
    requires
        k < p.equipment@.len(),
    ensures
        diagnostic_texts(out@) == equipment_diagnostics(catalog, *p, k as int, path@),
{
    proof {
        reveal_strlit("");
    }
    let slots = &p.equipment;
    let e = &slots[k];
    let prefix = join(path.as_str(), ".equipment");
    let ep = indexed_path(prefix.as_str(), k, "");
    let mut out: Vec<RpgScenarioDiagnostic> = Vec::new();
    let mut slot_repeated = false;
    let mut instance_repeated = false;
    let mut q: usize = 0;
    while q < k
        invariant
            slots@ == p.equipment@,
            k < slots@.len(),
            *e == slots@[k as int],
            q <= k,
            slot_repeated == exists|r: int| 0 <= r < q && (#[trigger] slots@[r]).slot_id@ == e.slot_id@,
            instance_repeated == exists|r: int|
                0 <= r < q && (#[trigger] slots@[r]).item_instance_id@ == e.item_instance_id@,
        decreases k - q,
    {
        if slots[q].slot_id == e.slot_id {
            slot_repeated = true;
        }
        if slots[q].item_instance_id == e.item_instance_id {
            instance_repeated = true;
        }
        q = q + 1;
    }
    if !crate::text::portable_identifier(e.slot_id.as_str()) || slot_repeated {
        push_finding(
            &mut out,
            "RPG_SCENARIO_EQUIPMENT_SLOT_INVALID",
            join(ep.as_str(), ".slotId"),
            text("equipment slot identities must be non-empty and unique per participant"),
        );
    }
    if instance_repeated {
        push_finding(
            &mut out,
            "RPG_SCENARIO_ITEM_EQUIPPED_MULTIPLE_TIMES",
            join(ep.as_str(), ".itemInstanceId"),
            text("one item instance may occupy only one equipment slot"),
        );
    }
    match carried_instance_of(p, &e.item_instance_id) {
        None => {
            push_finding(
                &mut out,
                "RPG_SCENARIO_EQUIPMENT_ITEM_UNKNOWN",
                join(ep.as_str(), ".itemInstanceId"),
                join("equipment references unknown item instance ", e.item_instance_id.as_str()),
            );
        },
        Some(inst) => {
            match catalog_item_of(catalog, &p.items[inst].definition_id) {
                Some(c) => {
                    if !contains_text(&catalog.items[c].allowed_slots, &e.slot_id) {
                        let mut message = join3(
                            "item definition ",
                            catalog.items[c].definition_id.as_str(),
                            " cannot occupy slot ",
                        );
                        let message = join(message.as_str(), e.slot_id.as_str());
                        push_finding(
                            &mut out,
                            "RPG_SCENARIO_EQUIPMENT_SLOT_NOT_ALLOWED",
                            join(ep.as_str(), ".slotId"),
                            message,
                        );
                    }
                },
                None => {},
            }
        },
    }
    assert(diagnostic_texts(out@) =~= equipment_diagnostics(catalog, *p, k as int, path@));
    out
}

fn inventory_findings(
    catalog: &RpgScenarioCatalog,
    p: &RpgParticipantSetup,
    path: &String,
) -> (out: Vec<RpgScenarioDiagnostic>)
    ensures
        diagnostic_texts(out@) == inventory_diagnostics(catalog, *p, path@),
{
    let mut out: Vec<RpgScenarioDiagnostic> = Vec::new();
    let ghost f = |k: int| item_diagnostics(catalog, *p, k, path@);
    let ghost g = |k: int| equipment_diagnostics(catalog, *p, k, path@);
    let mut k: usize = 0;
    while k < p.items.len()
        invariant
            f == (|k: int| item_diagnostics(catalog, *p, k, path@)),
            k <= p.items@.len(),
            diagnostic_texts(out@) == concat_upto(k as int, f),
        decreases p.items.len() - k,
    {
        let found = item_findings(catalog, p, k, path);
        append_findings(&mut out, found);
        k = k + 1;
    }
    let ghost head = diagnostic_texts(out@);
    let mut k: usize = 0;
    while k < p.equipment.len()
        invariant
            g == (|k: int| equipment_diagnostics(catalog, *p, k, path@)),
            k <= p.equipment@.len(),
            diagnostic_texts(out@) == head + concat_upto(k as int, g),
        decreases p.equipment.len() - k,
    {
        let found = equipment_findings(catalog, p, k, path);
        append_findings(&mut out, found);
        proof {
            assert(head + concat_upto(k + 1, g) =~= head + concat_upto(k as int, g) + g(k as int));
        }
        k = k + 1;
    }
    out
}

} // verus!

verus! {

// ---------------------------------------------------------------------------
// Initial capabilities
// ---------------------------------------------------------------------------

pub open spec fn owner_of(c: RpgInitialCapability) -> Seq<char> {
    match c {
        RpgInitialCapability::Vitality { .. } => "capability.vitality"@,
        RpgInitialCapability::Stat { .. } => "capability.stats"@,
        RpgInitialCapability::Defense { .. } => "capability.defenses"@,
        RpgInitialCapability::Resource { .. } => "capability.resources"@,
        RpgInitialCapability::Modifier { .. } => "capability.modifiers"@,
    }
}

/// The identity a capability must hold uniquely within its owner.
pub open spec fn identity_of(c: RpgInitialCapability) -> Seq<char> {
    match c {
        RpgInitialCapability::Vitality { .. } => "vitality"@,
        RpgInitialCapability::Stat { id, .. } => id@,
        RpgInitialCapability::Defense { id, .. } => id@,
        RpgInitialCapability::Resource { id, .. } => id@,
        RpgInitialCapability::Modifier { stacking_group, .. } => stacking_group@,
    }
}

pub open spec fn kind_name(kind: crate::scenario::RpgRulesetValueKind) -> Seq<char> {
    match kind {
        crate::scenario::RpgRulesetValueKind::Stat => "Stat"@,
        crate::scenario::RpgRulesetValueKind::Defense => "Defense"@,
    }
}

pub open spec fn bounded_diagnostics(v: BoundedValue, path: Seq<char>) -> Seq<DiagnosticText> {
    only_if(
        v.max < 0 || v.current < 0 || v.current > v.max,
        one(
            "RPG_SCENARIO_CAPABILITY_VALUE_OUT_OF_BOUNDS"@,
            path,
            "bounded capability values require 0 <= current <= max"@,
        ),
    )
}

pub open spec fn is_derived(
    catalog: &RpgScenarioCatalog,
    kind: crate::scenario::RpgRulesetValueKind,
    id: Seq<char>,
) -> bool {
    exists|j: int|
        0 <= j < catalog.derived_values@.len() && (#[trigger] catalog.derived_values@[j]).kind
            == kind && catalog.derived_values@[j].id@ == id
}

pub open spec fn ruleset_value_with(
    kind: crate::scenario::RpgRulesetValueKind,
    id: Seq<char>,
) -> spec_fn(crate::scenario::RpgCatalogRulesetValue) -> bool {
    |v: crate::scenario::RpgCatalogRulesetValue| v.kind == kind && v.id@ == id
}

pub open spec fn ruleset_value_diagnostics(
    catalog: &RpgScenarioCatalog,
    kind: crate::scenario::RpgRulesetValueKind,
    id: Seq<char>,
    value: i32,
    path: Seq<char>,
) -> Seq<DiagnosticText> {
    let r = last_index_where(catalog.ruleset_values@, ruleset_value_with(kind, id));
    if is_derived(catalog, kind, id) {
        one(
            "RPG_SCENARIO_DERIVED_RULESET_VALUE_SUPPLIED"@,
            path,
            "derived ruleset value "@ + id + " must not be supplied by a scenario"@,
        )
    } else if r < 0 {
        one(
            "RPG_SCENARIO_RULESET_VALUE_UNKNOWN"@,
            path + ".id"@,
            "initial "@ + kind_name(kind) + " "@ + id + " is not provided by the bound ruleset"@,
        )
    } else {
        let bounds = catalog.ruleset_values@[r];
        only_if(
            value < bounds.minimum || value > bounds.maximum,
            one(
                "RPG_SCENARIO_RULESET_VALUE_OUT_OF_DOMAIN"@,
                path + ".value"@,
                "initial value must be within "@ + crate::text::signed_decimal(bounds.minimum as int)
                    + "..="@ + crate::text::signed_decimal(bounds.maximum as int),
            ),
        )
    }
}

pub open spec fn content_value_diagnostics(
    catalog: &RpgScenarioCatalog,
    content: Seq<char>,
    id: Seq<char>,
    path: Seq<char>,
) -> Seq<DiagnosticText> {
    only_if(
        !exists|j: int|
            0 <= j < catalog.content_values@.len() && (#[trigger] catalog.content_values@[j]).catalog@
                == content && catalog.content_values@[j].id@ == id,
        one(
            "RPG_SCENARIO_CONTENT_VALUE_UNKNOWN"@,
            path + ".id"@,
            "initial "@ + content + " "@ + id + " is not defined by the bound content packs"@,
        ),
    )
}

pub open spec fn value_diagnostics(
    catalog: &RpgScenarioCatalog,
    c: RpgInitialCapability,
    path: Seq<char>,
) -> Seq<DiagnosticText> {
    match c {
        RpgInitialCapability::Vitality { value } => bounded_diagnostics(value, path),
        RpgInitialCapability::Stat { id, value } => ruleset_value_diagnostics(
            catalog,
            crate::scenario::RpgRulesetValueKind::Stat,
            id@,
            value,
            path,
        ),
        RpgInitialCapability::Defense { id, value } => ruleset_value_diagnostics(
            catalog,
            crate::scenario::RpgRulesetValueKind::Defense,
            id@,
            value,
            path,
        ),
        RpgInitialCapability::Resource { id, value } => bounded_diagnostics(value, path)
            + content_value_diagnostics(catalog, "resource"@, id@, path),
        RpgInitialCapability::Modifier { id, remaining_turns, .. } => content_value_diagnostics(
            catalog,
            "modifier"@,
            id@,
            path,
        ) + only_if(
            is_blank(id@) || remaining_turns < 1 || remaining_turns
                > catalog.maximum_modifier_turns,
            one(
                "RPG_SCENARIO_MODIFIER_INVALID"@,
                path,
                "modifier identity and remaining turns within 1..="@ + crate::text::decimal(
                    catalog.maximum_modifier_turns as nat,
                ) + " are required"@,
            ),
        ),
    }
}

pub open spec fn initial_capability_diagnostics(
    catalog: &RpgScenarioCatalog,
    p: RpgParticipantSetup,
    k: int,
    path: Seq<char>,
) -> Seq<DiagnosticText> {
    let caps = p.capabilities@;
    let c = caps[k];
    let cp = indexed(path + ".capabilities"@, k as nat, Seq::empty());
    let owner = owner_of(c);
    let key = identity_of(c);
    only_if(
        !lists(catalog.required_capabilities@, owner) && owner != "capability.vitality"@,
        one(
            "RPG_SCENARIO_CAPABILITY_OWNER_INCOMPATIBLE"@,
            cp,
            "artifact does not declare initial capability owner "@ + owner,
        ),
    ) + value_diagnostics(catalog, c, cp) + only_if(
        is_blank(key) || exists|q: int|
            0 <= q < k && owner_of(#[trigger] caps[q]) == owner && identity_of(caps[q]) == key,
        one(
            "RPG_SCENARIO_CAPABILITY_DUPLICATE"@,
            cp,
            "capability identity "@ + key + " must be non-empty and unique within owner "@ + owner,
        ),
    )
}

pub open spec fn vitality_count(caps: Seq<RpgInitialCapability>) -> int
    decreases caps.len(),
{
    if caps.len() == 0 {
        0
    } else {
        vitality_count(caps.drop_last()) + if is_vitality(caps.last()) {
            1int
        } else {
            0int
        }
    }
}

/// Findings about a participant's initial capabilities, including the
/// outcome of deriving its ruleset values.
pub open spec fn capabilities_findings_spec(
    catalog: &RpgScenarioCatalog,
    p: RpgParticipantSetup,
    path: Seq<char>,
    derivation: Option<crate::scenario::RpgValueDerivationFailure>,
) -> Seq<DiagnosticText> {
    concat_upto(
        p.capabilities@.len() as int,
        |k: int| initial_capability_diagnostics(catalog, p, k, path),
    ) + only_if(
        vitality_count(p.capabilities@) != 1,
        one(
            "RPG_SCENARIO_VITALITY_REQUIRED"@,
            path + ".capabilities"@,
            "each participant requires exactly one vitality capability"@,
        ),
    ) + match derivation {
        Some(f) => one(
            f.code@,
            path + ".capabilities"@,
            "cannot derive ruleset value "@ + f.target_id@ + ": "@ + f.message@,
        ),
        None => Seq::empty(),
    }
}

impl RpgInitialCapability {
    /// The capability that owns this initial value.
    pub fn owner_id(&self) -> (s: &'static str)
        ensures
            s@ == owner_of(*self),
    {
        match self {
            RpgInitialCapability::Vitality { .. } => "capability.vitality",
            RpgInitialCapability::Stat { .. } => "capability.stats",
            RpgInitialCapability::Defense { .. } => "capability.defenses",
            RpgInitialCapability::Resource { .. } => "capability.resources",
            RpgInitialCapability::Modifier { .. } => "capability.modifiers",
        }
    }
}

fn identity_text(c: &RpgInitialCapability) -> (s: String)
    ensures
        s@ == identity_of(*c),
{
    match c {
        RpgInitialCapability::Vitality { .. } => text("vitality"),
        RpgInitialCapability::Stat { id, .. } => id.clone(),
        RpgInitialCapability::Defense { id, .. } => id.clone(),
        RpgInitialCapability::Resource { id, .. } => id.clone(),
        RpgInitialCapability::Modifier { stacking_group, .. } => stacking_group.clone(),
    }
}

fn bounded_findings(out: &mut Vec<RpgScenarioDiagnostic>, v: BoundedValue, path: &String)
    ensures
        diagnostic_texts(final(out)@) == diagnostic_texts(old(out)@) + bounded_diagnostics(v, path@),
{
    let ghost before = diagnostic_texts(out@);
    if v.max < 0 || v.current < 0 || v.current > v.max {
        push_finding(
            out,
            "RPG_SCENARIO_CAPABILITY_VALUE_OUT_OF_BOUNDS",
            path.clone(),
            text("bounded capability values require 0 <= current <= max"),
        );
    }
    assert(diagnostic_texts(out@) =~= before + bounded_diagnostics(v, path@));
}

fn derived_exec(
    catalog: &RpgScenarioCatalog,
    kind: crate::scenario::RpgRulesetValueKind,
    id: &String,
) -> (b: bool)
    ensures
        b == is_derived(catalog, kind, id@),
{
    let v = &catalog.derived_values;
    let mut j: usize = 0;
    while j < v.len()
        invariant
            v@ == catalog.derived_values@,
            j <= v@.len(),
            forall|q: int| 0 <= q < j ==> !((#[trigger] v@[q]).kind == kind && v@[q].id@ == id@),
        decreases v.len() - j,
    {
        if v[j].kind == kind && v[j].id == *id {
            return true;
        }
        j = j + 1;
    }
    false
}

fn ruleset_value_findings(
    out: &mut Vec<RpgScenarioDiagnostic>,
    catalog: &RpgScenarioCatalog,
    kind: crate::scenario::RpgRulesetValueKind,
    id: &String,
    value: i32,
    path: &String,
)
    ensures
        diagnostic_texts(final(out)@) == diagnostic_texts(old(out)@) + ruleset_value_diagnostics(
            catalog,
            kind,
            id@,
            value,
            path@,
        ),
{
    let ghost before = diagnostic_texts(out@);
    if derived_exec(catalog, kind, id) {
        push_finding(
            out,
            "RPG_SCENARIO_DERIVED_RULESET_VALUE_SUPPLIED",
            path.clone(),
            join3("derived ruleset value ", id.as_str(), " must not be supplied by a scenario"),
        );
    } else {
        let values = &catalog.ruleset_values;
        let ghost f = ruleset_value_with(kind, id@);
        let mut i = values.len();
        let mut found: Option<usize> = None;
        while i > 0
            invariant_except_break
                found is None,
            invariant
                f == ruleset_value_with(kind, id@),
                values@ == catalog.ruleset_values@,
                i <= values@.len(),
                forall|j: int| i <= j < values@.len() ==> !f(#[trigger] values@[j]),
            ensures
                match found {
                    Some(r) => r < values@.len() && r as int == last_index_where(values@, f),
                    None => i == 0,
                },
            decreases i,
        {
            if values[i - 1].kind == kind && values[i - 1].id == *id {
                proof {
                    assert(f(values@[i - 1]));
                    lemma_last_index_is(values@, f, i - 1);
                }
                found = Some(i - 1);
                break;
            }
            i = i - 1;
        }
        match found {
            None => {
                proof {
                    lemma_last_index_is(values@, f, -1);
                }
                let kind_text = match kind {
                    crate::scenario::RpgRulesetValueKind::Stat => "Stat",
                    crate::scenario::RpgRulesetValueKind::Defense => "Defense",
                };
                let head = join3("initial ", kind_text, " ");
                push_finding(
                    out,
                    "RPG_SCENARIO_RULESET_VALUE_UNKNOWN",
                    join(path.as_str(), ".id"),
                    join3(head.as_str(), id.as_str(), " is not provided by the bound ruleset"),
                );
            },
            Some(r) => {
                let bounds = &values[r];
                if (value as i64) < bounds.minimum || (value as i64) > bounds.maximum {
                    let mut message = text("initial value must be within ");
                    crate::text::push_signed_decimal(&mut message, bounds.minimum);
                    message = join(message.as_str(), "..=");
                    crate::text::push_signed_decimal(&mut message, bounds.maximum);
                    push_finding(
                        out,
                        "RPG_SCENARIO_RULESET_VALUE_OUT_OF_DOMAIN",
                        join(path.as_str(), ".value"),
                        message,
                    );
                }
            },
        }
    }
    assert(diagnostic_texts(out@) =~= before + ruleset_value_diagnostics(
        catalog,
        kind,
        id@,
        value,
        path@,
    ));
}

fn content_value_findings(
    out: &mut Vec<RpgScenarioDiagnostic>,
    catalog: &RpgScenarioCatalog,
    content: &str,
    id: &String,
    path: &String,
)
    ensures
        diagnostic_texts(final(out)@) == diagnostic_texts(old(out)@) + content_value_diagnostics(
            catalog,
            content@,
            id@,
            path@,
        ),
{
    let ghost before = diagnostic_texts(out@);
    let content_text = text(content);
    let v = &catalog.content_values;
    let mut known = false;
    let mut j: usize = 0;
    while j < v.len()
        invariant
            v@ == catalog.content_values@,
            content_text@ == content@,
            j <= v@.len(),
            known == exists|q: int|
                0 <= q < j && (#[trigger] v@[q]).catalog@ == content@ && v@[q].id@ == id@,
        decreases v.len() - j,
    {
        if v[j].catalog == content_text && v[j].id == *id {
            known = true;
        }
        j = j + 1;
    }
    if !known {
        let head = join3("initial ", content, " ");
        push_finding(
            out,
            "RPG_SCENARIO_CONTENT_VALUE_UNKNOWN",
            join(path.as_str(), ".id"),
            join3(head.as_str(), id.as_str(), " is not defined by the bound content packs"),
        );
    }
    assert(diagnostic_texts(out@) =~= before + content_value_diagnostics(
        catalog,
        content@,
        id@,
        path@,
    ));
}

fn initial_capability_findings(
    catalog: &RpgScenarioCatalog,
    p: &RpgParticipantSetup,
    k: usize,
    path: &String,
) -> (out: Vec<RpgScenarioDiagnostic>)
    requires
        k < p.capabilities@.len(),
    ensures
        diagnostic_texts(out@) == initial_capability_diagnostics(catalog, *p, k as int, path@),
{
    proof {
        reveal_strlit("");
        reveal_strlit("resource");
        reveal_strlit("modifier");
    }
    let caps = &p.capabilities;
    let c = &caps[k];
    let prefix = join(path.as_str(), ".capabilities");
    let cp = indexed_path(prefix.as_str(), k, "");
    let owner = c.owner_id();
    let owner_string = text(owner);
    let key = identity_text(c);
    let mut out: Vec<RpgScenarioDiagnostic> = Vec::new();
    let required = contains_text(&catalog.required_capabilities, &owner_string);
    if !required && owner_string != text("capability.vitality") {
        push_finding(
            &mut out,
            "RPG_SCENARIO_CAPABILITY_OWNER_INCOMPATIBLE",
            cp.clone(),
            join("artifact does not declare initial capability owner ", owner),
        );
    }
    match c {
        RpgInitialCapability::Vitality { value } => {
            bounded_findings(&mut out, *value, &cp);
        },
        RpgInitialCapability::Stat { id, value } => {
            ruleset_value_findings(
                &mut out,
                catalog,
                crate::scenario::RpgRulesetValueKind::Stat,
                id,
                *value,
                &cp,
            );
        },
        RpgInitialCapability::Defense { id, value } => {
            ruleset_value_findings(
                &mut out,
                catalog,
                crate::scenario::RpgRulesetValueKind::Defense,
                id,
                *value,
                &cp,
            );
        },
        RpgInitialCapability::Resource { id, value } => {
            bounded_findings(&mut out, *value, &cp);
            content_value_findings(&mut out, catalog, "resource", id, &cp);
        },
        RpgInitialCapability::Modifier { id, remaining_turns, .. } => {
            content_value_findings(&mut out, catalog, "modifier", id, &cp);
            if blank(id.as_str()) || *remaining_turns < 1 || *remaining_turns
                > catalog.maximum_modifier_turns {
                let mut message = text("modifier identity and remaining turns within 1..=");
                crate::text::push_decimal(&mut message, catalog.maximum_modifier_turns as u64);
                let message = join(message.as_str(), " are required");
                push_finding(&mut out, "RPG_SCENARIO_MODIFIER_INVALID", cp.clone(), message);
            }
        },
    }
    let mut repeated = false;
    let mut q: usize = 0;
    while q < k
        invariant
            caps@ == p.capabilities@,
            k < caps@.len(),
            *c == caps@[k as int],
            owner@ == owner_of(*c),
            key@ == identity_of(*c),
            owner_string@ == owner@,
            q <= k,
            repeated == exists|r: int|
                0 <= r < q && owner_of(#[trigger] caps@[r]) == owner@ && identity_of(caps@[r])
                    == key@,
        decreases k - q,
    {
        let other_owner = text(caps[q].owner_id());
        let other_key = identity_text(&caps[q]);
        let same_owner = other_owner == owner_string;
        let same_key = other_key == key;
        assert(same_owner == (owner_of(caps@[q as int]) == owner@));
        assert(same_key == (identity_of(caps@[q as int]) == key@));
        if same_owner && same_key {
            repeated = true;
        }
        q = q + 1;
    }
    if blank(key.as_str()) || repeated {
        let head = join3("capability identity ", key.as_str(), " must be non-empty and unique within owner ");
        push_finding(&mut out, "RPG_SCENARIO_CAPABILITY_DUPLICATE", cp, join(head.as_str(), owner));
    }
    assert(diagnostic_texts(out@) =~= initial_capability_diagnostics(catalog, *p, k as int, path@));
    out
}

fn capabilities_findings(
    catalog: &RpgScenarioCatalog,
    p: &RpgParticipantSetup,
    path: &String,
    derivation: &Option<crate::scenario::RpgValueDerivationFailure>,
) -> (out: Vec<RpgScenarioDiagnostic>)
    ensures
        diagnostic_texts(out@) == capabilities_findings_spec(catalog, *p, path@, *derivation),
{
    let mut out: Vec<RpgScenarioDiagnostic> = Vec::new();
    let ghost f = |k: int| initial_capability_diagnostics(catalog, *p, k, path@);
    let mut vitality: u64 = 0;
    let mut k: usize = 0;
    while k < p.capabilities.len()
        invariant
            f == (|k: int| initial_capability_diagnostics(catalog, *p, k, path@)),
            k <= p.capabilities@.len(),
            diagnostic_texts(out@) == concat_upto(k as int, f),
            vitality as int == vitality_count(p.capabilities@.take(k as int)),
            vitality <= k,
        decreases p.capabilities.len() - k,
    {
        proof {
            assert(p.capabilities@.take(k + 1).drop_last() =~= p.capabilities@.take(k as int));
        }
        if let RpgInitialCapability::Vitality { .. } = &p.capabilities[k] {
            vitality = vitality + 1;
        }
        let found = initial_capability_findings(catalog, p, k, path);
        append_findings(&mut out, found);
        k = k + 1;
    }
    proof {
        assert(p.capabilities@.take(k as int) =~= p.capabilities@);
    }
    if vitality != 1 {
        push_finding(
            &mut out,
            "RPG_SCENARIO_VITALITY_REQUIRED",
            join(path.as_str(), ".capabilities"),
            text("each participant requires exactly one vitality capability"),
        );
    }
    match derivation {
        Some(failure) => {
            let head = join3("cannot derive ruleset value ", failure.target_id.as_str(), ": ");
            push_finding(
                &mut out,
                failure.code.as_str(),
                join(path.as_str(), ".capabilities"),
                join(head.as_str(), failure.message.as_str()),
            );
        },
        None => {},
    }
    assert(diagnostic_texts(out@) =~= capabilities_findings_spec(catalog, *p, path@, *derivation));
    out
}

} // verus!

verus! {

// ---------------------------------------------------------------------------
// The whole scenario
// ---------------------------------------------------------------------------

/// The derivation failure supplied for participant `i`, if any.
pub open spec fn derivation_at(
    derivations: Seq<Option<crate::scenario::RpgValueDerivationFailure>>,
    i: int,
) -> Option<crate::scenario::RpgValueDerivationFailure> {
    if 0 <= i < derivations.len() {
        derivations[i]
    } else {
        None
    }
}

/// Every finding about participant `i`, in the order they are reported.
pub open spec fn participant_diagnostics(
    catalog: &RpgScenarioCatalog,
    scenario: &RpgScenario,
    derivations: Seq<Option<crate::scenario::RpgValueDerivationFailure>>,
    i: int,
) -> Seq<DiagnosticText> {
    let p = scenario.participants@[i];
    let path = participant_path(i);
    identity_diagnostics(scenario, i) + position_diagnostics(scenario, i) + definitions_diagnostics(
        catalog,
        p,
        path,
    ) + selection_diagnostics(catalog, p, path) + inventory_diagnostics(catalog, p, path)
        + capabilities_findings_spec(catalog, p, path, derivation_at(derivations, i))
}

pub open spec fn schema_supported(scenario: &RpgScenario) -> bool {
    scenario.schema.id@ == crate::scenario::RPG_SCENARIO_SCHEMA_ID@ && scenario.schema.version
        == crate::scenario::RPG_SCENARIO_SCHEMA_VERSION
}

/// Every finding about a scenario, in the order they are reported: schema,
/// bound PlayBundle, random source, board, each participant, the participant
/// count and the opening turn.
pub open spec fn scenario_diagnostics(
    catalog: &RpgScenarioCatalog,
    scenario: &RpgScenario,
    derivations: Seq<Option<crate::scenario::RpgValueDerivationFailure>>,
) -> Seq<DiagnosticText> {
    only_if(
        !schema_supported(scenario),
        one(
            "RPG_SCENARIO_SCHEMA_UNSUPPORTED"@,
            "$.schema"@,
            "expected "@ + crate::scenario::RPG_SCENARIO_SCHEMA_ID@ + "@"@ + crate::text::decimal(
                crate::scenario::RPG_SCENARIO_SCHEMA_VERSION as nat,
            ),
        ),
    ) + only_if(
        scenario.play_bundle_id@ != catalog.artifact_id@,
        one(
            "RPG_SCENARIO_PLAY_BUNDLE_MISMATCH"@,
            "$.playBundleId"@,
            "expected PlayBundle "@ + catalog.artifact_id@,
        ),
    ) + binding_diagnostics(&scenario.random_source) + crate::scenario::board_diagnostics(
        catalog,
        &scenario.board,
    ) + concat_upto(
        scenario.participants@.len() as int,
        |i: int| participant_diagnostics(catalog, scenario, derivations, i),
    ) + only_if(
        scenario.participants@.len() == 0,
        one(
            "RPG_SCENARIO_PARTICIPANTS_REQUIRED"@,
            "$.participants"@,
            "encounter scenario requires at least one participant"@,
        ),
    ) + turn_diagnostics(scenario)
}

fn participant_findings(
    catalog: &RpgScenarioCatalog,
    scenario: &RpgScenario,
    derivations: &Vec<Option<crate::scenario::RpgValueDerivationFailure>>,
    i: usize,
) -> (out: Vec<RpgScenarioDiagnostic>)
    requires
        i < scenario.participants@.len(),
    ensures
        diagnostic_texts(out@) == participant_diagnostics(catalog, scenario, derivations@, i as int),
{
    proof {
        reveal_strlit("");
    }
    let p = &scenario.participants[i];
    let path = indexed_path("$.participants", i, "");
    let mut out = identity_findings(scenario, i, &path);
    append_findings(&mut out, position_findings(scenario, i, &path));
    append_findings(&mut out, definitions_findings(catalog, p, &path));
    append_findings(&mut out, selection_findings(catalog, p, &path));
    append_findings(&mut out, inventory_findings(catalog, p, &path));
    let none: Option<crate::scenario::RpgValueDerivationFailure> = None;
    let derivation = if i < derivations.len() {
        &derivations[i]
    } else {
        &none
    };
    append_findings(&mut out, capabilities_findings(catalog, p, &path, derivation));
    out
}

/// Validates a scenario against the catalog of its compiled PlayBundle and
/// returns every finding, in report order. `derivations[i]` is what deriving
/// participant `i`'s ruleset values from its supplied values reported
/// (`None` when derivation succeeded).
pub fn validate_scenario(
    catalog: &RpgScenarioCatalog,
    scenario: &RpgScenario,
    derivations: &Vec<Option<crate::scenario::RpgValueDerivationFailure>>,
) -> (out: Vec<RpgScenarioDiagnostic>)
    ensures
        diagnostic_texts(out@) == scenario_diagnostics(catalog, scenario, derivations@),
{
    let mut out: Vec<RpgScenarioDiagnostic> = Vec::new();
    if scenario.schema.id != text(crate::scenario::RPG_SCENARIO_SCHEMA_ID)
        || scenario.schema.version != crate::scenario::RPG_SCENARIO_SCHEMA_VERSION {
        let mut message = join3("expected ", crate::scenario::RPG_SCENARIO_SCHEMA_ID, "@");
        crate::text::push_decimal(&mut message, crate::scenario::RPG_SCENARIO_SCHEMA_VERSION as u64);
        push_finding(&mut out, "RPG_SCENARIO_SCHEMA_UNSUPPORTED", text("$.schema"), message);
    }
    if scenario.play_bundle_id != catalog.artifact_id {
        push_finding(
            &mut out,
            "RPG_SCENARIO_PLAY_BUNDLE_MISMATCH",
            text("$.playBundleId"),
            join("expected PlayBundle ", catalog.artifact_id.as_str()),
        );
    }
    append_findings(&mut out, validate_binding(&scenario.random_source));
    append_findings(&mut out, crate::scenario::validate_board(catalog, &scenario.board));
    let ghost head = diagnostic_texts(out@);
    let ghost f = |i: int| participant_diagnostics(catalog, scenario, derivations@, i);
    let mut i: usize = 0;
    while i < scenario.participants.len()
        invariant
            f == (|i: int| participant_diagnostics(catalog, scenario, derivations@, i)),
            i <= scenario.participants@.len(),
            diagnostic_texts(out@) == head + concat_upto(i as int, f),
        decreases scenario.participants.len() - i,
    {
        append_findings(&mut out, participant_findings(catalog, scenario, derivations, i));
        proof {
            assert(head + concat_upto(i + 1, f) =~= head + concat_upto(i as int, f) + f(i as int));
        }
        i = i + 1;
    }
    if scenario.participants.len() == 0 {
        push_finding(
            &mut out,
            "RPG_SCENARIO_PARTICIPANTS_REQUIRED",
            text("$.participants"),
            text("encounter scenario requires at least one participant"),
        );
    }
    append_findings(&mut out, validate_turn(scenario));
    assert(diagnostic_texts(out@) =~= scenario_diagnostics(catalog, scenario, derivations@));
    out
}

/// Accepts a scenario exactly when validation reports nothing; otherwise
/// returns every finding.
pub fn check_scenario(
    catalog: &RpgScenarioCatalog,
    scenario: &RpgScenario,
    derivations: &Vec<Option<crate::scenario::RpgValueDerivationFailure>>,
) -> (r: Result<(), crate::scenario::RpgScenarioFailure>)
    ensures
        r is Ok <==> scenario_diagnostics(catalog, scenario, derivations@).len() == 0,
        r matches Err(f) ==> diagnostic_texts(f.diagnostics@) == scenario_diagnostics(
            catalog,
            scenario,
            derivations@,
        ),
{
    let diagnostics = validate_scenario(catalog, scenario, derivations);
    if diagnostics.len() == 0 {
        Ok(())
    } else {
        Err(crate::scenario::RpgScenarioFailure { diagnostics })
    }
}

/// Some finding carries `code`.
pub open spec fn reports(ds: Seq<DiagnosticText>, code: Seq<char>) -> bool {
    exists|i: int| 0 <= i < ds.len() && (#[trigger] ds[i]).0 == code
}

proof fn lemma_reports_concat(a: Seq<DiagnosticText>, b: Seq<DiagnosticText>, code: Seq<char>)
    ensures
        reports(a, code) || reports(b, code) ==> reports(a + b, code),
{
    if reports(a, code) {
        let i = choose|i: int| 0 <= i < a.len() && (#[trigger] a[i]).0 == code;
        assert((a + b)[i] == a[i]);
    } else if reports(b, code) {
        let i = choose|i: int| 0 <= i < b.len() && (#[trigger] b[i]).0 == code;
        assert((a + b)[a.len() + i] == b[i]);
    }
}

proof fn lemma_reports_upto(n: int, f: spec_fn(int) -> Seq<DiagnosticText>, i: int, code: Seq<char>)
    requires
        0 <= i < n,
        reports(f(i), code),
    ensures
        reports(concat_upto(n, f), code),
    decreases n,
{
    if i < n - 1 {
        lemma_reports_upto(n - 1, f, i, code);
    }
    lemma_reports_concat(concat_upto(n - 1, f), f(n - 1), code);
}

proof fn lemma_reports_seven(
    s1: Seq<DiagnosticText>,
    s2: Seq<DiagnosticText>,
    s3: Seq<DiagnosticText>,
    s4: Seq<DiagnosticText>,
    s5: Seq<DiagnosticText>,
    s6: Seq<DiagnosticText>,
    s7: Seq<DiagnosticText>,
    x: Seq<char>,
)
    requires
        reports(s1, x) || reports(s2, x) || reports(s5, x) || reports(s6, x) || reports(s7, x),
    ensures
        reports(s1 + s2 + s3 + s4 + s5 + s6 + s7, x),
{
    lemma_reports_concat(s1, s2, x);
    lemma_reports_concat(s1 + s2, s3, x);
    lemma_reports_concat(s1 + s2 + s3, s4, x);
    lemma_reports_concat(s1 + s2 + s3 + s4, s5, x);
    lemma_reports_concat(s1 + s2 + s3 + s4 + s5, s6, x);
    lemma_reports_concat(s1 + s2 + s3 + s4 + s5 + s6, s7, x);
}

proof fn lemma_duplicate_reported(
    catalog: &RpgScenarioCatalog,
    scenario: &RpgScenario,
    derivations: Seq<Option<crate::scenario::RpgValueDerivationFailure>>,
    q: int,
    i: int,
)
    requires
        0 <= q < i < scenario.participants@.len(),
        !is_blank(scenario.participants@[i].id@),
        scenario.participants@[q].id@ == scenario.participants@[i].id@,
    ensures
        reports(
            concat_upto(
                scenario.participants@.len() as int,
                |k: int| participant_diagnostics(catalog, scenario, derivations, k),
            ),
            "RPG_SCENARIO_PARTICIPANT_DUPLICATE"@,
        ),
{
    let code = "RPG_SCENARIO_PARTICIPANT_DUPLICATE"@;
    let ps = scenario.participants@;
    let ds = |k: int| participant_diagnostics(catalog, scenario, derivations, k);
    let p = ps[i];
    let path = participant_path(i);
    let dup = one(code, path + ".id"@, "duplicate participant "@ + p.id@);
    assert(exists|w: int| 0 <= w < i && (#[trigger] ps[w]).id@ == p.id@) by {
        assert(ps[q].id@ == p.id@);
    }
    assert(dup[0].0 == code);
    let l1 = only_if(
        is_blank(p.label@),
        one(
            "RPG_SCENARIO_PARTICIPANT_LABEL_EMPTY"@,
            path + ".label"@,
            "participant label must not be empty"@,
        ),
    );
    let l2 = only_if(
        is_blank(p.team_id@),
        one("RPG_SCENARIO_TEAM_ID_EMPTY"@, path + ".teamId"@, "team identity must not be empty"@),
    );
    let idd = identity_diagnostics(scenario, i);
    assert(idd == dup + l1 + l2);
    lemma_reports_concat(dup, l1, code);
    lemma_reports_concat(dup + l1, l2, code);
    let c1 = position_diagnostics(scenario, i);
    let c2 = definitions_diagnostics(catalog, p, path);
    let c3 = selection_diagnostics(catalog, p, path);
    let c4 = inventory_diagnostics(catalog, p, path);
    let c5 = capabilities_findings_spec(catalog, p, path, derivation_at(derivations, i));
    assert(ds(i) == idd + c1 + c2 + c3 + c4 + c5);
    lemma_reports_concat(idd, c1, code);
    lemma_reports_concat(idd + c1, c2, code);
    lemma_reports_concat(idd + c1 + c2, c3, code);
    lemma_reports_concat(idd + c1 + c2 + c3, c4, code);
    lemma_reports_concat(idd + c1 + c2 + c3 + c4, c5, code);
    lemma_reports_upto(ps.len() as int, ds, i, code);
}

/// Scenario validation runs every check: an unsupported schema, another
/// PlayBundle, no participants, a repeated participant identity and a zero
/// round or turn counter are each reported, whatever else is wrong.
pub proof fn lemma_scenario_validation_law(
    catalog: &RpgScenarioCatalog,
    scenario: &RpgScenario,
    derivations: Seq<Option<crate::scenario::RpgValueDerivationFailure>>,
)
    ensures
        !schema_supported(scenario) ==> reports(
            scenario_diagnostics(catalog, scenario, derivations),
            "RPG_SCENARIO_SCHEMA_UNSUPPORTED"@,
        ),
        scenario.play_bundle_id@ != catalog.artifact_id@ ==> reports(
            scenario_diagnostics(catalog, scenario, derivations),
            "RPG_SCENARIO_PLAY_BUNDLE_MISMATCH"@,
        ),
        scenario.participants@.len() == 0 ==> reports(
            scenario_diagnostics(catalog, scenario, derivations),
            "RPG_SCENARIO_PARTICIPANTS_REQUIRED"@,
        ),
        forall|q: int, i: int|
            0 <= q < i < scenario.participants@.len() && !is_blank(
                (#[trigger] scenario.participants@[i]).id@,
            ) && (#[trigger] scenario.participants@[q]).id@ == scenario.participants@[i].id@
                ==> reports(
                scenario_diagnostics(catalog, scenario, derivations),
                "RPG_SCENARIO_PARTICIPANT_DUPLICATE"@,
            ),
        scenario.turn.round == 0 || scenario.turn.turn == 0 ==> reports(
            scenario_diagnostics(catalog, scenario, derivations),
            "RPG_SCENARIO_TURN_COUNTER_INVALID"@,
        ),
{
    let ds = |k: int| participant_diagnostics(catalog, scenario, derivations, k);
    let s1 = only_if(
        !schema_supported(scenario),
        one(
            "RPG_SCENARIO_SCHEMA_UNSUPPORTED"@,
            "$.schema"@,
            "expected "@ + crate::scenario::RPG_SCENARIO_SCHEMA_ID@ + "@"@ + crate::text::decimal(
                crate::scenario::RPG_SCENARIO_SCHEMA_VERSION as nat,
            ),
        ),
    );
    let s2 = only_if(
        scenario.play_bundle_id@ != catalog.artifact_id@,
        one(
            "RPG_SCENARIO_PLAY_BUNDLE_MISMATCH"@,
            "$.playBundleId"@,
            "expected PlayBundle "@ + catalog.artifact_id@,
        ),
    );
    let s3 = binding_diagnostics(&scenario.random_source);
    let s4 = crate::scenario::board_diagnostics(catalog, &scenario.board);
    let s5 = concat_upto(scenario.participants@.len() as int, ds);
    let s6 = only_if(
        scenario.participants@.len() == 0,
        one(
            "RPG_SCENARIO_PARTICIPANTS_REQUIRED"@,
            "$.participants"@,
            "encounter scenario requires at least one participant"@,
        ),
    );
    let s7 = turn_diagnostics(scenario);
    assert(scenario_diagnostics(catalog, scenario, derivations) == s1 + s2 + s3 + s4 + s5 + s6 + s7);
    if !schema_supported(scenario) {
        assert(s1[0].0 == "RPG_SCENARIO_SCHEMA_UNSUPPORTED"@);
        lemma_reports_seven(s1, s2, s3, s4, s5, s6, s7, "RPG_SCENARIO_SCHEMA_UNSUPPORTED"@);
    }
    if scenario.play_bundle_id@ != catalog.artifact_id@ {
        assert(s2[0].0 == "RPG_SCENARIO_PLAY_BUNDLE_MISMATCH"@);
        lemma_reports_seven(s1, s2, s3, s4, s5, s6, s7, "RPG_SCENARIO_PLAY_BUNDLE_MISMATCH"@);
    }
    if scenario.participants@.len() == 0 {
        assert(s6[0].0 == "RPG_SCENARIO_PARTICIPANTS_REQUIRED"@);
        lemma_reports_seven(s1, s2, s3, s4, s5, s6, s7, "RPG_SCENARIO_PARTICIPANTS_REQUIRED"@);
    }
    if scenario.turn.round == 0 || scenario.turn.turn == 0 {
        let counter = one("RPG_SCENARIO_TURN_COUNTER_INVALID"@, "$.turn"@, "round and turn counters must be positive"@);
        let head = s7.subrange(0, s7.len() - 1);
        assert(s7 =~= head + counter) by {
            reveal_with_fuel(turn_diagnostics, 1);
        }
        assert(counter[0].0 == "RPG_SCENARIO_TURN_COUNTER_INVALID"@);
        lemma_reports_concat(head, counter, "RPG_SCENARIO_TURN_COUNTER_INVALID"@);
        lemma_reports_seven(s1, s2, s3, s4, s5, s6, s7, "RPG_SCENARIO_TURN_COUNTER_INVALID"@);
    }
    assert forall|q: int, i: int|
        0 <= q < i < scenario.participants@.len() && !is_blank(
            (#[trigger] scenario.participants@[i]).id@,
        ) && (#[trigger] scenario.participants@[q]).id@ == scenario.participants@[i].id@
        implies reports(
        scenario_diagnostics(catalog, scenario, derivations),
        "RPG_SCENARIO_PARTICIPANT_DUPLICATE"@,
    ) by {
        lemma_duplicate_reported(catalog, scenario, derivations, q, i);
        lemma_reports_seven(s1, s2, s3, s4, s5, s6, s7, "RPG_SCENARIO_PARTICIPANT_DUPLICATE"@);
    }
}

} // verus!
