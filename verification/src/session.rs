use vstd::prelude::*;

use crate::model::{
    last_index_where, rejection_text, resolution_rejection, RpgEntityState,
    RpgResolutionRejection, RpgTurnControl,
};
use crate::scenario::RpgScenario;
use crate::setup::{lists, participant_with_id};
use crate::text::{contains_text, decimal, join, join3, push_decimal, text};
use crate::turn::{encounter_outcome, is_living, participant_is_living, teams_contested, RpgEncounterOutcomeView};

verus! {

/// A proposed reaction choice, before random evidence is attached.
#[derive(Debug, Clone)]
pub struct RpgReactionProposal {
    pub expected_revision: u64,
    pub reaction_id: String,
    pub option_id: Option<String>,
}

/// A proposed turn control, before random evidence is attached.
#[derive(Debug, Clone)]
pub struct RpgTurnControlProposal {
    pub expected_revision: u64,
    pub actor_id: String,
    pub control: RpgTurnControl,
}

/// A reaction choice with the additional random evidence it consumes.
#[derive(Debug, Clone)]
pub struct RpgReactionCommand {
    pub expected_revision: u64,
    pub reaction_id: String,
    pub option_id: Option<String>,
    pub additional_random_values: Vec<u32>,
}

/// A turn control with the random evidence its end-turn saves consume.
#[derive(Debug, Clone)]
pub struct RpgTurnControlCommand {
    pub expected_revision: u64,
    pub actor_id: String,
    pub control: RpgTurnControl,
    pub random_values: Vec<u32>,
}

pub type RejectionText = (Seq<char>, Seq<char>, Seq<char>);

pub open spec fn refusal(code: Seq<char>, path: Seq<char>, message: Seq<char>) -> RejectionText {
    (code, path, message)
}

/// `expected state revision {expected}, but active revision is {actual}`.
pub open spec fn revision_refusal(expected: u64, actual: u64) -> RejectionText {
    refusal(
        "RPG_SESSION_REVISION_MISMATCH"@,
        "$.expectedRevision"@,
        "expected state revision "@ + decimal(expected as nat) + ", but active revision is "@
            + decimal(actual as nat),
    )
}

/// Refuses a command written against another state revision.
pub fn revision_rejection(expected: u64, actual: u64) -> (r: RpgResolutionRejection)
    ensures
        rejection_text(r) == revision_refusal(expected, actual),
{
    let mut message = text("expected state revision ");
    push_decimal(&mut message, expected);
    message = join(message.as_str(), ", but active revision is ");
    push_decimal(&mut message, actual);
    resolution_rejection("RPG_SESSION_REVISION_MISMATCH", text("$.expectedRevision"), message)
}

pub open spec fn unused_random_refusal(remaining: nat) -> RejectionText {
    refusal(
        "RPG_RANDOM_EVIDENCE_UNUSED"@,
        "$.randomValues"@,
        decimal(remaining) + " supplied random value(s) were not consumed"@,
    )
}

/// Refuses a command whose supplied random values were not all consumed.
pub fn unused_random_rejection(remaining: usize) -> (r: RpgResolutionRejection)
    ensures
        rejection_text(r) == unused_random_refusal(remaining as nat),
{
    let mut message = String::new();
    push_decimal(&mut message, remaining as u64);
    message = join(message.as_str(), " supplied random value(s) were not consumed");
    resolution_rejection("RPG_RANDOM_EVIDENCE_UNUSED", text("$.randomValues"), message)
}

/// Whether the scenario gives the actor the action (the last participant
/// record with the actor's identity decides).
pub open spec fn owns_action(scenario: &RpgScenario, actor_id: Seq<char>, action_id: Seq<char>) -> bool {
    let d = last_index_where(scenario.participants@, participant_with_id(actor_id));
    d >= 0 && lists(scenario.participants@[d].definition_ids@, action_id)
}

/// Why the authority refuses to start resolving a command before looking
/// at its targets: a pending reaction or save phase, a stale revision, a
/// completed encounter, another actor's turn, or an action the actor does
/// not own.
pub open spec fn command_refusal(
    reaction_pending: bool,
    turn_save_pending: bool,
    expected_revision: u64,
    revision: u64,
    entities: Seq<RpgEntityState>,
    scenario: &RpgScenario,
    current_actor_id: Seq<char>,
    actor_id: Seq<char>,
    action_id: Seq<char>,
) -> Option<RejectionText> {
    if reaction_pending {
        Some(
            refusal(
                "RPG_SESSION_REACTION_PENDING"@,
                "$.command"@,
                "resolve the pending reaction before submitting another command"@,
            ),
        )
    } else if turn_save_pending {
        Some(
            refusal(
                "RPG_SESSION_TURN_SAVE_PENDING"@,
                "$.command"@,
                "resolve the pending end-turn saves before submitting another command"@,
            ),
        )
    } else if expected_revision != revision {
        Some(revision_refusal(expected_revision, revision))
    } else if !teams_contested(entities) {
        Some(
            refusal(
                "RPG_ENCOUNTER_COMPLETED"@,
                "$.command"@,
                "the encounter has already completed"@,
            ),
        )
    } else if actor_id != current_actor_id {
        Some(
            refusal(
                "RPG_TURN_ACTOR_MISMATCH"@,
                "$.command.intent.actorId"@,
                "current actor is "@ + current_actor_id,
            ),
        )
    } else if !owns_action(scenario, actor_id, action_id) {
        Some(
            refusal(
                "RPG_ACTION_NOT_OWNED"@,
                "$.command.intent.actionId"@,
                "participant "@ + actor_id + " does not reference action "@ + action_id,
            ),
        )
    } else {
        None
    }
}

fn in_progress(entities: &Vec<RpgEntityState>) -> (b: bool)
    ensures
        b == teams_contested(entities@),
{
    match encounter_outcome(entities) {
        RpgEncounterOutcomeView::InProgress => true,
        _ => false,
    }
}

fn owns_action_exec(scenario: &RpgScenario, actor_id: &String, action_id: &String) -> (b: bool)
    ensures
        b == owns_action(scenario, actor_id@, action_id@),
{
    let ps = &scenario.participants;
    let mut d = ps.len();
    while d > 0
        invariant
            ps@ == scenario.participants@,
            d <= ps@.len(),
            forall|q: int| d <= q < ps@.len() ==> !participant_with_id(actor_id@)(#[trigger] ps@[q]),
        decreases d,
    {
        if ps[d - 1].id == *actor_id {
            proof {
                crate::model::lemma_last_index_is(ps@, participant_with_id(actor_id@), d - 1);
            }
            return contains_text(&ps[d - 1].definition_ids, action_id);
        }
        d = d - 1;
    }
    proof {
        crate::model::lemma_last_index_is(ps@, participant_with_id(actor_id@), -1);
    }
    false
}

/// The admission checks a submitted command passes before its intent is
/// resolved; `None` admits it.
pub fn command_admission_rejection(
    reaction_pending: bool,
    turn_save_pending: bool,
    expected_revision: u64,
    revision: u64,
    entities: &Vec<RpgEntityState>,
    scenario: &RpgScenario,
    current_actor_id: &String,
    actor_id: &String,
    action_id: &String,
) -> (r: Option<RpgResolutionRejection>)
    ensures
        match r {
            None => command_refusal(
                reaction_pending,
                turn_save_pending,
                expected_revision,
                revision,
                entities@,
                scenario,
                current_actor_id@,
                actor_id@,
                action_id@,
            ) is None,
            Some(x) => command_refusal(
                reaction_pending,
                turn_save_pending,
                expected_revision,
                revision,
                entities@,
                scenario,
                current_actor_id@,
                actor_id@,
                action_id@,
            ) == Some(rejection_text(x)),
        },
{
    if reaction_pending {
        return Some(
            resolution_rejection(
                "RPG_SESSION_REACTION_PENDING",
                text("$.command"),
                text("resolve the pending reaction before submitting another command"),
            ),
        );
    }
    if turn_save_pending {
        return Some(
            resolution_rejection(
                "RPG_SESSION_TURN_SAVE_PENDING",
                text("$.command"),
                text("resolve the pending end-turn saves before submitting another command"),
            ),
        );
    }
    if expected_revision != revision {
        return Some(revision_rejection(expected_revision, revision));
    }
    if !in_progress(entities) {
        return Some(
            resolution_rejection(
                "RPG_ENCOUNTER_COMPLETED",
                text("$.command"),
                text("the encounter has already completed"),
            ),
        );
    }
    if *actor_id != *current_actor_id {
        return Some(
            resolution_rejection(
                "RPG_TURN_ACTOR_MISMATCH",
                text("$.command.intent.actorId"),
                join("current actor is ", current_actor_id.as_str()),
            ),
        );
    }
    if !owns_action_exec(scenario, actor_id, action_id) {
        let head = join3("participant ", actor_id.as_str(), " does not reference action ");
        return Some(
            resolution_rejection(
                "RPG_ACTION_NOT_OWNED",
                text("$.command.intent.actionId"),
                join(head.as_str(), action_id.as_str()),
            ),
        );
    }
    None
}

/// Why a reaction is refused before it is resolved: a pending save phase,
/// no pending reaction, a revision other than the pending reaction's and the
/// authority's, or another reaction than the pending one.
pub open spec fn reaction_refusal(
    turn_save_pending: bool,
    pending_expected_revision: Option<u64>,
    pending_reaction_id: Seq<char>,
    revision: u64,
    command: &RpgReactionCommand,
) -> Option<RejectionText> {
    if turn_save_pending {
        Some(
            refusal(
                "RPG_SESSION_TURN_SAVE_PENDING"@,
                "$.reaction"@,
                "resolve the pending end-turn saves before submitting a reaction"@,
            ),
        )
    } else if pending_expected_revision is None {
        Some(
            refusal(
                "RPG_SESSION_REACTION_ABSENT"@,
                "$.reaction"@,
                "there is no pending reaction to resolve"@,
            ),
        )
    } else if command.expected_revision != pending_expected_revision->Some_0
        || command.expected_revision != revision {
        Some(revision_refusal(command.expected_revision, revision))
    } else if command.reaction_id@ != pending_reaction_id {
        Some(
            refusal(
                "RPG_REACTION_ID_MISMATCH"@,
                "$.reaction.reactionId"@,
                "expected reaction "@ + pending_reaction_id,
            ),
        )
    } else {
        None
    }
}

/// The admission checks a reaction passes before it resumes the pending
/// transaction; `pending_expected_revision` is the pending reaction's
/// revision (`None` when no reaction is pending) and `pending_reaction_id`
/// its reaction. `None` admits the reaction.
pub fn reaction_admission_rejection(
    turn_save_pending: bool,
    pending_expected_revision: Option<u64>,
    pending_reaction_id: &String,
    revision: u64,
    command: &RpgReactionCommand,
) -> (r: Option<RpgResolutionRejection>)
    ensures
        match r {
            None => reaction_refusal(
                turn_save_pending,
                pending_expected_revision,
                pending_reaction_id@,
                revision,
                command,
            ) is None,
            Some(x) => reaction_refusal(
                turn_save_pending,
                pending_expected_revision,
                pending_reaction_id@,
                revision,
                command,
            ) == Some(rejection_text(x)),
        },
{
    if turn_save_pending {
        return Some(
            resolution_rejection(
                "RPG_SESSION_TURN_SAVE_PENDING",
                text("$.reaction"),
                text("resolve the pending end-turn saves before submitting a reaction"),
            ),
        );
    }
    let expected = match pending_expected_revision {
        None => {
            return Some(
                resolution_rejection(
                    "RPG_SESSION_REACTION_ABSENT",
                    text("$.reaction"),
                    text("there is no pending reaction to resolve"),
                ),
            );
        },
        Some(expected) => expected,
    };
    if command.expected_revision != expected || command.expected_revision != revision {
        return Some(revision_rejection(command.expected_revision, revision));
    }
    if command.reaction_id != *pending_reaction_id {
        return Some(
            resolution_rejection(
                "RPG_REACTION_ID_MISMATCH",
                text("$.reaction.reactionId"),
                join("expected reaction ", pending_reaction_id.as_str()),
            ),
        );
    }
    None
}

/// What the authority does with a turn control before looking at save
/// candidates.
#[derive(Debug, Clone)]
pub enum RpgControlAdmission {
    /// Refuse the control.
    Rejected(RpgResolutionRejection),
    /// Resolve the pending end-turn saves with it.
    ResolvePendingSaves,
    /// Go on to the actor's save candidates.
    Admitted,
}

/// Why a turn control is refused before save candidates are considered, or
/// `None` when it is admitted or resolves a pending save phase.
pub open spec fn control_refusal(
    reaction_pending: bool,
    turn_save_pending: bool,
    command: &RpgTurnControlCommand,
    revision: u64,
    entities: Seq<RpgEntityState>,
    current_actor_id: Seq<char>,
) -> Option<RejectionText> {
    if reaction_pending {
        Some(
            refusal(
                "RPG_SESSION_REACTION_PENDING"@,
                "$.control"@,
                "resolve the pending reaction before ending the turn"@,
            ),
        )
    } else if turn_save_pending {
        None
    } else if command.expected_revision != revision {
        Some(revision_refusal(command.expected_revision, revision))
    } else if !teams_contested(entities) {
        Some(
            refusal(
                "RPG_ENCOUNTER_COMPLETED"@,
                "$.control"@,
                "the encounter has already completed"@,
            ),
        )
    } else if command.actor_id@ != current_actor_id {
        Some(
            refusal(
                "RPG_TURN_ACTOR_MISMATCH"@,
                "$.control.actorId"@,
                "current actor is "@ + current_actor_id,
            ),
        )
    } else if !is_living(entities, command.actor_id@) {
        Some(
            refusal(
                "RPG_TURN_ACTOR_INACTIVE"@,
                "$.control.actorId"@,
                "the current actor must have positive vitality"@,
            ),
        )
    } else {
        None
    }
}

/// Admits, refuses or routes a turn control: a pending reaction refuses it,
/// a pending save phase takes it as save evidence, and otherwise the
/// revision, the encounter, the actor and the actor's vitality are checked.
pub fn control_admission(
    reaction_pending: bool,
    turn_save_pending: bool,
    command: &RpgTurnControlCommand,
    revision: u64,
    entities: &Vec<RpgEntityState>,
    current_actor_id: &String,
) -> (r: RpgControlAdmission)
    ensures
        match r {
            RpgControlAdmission::Rejected(x) => control_refusal(
                reaction_pending,
                turn_save_pending,
                command,
                revision,
                entities@,
                current_actor_id@,
            ) == Some(rejection_text(x)),
            RpgControlAdmission::ResolvePendingSaves => !reaction_pending && turn_save_pending,
            RpgControlAdmission::Admitted => !reaction_pending && !turn_save_pending
                && control_refusal(
                reaction_pending,
                turn_save_pending,
                command,
                revision,
                entities@,
                current_actor_id@,
            ) is None,
        },
{
    if reaction_pending {
        return RpgControlAdmission::Rejected(
            resolution_rejection(
                "RPG_SESSION_REACTION_PENDING",
                text("$.control"),
                text("resolve the pending reaction before ending the turn"),
            ),
        );
    }
    if turn_save_pending {
        return RpgControlAdmission::ResolvePendingSaves;
    }
    if command.expected_revision != revision {
        return RpgControlAdmission::Rejected(revision_rejection(command.expected_revision, revision));
    }
    if !in_progress(entities) {
        return RpgControlAdmission::Rejected(
            resolution_rejection(
                "RPG_ENCOUNTER_COMPLETED",
                text("$.control"),
                text("the encounter has already completed"),
            ),
        );
    }
    if command.actor_id != *current_actor_id {
        return RpgControlAdmission::Rejected(
            resolution_rejection(
                "RPG_TURN_ACTOR_MISMATCH",
                text("$.control.actorId"),
                join("current actor is ", current_actor_id.as_str()),
            ),
        );
    }
    if !participant_is_living(entities, &command.actor_id) {
        return RpgControlAdmission::Rejected(
            resolution_rejection(
                "RPG_TURN_ACTOR_INACTIVE",
                text("$.control.actorId"),
                text("the current actor must have positive vitality"),
            ),
        );
    }
    RpgControlAdmission::Admitted
}

/// Why the end-turn control is unavailable in the encounter view: a pending
/// reaction, a pending save phase, a completed encounter or an inactive
/// current actor.
pub open spec fn control_unavailability_spec(
    reaction_pending: bool,
    turn_save_pending: bool,
    entities: Seq<RpgEntityState>,
    actor_id: Seq<char>,
) -> Option<RejectionText> {
    if reaction_pending {
        Some(
            refusal(
                "RPG_SESSION_REACTION_PENDING"@,
                "$.control"@,
                "resolve the pending reaction before ending the turn"@,
            ),
        )
    } else if turn_save_pending {
        Some(
            refusal(
                "RPG_SESSION_TURN_SAVE_PENDING"@,
                "$.control"@,
                "submit the required d20 save evidence to finish ending the turn"@,
            ),
        )
    } else if !teams_contested(entities) {
        Some(
            refusal(
                "RPG_ENCOUNTER_COMPLETED"@,
                "$.control"@,
                "the encounter has already completed"@,
            ),
        )
    } else if !is_living(entities, actor_id) {
        Some(
            refusal(
                "RPG_TURN_ACTOR_INACTIVE"@,
                "$.control.actorId"@,
                "the current actor must have positive vitality"@,
            ),
        )
    } else {
        None
    }
}

/// The end-turn control as the encounter view offers it.
#[derive(Debug, Clone)]
pub struct RpgTurnControlView {
    pub control: RpgTurnControl,
    pub label: String,
    pub available: bool,
    pub unavailable: Option<RpgResolutionRejection>,
}

/// The end-turn control of the encounter view: available exactly when
/// nothing makes it unavailable.
pub fn turn_control_view(
    reaction_pending: bool,
    turn_save_pending: bool,
    entities: &Vec<RpgEntityState>,
    actor_id: &String,
) -> (v: RpgTurnControlView)
    ensures
        v.control == RpgTurnControl::EndTurn,
        v.label@ == "End turn"@,
        v.available == v.unavailable is None,
        match v.unavailable {
            None => control_unavailability_spec(
                reaction_pending,
                turn_save_pending,
                entities@,
                actor_id@,
            ) is None,
            Some(x) => control_unavailability_spec(
                reaction_pending,
                turn_save_pending,
                entities@,
                actor_id@,
            ) == Some(rejection_text(x)),
        },
{
    let unavailable = if reaction_pending {
        Some(
            resolution_rejection(
                "RPG_SESSION_REACTION_PENDING",
                text("$.control"),
                text("resolve the pending reaction before ending the turn"),
            ),
        )
    } else if turn_save_pending {
        Some(
            resolution_rejection(
                "RPG_SESSION_TURN_SAVE_PENDING",
                text("$.control"),
                text("submit the required d20 save evidence to finish ending the turn"),
            ),
        )
    } else if !in_progress(entities) {
        Some(
            resolution_rejection(
                "RPG_ENCOUNTER_COMPLETED",
                text("$.control"),
                text("the encounter has already completed"),
            ),
        )
    } else if !participant_is_living(entities, actor_id) {
        Some(
            resolution_rejection(
                "RPG_TURN_ACTOR_INACTIVE",
                text("$.control.actorId"),
                text("the current actor must have positive vitality"),
            ),
        )
    } else {
        None
    };
    let available = unavailable.is_none();
    RpgTurnControlView { control: RpgTurnControl::EndTurn, label: text("End turn"), available, unavailable }
}

/// Why an action of the encounter view is unavailable: a pending phase
/// blocks every action; otherwise an action without legal options reports
/// the first refusal met while projecting them, or that it has none.
pub open spec fn action_unavailability_spec(
    reaction_pending: bool,
    turn_save_pending: bool,
    has_options: bool,
    first_refusal: Option<RejectionText>,
) -> Option<RejectionText> {
    if turn_save_pending {
        Some(
            refusal(
                "RPG_SESSION_TURN_SAVE_PENDING"@,
                "$.action"@,
                "resolve the pending end-turn saves before choosing an action"@,
            ),
        )
    } else if reaction_pending {
        Some(
            refusal(
                "RPG_SESSION_REACTION_PENDING"@,
                "$.action"@,
                "resolve the pending reaction before choosing an action"@,
            ),
        )
    } else if has_options {
        None
    } else {
        match first_refusal {
            Some(x) => Some(x),
            None => Some(
                refusal(
                    "RPG_ACTION_NO_LEGAL_OPTIONS"@,
                    "$.action.options"@,
                    "the action has no legal authority options in the current state"@,
                ),
            ),
        }
    }
}

pub open spec fn optional_text(r: Option<RpgResolutionRejection>) -> Option<RejectionText> {
    match r {
        Some(x) => Some(rejection_text(x)),
        None => None,
    }
}

/// Decides whether an action of the encounter view is unavailable, and why.
/// `has_options` says whether projection found legal options (a pending
/// phase clears them), `first_rejection` the first refusal met while
/// projecting them.
pub fn action_unavailability(
    reaction_pending: bool,
    turn_save_pending: bool,
    has_options: bool,
    first_rejection: Option<RpgResolutionRejection>,
) -> (r: Option<RpgResolutionRejection>)
    ensures
        optional_text(r) == action_unavailability_spec(
            reaction_pending,
            turn_save_pending,
            has_options,
            optional_text(first_rejection),
        ),
{
    if turn_save_pending {
        return Some(
            resolution_rejection(
                "RPG_SESSION_TURN_SAVE_PENDING",
                text("$.action"),
                text("resolve the pending end-turn saves before choosing an action"),
            ),
        );
    }
    if reaction_pending {
        return Some(
            resolution_rejection(
                "RPG_SESSION_REACTION_PENDING",
                text("$.action"),
                text("resolve the pending reaction before choosing an action"),
            ),
        );
    }
    if has_options {
        return None;
    }
    match first_rejection {
        Some(x) => Some(x),
        None => Some(
            resolution_rejection(
                "RPG_ACTION_NO_LEGAL_OPTIONS",
                text("$.action.options"),
                text("the action has no legal authority options in the current state"),
            ),
        ),
    }
}

/// Where an admitted turn control goes once its save candidates are known.
#[derive(Debug, Clone)]
pub enum RpgControlRoute {
    /// Refuse the control.
    Rejected(RpgResolutionRejection),
    /// Open the end-turn save phase and wait for its evidence.
    AwaitSaves,
    /// End the turn now.
    Advance,
}

/// Routes an admitted turn control: with saves due it may carry no random
/// values and opens the save phase; without saves any random value it
/// carries is unused evidence; otherwise the turn ends.
pub fn control_save_route(saves_due: bool, random_values: usize) -> (r: RpgControlRoute)
    ensures
        saves_due && random_values > 0 ==> (r matches RpgControlRoute::Rejected(x) && rejection_text(x)
            == refusal(
            "RPG_EFFECT_SAVE_PHASE_REQUIRED"@,
            "$.control.randomValues"@,
            "end-turn save evidence may only be submitted after authority opens the typed save phase"@,
        )),
        saves_due && random_values == 0 ==> r is AwaitSaves,
        !saves_due && random_values > 0 ==> (r matches RpgControlRoute::Rejected(x) && rejection_text(x)
            == unused_random_refusal(random_values as nat)),
        !saves_due && random_values == 0 ==> r is Advance,
{
    if saves_due {
        if random_values > 0 {
            return RpgControlRoute::Rejected(
                resolution_rejection(
                    "RPG_EFFECT_SAVE_PHASE_REQUIRED",
                    text("$.control.randomValues"),
                    text(
                        "end-turn save evidence may only be submitted after authority opens the typed save phase",
                    ),
                ),
            );
        }
        return RpgControlRoute::AwaitSaves;
    }
    if random_values > 0 {
        return RpgControlRoute::Rejected(unused_random_rejection(random_values));
    }
    RpgControlRoute::Advance
}

} // verus!
