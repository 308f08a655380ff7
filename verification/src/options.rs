use vstd::prelude::*;

use crate::area::{
    area_projection, cell_views, identities_distinct, projection_matches, RpgAreaProjection,
    RpgLineOfEffectRequirement, RpgTargetSelector,
};
use crate::board::{RpgBoardSetup, RpgCellSetup};
use crate::intent::{
    binding_named, binding_wrong, board_cell, board_cell_named, board_cell_of,
    cell_binding_refusal, cell_target_views, destination_listed, matched_bindings,
    movement_refusal, unreachable_in, RpgIntentCellTarget, RpgTargetKind,
};
use crate::model::{
    copy_rejection, entity_index, find_entity, first_index_where, lemma_first_index_is,
    lemma_first_index_where, rejection_text, resolution_rejection, RpgEntityState,
    RpgResolutionRejection,
};
use crate::movement::{copy_texts, RpgCellPathView};
use crate::replay::{same_fingerprint, same_fingerprint_exec, StateFingerprint};
use crate::restore::RpgIntentItemBinding;
use crate::session::RejectionText;
use crate::sight::{line_of_effect_blockers, line_of_effect_projection, line_of_effect_reason};
use crate::text::{decimal, join, push_decimal, text, texts};
use crate::turn::{
    inactive_target, living_intent_refusal, living_intent_rejection, RpgTurnState,
};

verus! {

/// A legal-looking participant left out of an action's options because the
/// actor cannot trace a line of effect to it.
#[derive(Debug, Clone)]
pub struct RpgFilteredParticipantOptionView {
    pub participant_id: String,
    pub reason: String,
    pub blocking_cell_ids: Vec<String>,
}

/// A cell left out of an action's options because the actor cannot trace a
/// line of effect to it.
#[derive(Debug, Clone)]
pub struct RpgFilteredCellOptionView {
    pub cell_id: String,
    pub reason: String,
    pub blocking_cell_ids: Vec<String>,
}

/// The participants an action may target, those that line of effect
/// filtered out, and the first refusal met while checking the others.
#[derive(Debug, Clone)]
pub struct RpgParticipantOptions {
    pub participant_ids: Vec<String>,
    pub filtered_participants: Vec<RpgFilteredParticipantOptionView>,
    pub first_rejection: Option<RpgResolutionRejection>,
}

/// The text of a filtered option: its identity, the reason and the
/// blocking cells.
pub type FilteredText = (Seq<char>, Seq<char>, Seq<Seq<char>>);

pub open spec fn filtered_participant_text(v: RpgFilteredParticipantOptionView) -> FilteredText {
    (v.participant_id@, v.reason@, texts(v.blocking_cell_ids@))
}

pub open spec fn filtered_cell_text(v: RpgFilteredCellOptionView) -> FilteredText {
    (v.cell_id@, v.reason@, texts(v.blocking_cell_ids@))
}

/// What becomes of one candidate of an action's options.
pub enum OptionVerdict {
    /// An entity the check needs is missing: left out without a reason.
    Dropped,
    /// Line of effect is not clear.
    Filtered { reason: Seq<char>, blockers: Seq<Seq<char>> },
    /// The authority refuses the intent that targets it.
    Refused { rejection: RejectionText },
    /// Offered.
    Listed,
}

/// The verdict on one candidate target of a participant-targeting action:
/// line of effect first (when required), then the living-participant rule,
/// then the rules' own preflight verdict on the intent.
pub open spec fn participant_verdict(
    cells: Seq<RpgCellSetup>,
    entities: Seq<RpgEntityState>,
    actor_id: Seq<char>,
    target_id: String,
    line_of_effect: RpgLineOfEffectRequirement,
    preflight: Option<RpgResolutionRejection>,
) -> OptionVerdict {
    let a = entity_index(entities, actor_id);
    let t = entity_index(entities, target_id@);
    let required = line_of_effect == RpgLineOfEffectRequirement::Required;
    if required && (a < 0 || t < 0) {
        OptionVerdict::Dropped
    } else if required && line_of_effect_reason(
        cells,
        entities[a].position,
        entities[t].position,
    ) is Some {
        OptionVerdict::Filtered {
            reason: line_of_effect_reason(
                cells,
                entities[a].position,
                entities[t].position,
            ).unwrap().spelling(),
            blockers: line_of_effect_blockers(cells, entities[a].position, entities[t].position),
        }
    } else {
        match living_intent_refusal(entities, actor_id, seq![target_id]) {
            Some(x) => OptionVerdict::Refused { rejection: x },
            None => match preflight {
                Some(x) => OptionVerdict::Refused { rejection: rejection_text(x) },
                None => OptionVerdict::Listed,
            },
        }
    }
}

/// Folds one verdict into the options gathered so far: what is offered,
/// the filtered options and the first refusal (an earlier one is kept).
pub open spec fn fold_verdicts<L>(
    prior: (Seq<L>, Seq<FilteredText>, Option<RejectionText>),
    offered: L,
    id: Seq<char>,
    verdict: OptionVerdict,
) -> (Seq<L>, Seq<FilteredText>, Option<RejectionText>) {
    match verdict {
        OptionVerdict::Dropped => prior,
        OptionVerdict::Filtered { reason, blockers } => (
            prior.0,
            prior.1.push((id, reason, blockers)),
            prior.2,
        ),
        OptionVerdict::Refused { rejection } => (
            prior.0,
            prior.1,
            if prior.2 is Some {
                prior.2
            } else {
                Some(rejection)
            },
        ),
        OptionVerdict::Listed => (prior.0.push(offered), prior.1, prior.2),
    }
}

/// The participant options of an action over its candidate targets, in
/// candidate order.
pub open spec fn participant_outcome(
    cells: Seq<RpgCellSetup>,
    entities: Seq<RpgEntityState>,
    actor_id: Seq<char>,
    candidates: Seq<String>,
    line_of_effect: RpgLineOfEffectRequirement,
    preflight: Seq<Option<RpgResolutionRejection>>,
    first: Option<RejectionText>,
) -> (Seq<Seq<char>>, Seq<FilteredText>, Option<RejectionText>)
    decreases candidates.len(),
{
    if candidates.len() == 0 {
        (Seq::empty(), Seq::empty(), first)
    } else {
        let k = candidates.len() - 1;
        fold_verdicts(
            participant_outcome(
                cells,
                entities,
                actor_id,
                candidates.drop_last(),
                line_of_effect,
                preflight,
                first,
            ),
            candidates[k]@,
            candidates[k]@,
            participant_verdict(cells, entities, actor_id, candidates[k], line_of_effect, preflight[k]),
        )
    }
}

pub open spec fn rejection_option_text(r: Option<RpgResolutionRejection>) -> Option<
    RejectionText,
> {
    match r {
        Some(x) => Some(rejection_text(x)),
        None => None,
    }
}

/// Filters the candidate targets of a participant-targeting action.
///
/// `preflight[k]` is the rules' verdict on the intent that targets
/// `candidate_ids[k]` alone; `first_rejection` is a refusal already met for
/// the action (it is kept ahead of any found here).
pub fn participant_options(
    board: &RpgBoardSetup,
    entities: &Vec<RpgEntityState>,
    actor_id: &String,
    candidate_ids: &Vec<String>,
    line_of_effect: RpgLineOfEffectRequirement,
    preflight: &Vec<Option<RpgResolutionRejection>>,
    first_rejection: Option<RpgResolutionRejection>,
) -> (r: RpgParticipantOptions)
    requires
        preflight@.len() == candidate_ids@.len(),
    ensures
        (
            texts(r.participant_ids@),
            r.filtered_participants@.map_values(|v| filtered_participant_text(v)),
            rejection_option_text(r.first_rejection),
        ) == participant_outcome(
            board.cells@,
            entities@,
            actor_id@,
            candidate_ids@,
            line_of_effect,
            preflight@,
            rejection_option_text(first_rejection),
        ),
{
    let ghost first = rejection_option_text(first_rejection);
    let mut listed: Vec<String> = Vec::new();
    let mut filtered: Vec<RpgFilteredParticipantOptionView> = Vec::new();
    let mut refusal = first_rejection;
    let required = match line_of_effect {
        RpgLineOfEffectRequirement::Required => true,
        RpgLineOfEffectRequirement::NotRequired => false,
    };
    let mut k: usize = 0;
    while k < candidate_ids.len()
        invariant
            k <= candidate_ids@.len(),
            preflight@.len() == candidate_ids@.len(),
            required == (line_of_effect == RpgLineOfEffectRequirement::Required),
            (
                texts(listed@),
                filtered@.map_values(|v| filtered_participant_text(v)),
                rejection_option_text(refusal),
            ) == participant_outcome(
                board.cells@,
                entities@,
                actor_id@,
                candidate_ids@.take(k as int),
                line_of_effect,
                preflight@,
                first,
            ),
        decreases candidate_ids.len() - k,
    {
        let target_id = &candidate_ids[k];
        let ghost prior = (
            texts(listed@),
            filtered@.map_values(|v| filtered_participant_text(v)),
            rejection_option_text(refusal),
        );
        let ghost verdict = participant_verdict(
            board.cells@,
            entities@,
            actor_id@,
            candidate_ids@[k as int],
            line_of_effect,
            preflight@[k as int],
        );
        proof {
            let taken = candidate_ids@.take(k + 1);
            assert(taken.drop_last() =~= candidate_ids@.take(k as int));
            assert(taken[k as int] == candidate_ids@[k as int]);
            assert(participant_outcome(
                board.cells@,
                entities@,
                actor_id@,
                taken,
                line_of_effect,
                preflight@,
                first,
            ) == fold_verdicts(prior, candidate_ids@[k as int]@, candidate_ids@[k as int]@, verdict));
        }
        let mut decided = false;
        if required {
            let a = find_entity(entities, actor_id);
            let t = find_entity(entities, target_id);
            match (a, t) {
                (Some(a), Some(t)) => {
                    let projection = line_of_effect_projection(
                        board,
                        entities[a].position,
                        entities[t].position,
                    );
                    if !projection.clear {
                        let reason = match projection.reason {
                            Some(reason) => text(reason.as_str()),
                            None => text("lineOfEffectBlocked"),
                        };
                        let view = RpgFilteredParticipantOptionView {
                            participant_id: target_id.clone(),
                            reason,
                            blocking_cell_ids: projection.blocking_cell_ids,
                        };
                        let ghost before = filtered@;
                        filtered.push(view);
                        proof {
                            assert(filtered@.map_values(|v| filtered_participant_text(v))
                                =~= before.map_values(|v| filtered_participant_text(v)).push(
                                filtered_participant_text(view),
                            ));
                        }
                        decided = true;
                    }
                },
                _ => {
                    decided = true;
                },
            }
        }
        if !decided {
            let mut targets: Vec<String> = Vec::new();
            targets.push(target_id.clone());
            assert(targets@ =~= seq![candidate_ids@[k as int]]);
            match living_intent_rejection(entities, actor_id, &targets) {
                Some(x) => {
                    if refusal.is_none() {
                        refusal = Some(x);
                    }
                },
                None => match &preflight[k] {
                    Some(x) => {
                        if refusal.is_none() {
                            refusal = Some(copy_rejection(x));
                        }
                    },
                    None => {
                        let ghost before = listed@;
                        listed.push(target_id.clone());
                        proof {
                            assert(texts(listed@) =~= texts(before).push(target_id@));
                        }
                    },
                },
            }
        }
        k = k + 1;
    }
    proof {
        assert(candidate_ids@.take(candidate_ids@.len() as int) =~= candidate_ids@);
    }
    RpgParticipantOptions { participant_ids: listed, filtered_participants: filtered, first_rejection: refusal }
}

/// The paths an action may move along, the destinations that line of effect
/// filtered out, and the first refusal met while checking the others.
#[derive(Debug, Clone)]
pub struct RpgCellOptions {
    pub cell_paths: Vec<RpgCellPathView>,
    pub filtered_cells: Vec<RpgFilteredCellOptionView>,
    pub first_rejection: Option<RpgResolutionRejection>,
}

/// The text of a path: destination, traversed cells and cost.
pub type PathText = (Seq<char>, Seq<Seq<char>>, u32);

pub open spec fn path_text(p: RpgCellPathView) -> PathText {
    (p.destination_cell_id@, texts(p.cell_ids@), p.movement_cost)
}

/// The verdict on one reachable destination of a cell-targeting action: a
/// destination that names no board cell is left out, then line of effect
/// from the actor (when required), then the rules' preflight verdict on the
/// intent that selects that cell.
pub open spec fn cell_verdict(
    board: &RpgBoardSetup,
    entities: Seq<RpgEntityState>,
    actor_id: Seq<char>,
    path: RpgCellPathView,
    line_of_effect: RpgLineOfEffectRequirement,
    preflight: Option<RpgResolutionRejection>,
) -> OptionVerdict {
    let cells = board.cells@;
    let c = board_cell(board, path.destination_cell_id@);
    let a = entity_index(entities, actor_id);
    let required = line_of_effect == RpgLineOfEffectRequirement::Required;
    if c < 0 || (required && a < 0) {
        OptionVerdict::Dropped
    } else if required && line_of_effect_reason(cells, entities[a].position, cells[c].position) is Some {
        OptionVerdict::Filtered {
            reason: line_of_effect_reason(
                cells,
                entities[a].position,
                cells[c].position,
            ).unwrap().spelling(),
            blockers: line_of_effect_blockers(cells, entities[a].position, cells[c].position),
        }
    } else {
        match preflight {
            Some(x) => OptionVerdict::Refused { rejection: rejection_text(x) },
            None => OptionVerdict::Listed,
        }
    }
}

/// The cell options of an action over its reachable paths, in path order.
pub open spec fn cell_outcome(
    board: &RpgBoardSetup,
    entities: Seq<RpgEntityState>,
    actor_id: Seq<char>,
    paths: Seq<RpgCellPathView>,
    line_of_effect: RpgLineOfEffectRequirement,
    preflight: Seq<Option<RpgResolutionRejection>>,
    first: Option<RejectionText>,
) -> (Seq<PathText>, Seq<FilteredText>, Option<RejectionText>)
    decreases paths.len(),
{
    if paths.len() == 0 {
        (Seq::empty(), Seq::empty(), first)
    } else {
        let k = paths.len() - 1;
        let c = board_cell(board, paths[k].destination_cell_id@);
        fold_verdicts(
            cell_outcome(
                board,
                entities,
                actor_id,
                paths.drop_last(),
                line_of_effect,
                preflight,
                first,
            ),
            path_text(paths[k]),
            board.cells@[c].id@,
            cell_verdict(board, entities, actor_id, paths[k], line_of_effect, preflight[k]),
        )
    }
}

fn copy_path(p: &RpgCellPathView) -> (r: RpgCellPathView)
    ensures
        path_text(r) == path_text(*p),
{
    RpgCellPathView {
        destination_cell_id: p.destination_cell_id.clone(),
        cell_ids: copy_texts(&p.cell_ids),
        movement_cost: p.movement_cost,
    }
}

/// Filters the reachable paths of a cell-targeting action.
///
/// `preflight[k]` is the rules' verdict on the intent that selects the
/// destination of `paths[k]`; `first_rejection` is a refusal already met for
/// the action (it is kept ahead of any found here).
pub fn cell_options(
    board: &RpgBoardSetup,
    entities: &Vec<RpgEntityState>,
    actor_id: &String,
    paths: &Vec<RpgCellPathView>,
    line_of_effect: RpgLineOfEffectRequirement,
    preflight: &Vec<Option<RpgResolutionRejection>>,
    first_rejection: Option<RpgResolutionRejection>,
) -> (r: RpgCellOptions)
    requires
        preflight@.len() == paths@.len(),
    ensures
        (
            r.cell_paths@.map_values(|p| path_text(p)),
            r.filtered_cells@.map_values(|v| filtered_cell_text(v)),
            rejection_option_text(r.first_rejection),
        ) == cell_outcome(
            board,
            entities@,
            actor_id@,
            paths@,
            line_of_effect,
            preflight@,
            rejection_option_text(first_rejection),
        ),
{
    let ghost first = rejection_option_text(first_rejection);
    let mut listed: Vec<RpgCellPathView> = Vec::new();
    let mut filtered: Vec<RpgFilteredCellOptionView> = Vec::new();
    let mut refusal = first_rejection;
    let required = match line_of_effect {
        RpgLineOfEffectRequirement::Required => true,
        RpgLineOfEffectRequirement::NotRequired => false,
    };
    let mut k: usize = 0;
    while k < paths.len()
        invariant
            k <= paths@.len(),
            preflight@.len() == paths@.len(),
            required == (line_of_effect == RpgLineOfEffectRequirement::Required),
            (
                listed@.map_values(|p| path_text(p)),
                filtered@.map_values(|v| filtered_cell_text(v)),
                rejection_option_text(refusal),
            ) == cell_outcome(
                board,
                entities@,
                actor_id@,
                paths@.take(k as int),
                line_of_effect,
                preflight@,
                first,
            ),
        decreases paths.len() - k,
    {
        let path = &paths[k];
        let ghost prior = (
            listed@.map_values(|p| path_text(p)),
            filtered@.map_values(|v| filtered_cell_text(v)),
            rejection_option_text(refusal),
        );
        let ghost c = board_cell(board, path.destination_cell_id@);
        let ghost verdict = cell_verdict(
            board,
            entities@,
            actor_id@,
            paths@[k as int],
            line_of_effect,
            preflight@[k as int],
        );
        proof {
            let taken = paths@.take(k + 1);
            assert(taken.drop_last() =~= paths@.take(k as int));
            assert(taken[k as int] == paths@[k as int]);
            assert(cell_outcome(
                board,
                entities@,
                actor_id@,
                taken,
                line_of_effect,
                preflight@,
                first,
            ) == fold_verdicts(prior, path_text(*path), board.cells@[c].id@, verdict));
        }
        match board_cell_of(board, &path.destination_cell_id) {
            None => {},
            Some(c) => {
                let mut decided = false;
                if required {
                    match find_entity(entities, actor_id) {
                        Some(a) => {
                            let projection = line_of_effect_projection(
                                board,
                                entities[a].position,
                                board.cells[c].position,
                            );
                            if !projection.clear {
                                let reason = match projection.reason {
                                    Some(reason) => text(reason.as_str()),
                                    None => text("lineOfEffectBlocked"),
                                };
                                let view = RpgFilteredCellOptionView {
                                    cell_id: board.cells[c].id.clone(),
                                    reason,
                                    blocking_cell_ids: projection.blocking_cell_ids,
                                };
                                let ghost before = filtered@;
                                filtered.push(view);
                                proof {
                                    assert(filtered@.map_values(|v| filtered_cell_text(v))
                                        =~= before.map_values(|v| filtered_cell_text(v)).push(
                                        filtered_cell_text(view),
                                    ));
                                }
                                decided = true;
                            }
                        },
                        None => {
                            decided = true;
                        },
                    }
                }
                if !decided {
                    match &preflight[k] {
                        Some(x) => {
                            if refusal.is_none() {
                                refusal = Some(copy_rejection(x));
                            }
                        },
                        None => {
                            let copy = copy_path(path);
                            let ghost before = listed@;
                            listed.push(copy);
                            proof {
                                assert(listed@.map_values(|p| path_text(p)) =~= before.map_values(
                                    |p| path_text(p),
                                ).push(path_text(copy)));
                            }
                        },
                    }
                }
            },
        }
        k = k + 1;
    }
    proof {
        assert(paths@.take(paths@.len() as int) =~= paths@);
    }
    RpgCellOptions { cell_paths: listed, filtered_cells: filtered, first_rejection: refusal }
}

/// The anchors an area action may use, with their projections, the anchors
/// that line of effect filtered out, and the first refusal met while
/// checking the others.
#[derive(Debug, Clone)]
pub struct RpgAreaOptions {
    pub area_options: Vec<RpgAreaProjection>,
    pub filtered_cells: Vec<RpgFilteredCellOptionView>,
    pub first_rejection: Option<RpgResolutionRejection>,
}

/// The verdict on one board cell as the anchor of an area action: line of
/// effect from the actor (when required), then whether the area projects at
/// all, then the rules' preflight verdict on the intent built from the
/// projection.
pub open spec fn area_verdict(
    board: &RpgBoardSetup,
    entities: Seq<RpgEntityState>,
    actor_id: Seq<char>,
    targets: RpgTargetSelector,
    anchor: RpgCellSetup,
    preflight: Option<RpgResolutionRejection>,
) -> OptionVerdict {
    let cells = board.cells@;
    let a = entity_index(entities, actor_id);
    let required = targets.line_of_effect == RpgLineOfEffectRequirement::Required;
    if required && a < 0 {
        OptionVerdict::Dropped
    } else if required && line_of_effect_reason(cells, entities[a].position, anchor.position) is Some {
        OptionVerdict::Filtered {
            reason: line_of_effect_reason(
                cells,
                entities[a].position,
                anchor.position,
            ).unwrap().spelling(),
            blockers: line_of_effect_blockers(cells, entities[a].position, anchor.position),
        }
    } else if projection_matches(board, entities, actor_id, targets, anchor.id@, None) {
        OptionVerdict::Dropped
    } else {
        match preflight {
            Some(x) => OptionVerdict::Refused { rejection: rejection_text(x) },
            None => OptionVerdict::Listed,
        }
    }
}

/// The area options of an action over the board's cells as anchors, in
/// board order: the anchors offered, the filtered anchors and the first
/// refusal.
pub open spec fn area_outcome(
    board: &RpgBoardSetup,
    entities: Seq<RpgEntityState>,
    actor_id: Seq<char>,
    targets: RpgTargetSelector,
    anchors: Seq<RpgCellSetup>,
    preflight: Seq<Option<RpgResolutionRejection>>,
    first: Option<RejectionText>,
) -> (Seq<Seq<char>>, Seq<FilteredText>, Option<RejectionText>)
    decreases anchors.len(),
{
    if anchors.len() == 0 {
        (Seq::empty(), Seq::empty(), first)
    } else {
        let k = anchors.len() - 1;
        fold_verdicts(
            area_outcome(board, entities, actor_id, targets, anchors.drop_last(), preflight, first),
            anchors[k].id@,
            anchors[k].id@,
            area_verdict(board, entities, actor_id, targets, anchors[k], preflight[k]),
        )
    }
}

/// Lists the anchors of an area action over the board's cells.
///
/// `preflight[k]` is the rules' verdict on the intent built from the
/// projection anchored on `board.cells[k]` (its included participants and
/// cells); `first_rejection` is a refusal already met for the action (it is
/// kept ahead of any found here).
pub fn area_options(
    board: &RpgBoardSetup,
    entities: &Vec<RpgEntityState>,
    actor_id: &String,
    targets: &RpgTargetSelector,
    preflight: &Vec<Option<RpgResolutionRejection>>,
    first_rejection: Option<RpgResolutionRejection>,
) -> (r: RpgAreaOptions)
    requires
        identities_distinct(entities@),
        preflight@.len() == board.cells@.len(),
    ensures
        (
            r.area_options@.map_values(|p: RpgAreaProjection| p.anchor_cell_id@),
            r.filtered_cells@.map_values(|v| filtered_cell_text(v)),
            rejection_option_text(r.first_rejection),
        ) == area_outcome(
            board,
            entities@,
            actor_id@,
            *targets,
            board.cells@,
            preflight@,
            rejection_option_text(first_rejection),
        ),
        forall|i: int|
            0 <= i < r.area_options@.len() ==> projection_matches(
                board,
                entities@,
                actor_id@,
                *targets,
                (#[trigger] r.area_options@[i]).anchor_cell_id@,
                Some(r.area_options@[i]),
            ),
{
    let ghost first = rejection_option_text(first_rejection);
    let cells = &board.cells;
    let mut listed: Vec<RpgAreaProjection> = Vec::new();
    let mut filtered: Vec<RpgFilteredCellOptionView> = Vec::new();
    let mut refusal = first_rejection;
    let required = match targets.line_of_effect {
        RpgLineOfEffectRequirement::Required => true,
        RpgLineOfEffectRequirement::NotRequired => false,
    };
    let mut k: usize = 0;
    while k < cells.len()
        invariant
            cells@ == board.cells@,
            k <= cells@.len(),
            identities_distinct(entities@),
            preflight@.len() == cells@.len(),
            required == (targets.line_of_effect == RpgLineOfEffectRequirement::Required),
            (
                listed@.map_values(|p: RpgAreaProjection| p.anchor_cell_id@),
                filtered@.map_values(|v| filtered_cell_text(v)),
                rejection_option_text(refusal),
            ) == area_outcome(
                board,
                entities@,
                actor_id@,
                *targets,
                cells@.take(k as int),
                preflight@,
                first,
            ),
            forall|i: int|
                0 <= i < listed@.len() ==> projection_matches(
                    board,
                    entities@,
                    actor_id@,
                    *targets,
                    (#[trigger] listed@[i]).anchor_cell_id@,
                    Some(listed@[i]),
                ),
        decreases cells.len() - k,
    {
        let anchor = &cells[k];
        let ghost prior = (
            listed@.map_values(|p: RpgAreaProjection| p.anchor_cell_id@),
            filtered@.map_values(|v| filtered_cell_text(v)),
            rejection_option_text(refusal),
        );
        let ghost verdict = area_verdict(
            board,
            entities@,
            actor_id@,
            *targets,
            cells@[k as int],
            preflight@[k as int],
        );
        proof {
            let taken = cells@.take(k + 1);
            assert(taken.drop_last() =~= cells@.take(k as int));
            assert(taken[k as int] == cells@[k as int]);
            assert(area_outcome(board, entities@, actor_id@, *targets, taken, preflight@, first)
                == fold_verdicts(prior, anchor.id@, anchor.id@, verdict));
        }
        let mut decided = false;
        if required {
            match find_entity(entities, actor_id) {
                Some(a) => {
                    let projection = line_of_effect_projection(
                        board,
                        entities[a].position,
                        anchor.position,
                    );
                    if !projection.clear {
                        let reason = match projection.reason {
                            Some(reason) => text(reason.as_str()),
                            None => text("lineOfEffectBlocked"),
                        };
                        let view = RpgFilteredCellOptionView {
                            cell_id: anchor.id.clone(),
                            reason,
                            blocking_cell_ids: projection.blocking_cell_ids,
                        };
                        let ghost before = filtered@;
                        filtered.push(view);
                        proof {
                            assert(filtered@.map_values(|v| filtered_cell_text(v))
                                =~= before.map_values(|v| filtered_cell_text(v)).push(
                                filtered_cell_text(view),
                            ));
                        }
                        decided = true;
                    }
                },
                None => {
                    decided = true;
                },
            }
        }
        if !decided {
            match area_projection(board, entities, actor_id, targets, &anchor.id) {
                None => {},
                Some(projection) => {
                    match &preflight[k] {
                        Some(x) => {
                            if refusal.is_none() {
                                refusal = Some(copy_rejection(x));
                            }
                        },
                        None => {
                            let ghost before = listed@;
                            listed.push(projection);
                            proof {
                                assert(listed@.map_values(|p: RpgAreaProjection| p.anchor_cell_id@)
                                    =~= before.map_values(|p: RpgAreaProjection| p.anchor_cell_id@).push(
                                    anchor.id@,
                                ));
                                assert forall|i: int| 0 <= i < listed@.len() implies projection_matches(
                                    board,
                                    entities@,
                                    actor_id@,
                                    *targets,
                                    (#[trigger] listed@[i]).anchor_cell_id@,
                                    Some(listed@[i]),
                                ) by {
                                    if i < before.len() {
                                        assert(listed@[i] == before[i]);
                                    }
                                }
                            }
                        },
                    }
                },
            }
        }
        k = k + 1;
    }
    proof {
        assert(cells@.take(cells@.len() as int) =~= cells@);
    }
    RpgAreaOptions { area_options: listed, filtered_cells: filtered, first_rejection: refusal }
}

/// Where an action does not require line of effect, no option of any kind
/// is filtered out for it.
pub proof fn lemma_unrequired_line_of_effect_filters_nothing(
    board: &RpgBoardSetup,
    entities: Seq<RpgEntityState>,
    actor_id: Seq<char>,
    candidates: Seq<String>,
    paths: Seq<RpgCellPathView>,
    targets: RpgTargetSelector,
    anchors: Seq<RpgCellSetup>,
    preflight: Seq<Option<RpgResolutionRejection>>,
    first: Option<RejectionText>,
)
    requires
        targets.line_of_effect == RpgLineOfEffectRequirement::NotRequired,
    ensures
        participant_outcome(
            board.cells@,
            entities,
            actor_id,
            candidates,
            RpgLineOfEffectRequirement::NotRequired,
            preflight,
            first,
        ).1.len() == 0,
        cell_outcome(
            board,
            entities,
            actor_id,
            paths,
            RpgLineOfEffectRequirement::NotRequired,
            preflight,
            first,
        ).1.len() == 0,
        area_outcome(board, entities, actor_id, targets, anchors, preflight, first).1.len() == 0,
    decreases candidates.len() + paths.len() + anchors.len(),
{
    if candidates.len() > 0 {
        lemma_unrequired_line_of_effect_filters_nothing(
            board,
            entities,
            actor_id,
            candidates.drop_last(),
            paths,
            targets,
            anchors,
            preflight,
            first,
        );
    }
    if paths.len() > 0 {
        lemma_unrequired_line_of_effect_filters_nothing(
            board,
            entities,
            actor_id,
            candidates,
            paths.drop_last(),
            targets,
            anchors,
            preflight,
            first,
        );
    }
    if anchors.len() > 0 {
        lemma_unrequired_line_of_effect_filters_nothing(
            board,
            entities,
            actor_id,
            candidates,
            paths,
            targets,
            anchors.drop_last(),
            preflight,
            first,
        );
    }
}

/// What an offered option is bound to: the session, artifact, scenario,
/// authority revision, round, turn and actor it was offered under, and the
/// action and item binding it offers.
#[derive(Debug, Clone)]
pub struct RpgActionOptionBindingView {
    pub session_binding_id: String,
    pub artifact_id: String,
    pub scenario_fingerprint: StateFingerprint,
    pub authority_revision: u64,
    pub round: u64,
    pub turn: u64,
    pub current_actor_id: String,
    pub action_id: String,
    pub item_binding: Option<RpgIntentItemBinding>,
}

/// Why a proposal's option binding is stale, as (path, message): the first
/// of session, artifact, scenario, revision, round, turn and current actor
/// that differs from the authority's, or else an action and item binding
/// that are not among the current options.
pub open spec fn option_binding_staleness(
    binding: RpgActionOptionBindingView,
    session_binding_id: Seq<char>,
    artifact_id: Seq<char>,
    scenario_fingerprint: StateFingerprint,
    revision: u64,
    turn: RpgTurnState,
    offered: bool,
) -> Option<(Seq<char>, Seq<char>)> {
    if binding.session_binding_id@ != session_binding_id {
        Some(
            (
                "$.proposal.binding.sessionBindingId"@,
                "the option belongs to a different authority session"@,
            ),
        )
    } else if binding.artifact_id@ != artifact_id {
        Some(("$.proposal.binding.artifactId"@, "the option belongs to a different compiled artifact"@))
    } else if !same_fingerprint(binding.scenario_fingerprint, scenario_fingerprint) {
        Some(("$.proposal.binding.scenarioFingerprint"@, "the option belongs to a different scenario"@))
    } else if binding.authority_revision != revision {
        Some(
            (
                "$.proposal.binding.authorityRevision"@,
                "the option belongs to a different authority revision"@,
            ),
        )
    } else if binding.round != turn.round {
        Some(("$.proposal.binding.round"@, "the option belongs to a different round"@))
    } else if binding.turn != turn.turn {
        Some(("$.proposal.binding.turn"@, "the option belongs to a different turn"@))
    } else if binding.current_actor_id@ != turn.current_actor_id@ {
        Some(("$.proposal.binding.currentActorId"@, "the option belongs to a different current actor"@))
    } else if !offered {
        Some(("$.proposal.binding"@, "the action and item binding are not current authority options"@))
    } else {
        None
    }
}

/// Refuses a proposal whose option binding is stale. `offered` says whether
/// the bound action, with the bound item binding and this very option
/// binding, is among the authority's current options.
pub fn action_option_binding_rejection(
    binding: &RpgActionOptionBindingView,
    session_binding_id: &String,
    artifact_id: &String,
    scenario_fingerprint: &StateFingerprint,
    revision: u64,
    turn: &RpgTurnState,
    offered: bool,
) -> (r: Option<RpgResolutionRejection>)
    ensures
        match option_binding_staleness(
            *binding,
            session_binding_id@,
            artifact_id@,
            *scenario_fingerprint,
            revision,
            *turn,
            offered,
        ) {
            None => r is None,
            Some((path, message)) => r matches Some(x) && rejection_text(x) == (
                "RPG_ACTION_OPTION_STALE"@,
                path,
                message,
            ),
        },
{
    let stale = if binding.session_binding_id != *session_binding_id {
        Some(("$.proposal.binding.sessionBindingId", "the option belongs to a different authority session"))
    } else if binding.artifact_id != *artifact_id {
        Some(("$.proposal.binding.artifactId", "the option belongs to a different compiled artifact"))
    } else if !same_fingerprint_exec(&binding.scenario_fingerprint, scenario_fingerprint) {
        Some(("$.proposal.binding.scenarioFingerprint", "the option belongs to a different scenario"))
    } else if binding.authority_revision != revision {
        Some(("$.proposal.binding.authorityRevision", "the option belongs to a different authority revision"))
    } else if binding.round != turn.round {
        Some(("$.proposal.binding.round", "the option belongs to a different round"))
    } else if binding.turn != turn.turn {
        Some(("$.proposal.binding.turn", "the option belongs to a different turn"))
    } else if binding.current_actor_id != turn.current_actor_id {
        Some(("$.proposal.binding.currentActorId", "the option belongs to a different current actor"))
    } else if !offered {
        Some(("$.proposal.binding", "the action and item binding are not current authority options"))
    } else {
        None
    };
    match stale {
        None => None,
        Some((path, message)) => Some(resolution_rejection("RPG_ACTION_OPTION_STALE", text(path), text(message))),
    }
}

/// An area command prepared for resolution: the projection of its anchor,
/// and the participants and cells the intent targets in its place.
#[derive(Debug, Clone)]
pub struct RpgPreparedArea {
    pub projection: RpgAreaProjection,
    pub target_ids: Vec<String>,
    pub cell_targets: Vec<RpgIntentCellTarget>,
}

/// Why a portable area command cannot be prepared: it must carry exactly one
/// cell binding and no participants, the binding must name a board cell at
/// its position (the first cell with the identity counts), and the area must
/// project from that anchor.
pub open spec fn area_command_refusal(
    board: &RpgBoardSetup,
    entities: Seq<RpgEntityState>,
    actor_id: Seq<char>,
    targets: RpgTargetSelector,
    target_ids: Seq<String>,
    cell_targets: Seq<RpgIntentCellTarget>,
) -> Option<RejectionText> {
    let c = board_cell(board, cell_targets[0].id@);
    if target_ids.len() != 0 || cell_targets.len() != 1 {
        Some(
            (
                "RPG_AREA_COMMAND_BINDING_INVALID"@,
                "$.command.intent"@,
                "portable area commands carry one anchor binding and no caller-derived participants"@,
            ),
        )
    } else if c < 0 || board.cells@[c].position != cell_targets[0].position {
        Some(
            (
                "RPG_AREA_OPTION_INVALID"@,
                "$.command.intent.cellTargets[0]"@,
                "the area anchor does not match the current encounter board"@,
            ),
        )
    } else if projection_matches(board, entities, actor_id, targets, board.cells@[c].id@, None) {
        Some(
            (
                "RPG_AREA_OPTION_INVALID"@,
                "$.command.intent.cellTargets[0]"@,
                "the area anchor is not projectable in the current authority state"@,
            ),
        )
    } else {
        None
    }
}

/// Prepares a portable area command: checks its anchor binding against the
/// board, projects the area from it and targets what the projection
/// includes, in projection order.
pub fn prepare_area_command(
    board: &RpgBoardSetup,
    entities: &Vec<RpgEntityState>,
    actor_id: &String,
    targets: &RpgTargetSelector,
    target_ids: &Vec<String>,
    cell_targets: &Vec<RpgIntentCellTarget>,
) -> (r: Result<RpgPreparedArea, RpgResolutionRejection>)
    requires
        identities_distinct(entities@),
    ensures
        match area_command_refusal(
            board,
            entities@,
            actor_id@,
            *targets,
            target_ids@,
            cell_targets@,
        ) {
            Some(x) => r matches Err(e) && rejection_text(e) == x,
            None => r matches Ok(p) && {
                &&& projection_matches(
                    board,
                    entities@,
                    actor_id@,
                    *targets,
                    cell_targets@[0].id@,
                    Some(p.projection),
                )
                &&& texts(p.target_ids@) == texts(p.projection.included_participant_ids@)
                &&& cell_target_views(p.cell_targets@) == cell_views(p.projection.included_cells@)
            },
        },
{
    if target_ids.len() != 0 || cell_targets.len() != 1 {
        return Err(
            resolution_rejection(
                "RPG_AREA_COMMAND_BINDING_INVALID",
                text("$.command.intent"),
                text("portable area commands carry one anchor binding and no caller-derived participants"),
            ),
        );
    }
    let anchor = &cell_targets[0];
    let c = match board_cell_of(board, &anchor.id) {
        Some(c) if board.cells[c].position == anchor.position => c,
        _ => {
            return Err(
                resolution_rejection(
                    "RPG_AREA_OPTION_INVALID",
                    text("$.command.intent.cellTargets[0]"),
                    text("the area anchor does not match the current encounter board"),
                ),
            );
        },
    };
    proof {
        lemma_first_index_where(board.cells@, board_cell_named(anchor.id@));
        assert(board.cells@[c as int].id@ == anchor.id@);
    }
    let projection = match area_projection(board, entities, actor_id, targets, &board.cells[c].id) {
        Some(projection) => projection,
        None => {
            return Err(
                resolution_rejection(
                    "RPG_AREA_OPTION_INVALID",
                    text("$.command.intent.cellTargets[0]"),
                    text("the area anchor is not projectable in the current authority state"),
                ),
            );
        },
    };
    let target_ids = copy_texts(&projection.included_participant_ids);
    assert(texts(target_ids@) == texts(projection.included_participant_ids@));
    let mut cells: Vec<RpgIntentCellTarget> = Vec::new();
    let included = &projection.included_cells;
    let mut i: usize = 0;
    while i < included.len()
        invariant
            i <= included@.len(),
            cell_target_views(cells@) == cell_views(included@.take(i as int)),
        decreases included.len() - i,
    {
        let ghost before = cells@;
        let cell = RpgIntentCellTarget { id: included[i].id.clone(), position: included[i].position };
        cells.push(cell);
        proof {
            assert(included@.take(i + 1) =~= included@.take(i as int).push(included@[i as int]));
            assert(cell_target_views(cells@) =~= cell_target_views(before).push((cell.id@, cell.position)));
            assert(cell_views(included@.take(i + 1)) =~= cell_views(included@.take(i as int)).push(
                (included@[i as int].id@, included@[i as int].position),
            ));
        }
        i = i + 1;
    }
    proof {
        assert(included@.take(included@.len() as int) =~= included@);
    }
    Ok(RpgPreparedArea { projection, target_ids, cell_targets: cells })
}

proof fn lemma_offered_anchor_projects(
    board: &RpgBoardSetup,
    entities: Seq<RpgEntityState>,
    actor_id: Seq<char>,
    targets: RpgTargetSelector,
    anchors: Seq<RpgCellSetup>,
    preflight: Seq<Option<RpgResolutionRejection>>,
    first: Option<RejectionText>,
    id: Seq<char>,
)
    requires
        area_outcome(board, entities, actor_id, targets, anchors, preflight, first).0.contains(id),
    ensures
        exists|k: int| 0 <= k < anchors.len() && (#[trigger] anchors[k]).id@ == id,
        !projection_matches(board, entities, actor_id, targets, id, None),
    decreases anchors.len(),
{
    let k = anchors.len() - 1;
    let prior = area_outcome(board, entities, actor_id, targets, anchors.drop_last(), preflight, first);
    let verdict = area_verdict(board, entities, actor_id, targets, anchors[k], preflight[k]);
    if prior.0.contains(id) {
        lemma_offered_anchor_projects(
            board,
            entities,
            actor_id,
            targets,
            anchors.drop_last(),
            preflight,
            first,
            id,
        );
        let j = choose|j: int| 0 <= j < anchors.drop_last().len() && (#[trigger] anchors.drop_last()[j]).id@ == id;
        assert(anchors[j] == anchors.drop_last()[j]);
    } else {
        assert(verdict is Listed);
        assert(anchors[k].id@ == id);
    }
}

/// An anchor that the area options offer is accepted when proposed back as
/// a portable area command: one binding to that anchor at its board position
/// and no participants.
pub proof fn lemma_offered_area_anchor_prepares(
    board: &RpgBoardSetup,
    entities: Seq<RpgEntityState>,
    actor_id: Seq<char>,
    targets: RpgTargetSelector,
    preflight: Seq<Option<RpgResolutionRejection>>,
    first: Option<RejectionText>,
    anchor: RpgIntentCellTarget,
)
    requires
        area_outcome(board, entities, actor_id, targets, board.cells@, preflight, first).0.contains(
            anchor.id@,
        ),
        anchor.position == board.cells@[board_cell(board, anchor.id@)].position,
    ensures
        area_command_refusal(board, entities, actor_id, targets, Seq::empty(), seq![anchor]) is None,
{
    lemma_offered_anchor_projects(
        board,
        entities,
        actor_id,
        targets,
        board.cells@,
        preflight,
        first,
        anchor.id@,
    );
    let k = choose|k: int| 0 <= k < board.cells@.len() && (#[trigger] board.cells@[k]).id@ == anchor.id@;
    lemma_first_index_where(board.cells@, board_cell_named(anchor.id@));
    assert(board_cell_named(anchor.id@)(board.cells@[k]));
    let c = board_cell(board, anchor.id@);
    assert(0 <= c < board.cells@.len());
    assert(board.cells@[c].id@ == anchor.id@);
    assert(seq![anchor][0] == anchor);
}

proof fn lemma_offered_path_listed(
    board: &RpgBoardSetup,
    entities: Seq<RpgEntityState>,
    actor_id: Seq<char>,
    paths: Seq<RpgCellPathView>,
    line_of_effect: RpgLineOfEffectRequirement,
    preflight: Seq<Option<RpgResolutionRejection>>,
    first: Option<RejectionText>,
    offered: PathText,
)
    requires
        cell_outcome(board, entities, actor_id, paths, line_of_effect, preflight, first).0.contains(
            offered,
        ),
    ensures
        exists|k: int| 0 <= k < paths.len() && path_text(#[trigger] paths[k]) == offered,
        board_cell(board, offered.0) >= 0,
    decreases paths.len(),
{
    let k = paths.len() - 1;
    let prior = cell_outcome(board, entities, actor_id, paths.drop_last(), line_of_effect, preflight, first);
    if prior.0.contains(offered) {
        lemma_offered_path_listed(
            board,
            entities,
            actor_id,
            paths.drop_last(),
            line_of_effect,
            preflight,
            first,
            offered,
        );
        let j = choose|j: int| 0 <= j < paths.drop_last().len() && path_text(#[trigger] paths.drop_last()[j]) == offered;
        assert(paths[j] == paths.drop_last()[j]);
    } else {
        assert(path_text(paths[k]) == offered);
    }
}

/// A destination that the cell options offer passes the movement-path and
/// cell-binding checks when proposed back: selected alone and bound to its
/// board position, with the same paths and any maximum distance.
pub proof fn lemma_offered_destination_is_committable(
    board: &RpgBoardSetup,
    entities: Seq<RpgEntityState>,
    actor_id: Seq<char>,
    paths: Seq<RpgCellPathView>,
    line_of_effect: RpgLineOfEffectRequirement,
    preflight: Seq<Option<RpgResolutionRejection>>,
    first: Option<RejectionText>,
    offered: PathText,
    maximum_distance: Option<u32>,
    target: String,
    binding: RpgIntentCellTarget,
)
    requires
        cell_outcome(board, entities, actor_id, paths, line_of_effect, preflight, first).0.contains(
            offered,
        ),
        target@ == offered.0,
        binding.id@ == offered.0,
        binding.position == board.cells@[board_cell(board, offered.0)].position,
    ensures
        movement_refusal(paths, maximum_distance, seq![target]) is None,
        cell_binding_refusal(board, Some(RpgTargetKind::Cell), seq![target], seq![binding]) is None,
{
    lemma_offered_path_listed(board, entities, actor_id, paths, line_of_effect, preflight, first, offered);
    let k = choose|k: int| 0 <= k < paths.len() && path_text(#[trigger] paths[k]) == offered;
    assert(destination_listed(paths, target@));
    let targets = seq![target];
    assert(!unreachable_in(paths)(targets[0]));
    lemma_first_index_is(targets, unreachable_in(paths), -1);
    let bindings = seq![binding];
    assert(binding_named(target@)(bindings[0]));
    lemma_first_index_is(bindings, binding_named(target@), 0);
    assert(targets.drop_last() =~= Seq::<String>::empty());
    assert(targets.last() == target);
    assert(matched_bindings(targets.drop_last(), bindings) =~= Seq::<RpgIntentCellTarget>::empty());
    assert(matched_bindings(targets, bindings) =~= seq![bindings[0]]);
    assert(bindings =~= seq![bindings[0]]);
    assert(!binding_wrong(board)(bindings[0]));
    lemma_first_index_is(bindings, binding_wrong(board), -1);
}

proof fn lemma_offered_participant_listed(
    cells: Seq<RpgCellSetup>,
    entities: Seq<RpgEntityState>,
    actor_id: Seq<char>,
    candidates: Seq<String>,
    line_of_effect: RpgLineOfEffectRequirement,
    preflight: Seq<Option<RpgResolutionRejection>>,
    first: Option<RejectionText>,
    id: Seq<char>,
)
    requires
        participant_outcome(cells, entities, actor_id, candidates, line_of_effect, preflight, first).0.contains(
            id,
        ),
    ensures
        exists|k: int|
            0 <= k < candidates.len() && (#[trigger] candidates[k])@ == id && living_intent_refusal(
                entities,
                actor_id,
                seq![candidates[k]],
            ) is None,
    decreases candidates.len(),
{
    let k = candidates.len() - 1;
    let prior = participant_outcome(
        cells,
        entities,
        actor_id,
        candidates.drop_last(),
        line_of_effect,
        preflight,
        first,
    );
    if prior.0.contains(id) {
        lemma_offered_participant_listed(
            cells,
            entities,
            actor_id,
            candidates.drop_last(),
            line_of_effect,
            preflight,
            first,
            id,
        );
        let j = choose|j: int|
            0 <= j < candidates.drop_last().len() && (#[trigger] candidates.drop_last()[j])@ == id
                && living_intent_refusal(entities, actor_id, seq![candidates.drop_last()[j]]) is None;
        assert(candidates[j] == candidates.drop_last()[j]);
    } else {
        assert(candidates[k]@ == id);
    }
}

/// A participant that the participant options offer passes the
/// living-participant rule when proposed back as the intent's only target:
/// the actor lives and the target is not an existing participant without
/// positive vitality.
pub proof fn lemma_offered_participant_is_living_target(
    cells: Seq<RpgCellSetup>,
    entities: Seq<RpgEntityState>,
    actor_id: Seq<char>,
    candidates: Seq<String>,
    line_of_effect: RpgLineOfEffectRequirement,
    preflight: Seq<Option<RpgResolutionRejection>>,
    first: Option<RejectionText>,
    target: String,
)
    requires
        participant_outcome(cells, entities, actor_id, candidates, line_of_effect, preflight, first).0.contains(
            target@,
        ),
    ensures
        living_intent_refusal(entities, actor_id, seq![target]) is None,
{
    lemma_offered_participant_listed(
        cells,
        entities,
        actor_id,
        candidates,
        line_of_effect,
        preflight,
        first,
        target@,
    );
    let k = choose|k: int|
        0 <= k < candidates.len() && (#[trigger] candidates[k])@ == target@ && living_intent_refusal(
            entities,
            actor_id,
            seq![candidates[k]],
        ) is None;
    let listed = seq![candidates[k]];
    let proposed = seq![target];
    let f = inactive_target(entities);
    lemma_first_index_where(listed, f);
    assert(f(listed[0]) == f(proposed[0]));
    if f(proposed[0]) {
        assert(first_index_where(listed, f) == 0);
    }
    lemma_first_index_is(proposed, f, -1);
}

/// Why an area proposal is refused before its area is prepared: another
/// session or revision than the authority's, an action that exposes no
/// target selector, or one that does not target an area or names no board
/// cell as its anchor.
pub open spec fn area_proposal_refusal(
    board: &RpgBoardSetup,
    session_binding_id: Seq<char>,
    revision: u64,
    proposal_session_binding_id: Seq<char>,
    proposal_revision: u64,
    target_kind: Option<RpgTargetKind>,
    anchor_cell_id: Seq<char>,
) -> Option<RejectionText> {
    if proposal_session_binding_id != session_binding_id {
        Some(
            (
                "RPG_AREA_OPTION_STALE"@,
                "$.proposal.sessionBindingId"@,
                "the area option belongs to a different authority session"@,
            ),
        )
    } else if proposal_revision != revision {
        Some(
            (
                "RPG_AREA_OPTION_STALE"@,
                "$.proposal.authorityRevision"@,
                "the area option is at revision "@ + decimal(proposal_revision as nat)
                    + ", but authority is at "@ + decimal(revision as nat),
            ),
        )
    } else if target_kind is None {
        Some(
            (
                "RPG_AREA_OPTION_INVALID"@,
                "$.proposal.actionId"@,
                "the selected action does not expose an area option"@,
            ),
        )
    } else if target_kind != Some(RpgTargetKind::Area) || board_cell(board, anchor_cell_id) < 0 {
        Some(
            (
                "RPG_AREA_OPTION_INVALID"@,
                "$.proposal.anchorCellId"@,
                "the selected area anchor is not projectable at this authority revision"@,
            ),
        )
    } else {
        None
    }
}

/// Checks an area proposal against the authority's session and revision,
/// the action's target kind (`None` when the action exposes no target
/// selector) and the board, and gives the anchor binding its command
/// carries: the first board cell with the proposed identity, at its
/// position.
pub fn area_proposal_anchor(
    board: &RpgBoardSetup,
    session_binding_id: &String,
    revision: u64,
    proposal_session_binding_id: &String,
    proposal_revision: u64,
    target_kind: Option<RpgTargetKind>,
    anchor_cell_id: &String,
) -> (r: Result<RpgIntentCellTarget, RpgResolutionRejection>)
    ensures
        match area_proposal_refusal(
            board,
            session_binding_id@,
            revision,
            proposal_session_binding_id@,
            proposal_revision,
            target_kind,
            anchor_cell_id@,
        ) {
            Some(x) => r matches Err(e) && rejection_text(e) == x,
            None => r matches Ok(t) && t.id@ == board.cells@[board_cell(board, anchor_cell_id@)].id@
                && t.position == board.cells@[board_cell(board, anchor_cell_id@)].position,
        },
{
    if *proposal_session_binding_id != *session_binding_id {
        return Err(
            resolution_rejection(
                "RPG_AREA_OPTION_STALE",
                text("$.proposal.sessionBindingId"),
                text("the area option belongs to a different authority session"),
            ),
        );
    }
    if proposal_revision != revision {
        let mut message = text("the area option is at revision ");
        push_decimal(&mut message, proposal_revision);
        message = join(message.as_str(), ", but authority is at ");
        push_decimal(&mut message, revision);
        return Err(resolution_rejection("RPG_AREA_OPTION_STALE", text("$.proposal.authorityRevision"), message));
    }
    let kind = match target_kind {
        None => {
            return Err(
                resolution_rejection(
                    "RPG_AREA_OPTION_INVALID",
                    text("$.proposal.actionId"),
                    text("the selected action does not expose an area option"),
                ),
            );
        },
        Some(kind) => kind,
    };
    match (kind, board_cell_of(board, anchor_cell_id)) {
        (RpgTargetKind::Area, Some(c)) => Ok(
            RpgIntentCellTarget { id: board.cells[c].id.clone(), position: board.cells[c].position },
        ),
        _ => Err(
            resolution_rejection(
                "RPG_AREA_OPTION_INVALID",
                text("$.proposal.anchorCellId"),
                text("the selected area anchor is not projectable at this authority revision"),
            ),
        ),
    }
}

} // verus!
