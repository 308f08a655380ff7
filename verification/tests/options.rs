use rpg_runtime::area::{
    RpgAreaOrigin, RpgAreaSelector, RpgAreaShape, RpgLineOfEffectRequirement, RpgTargetSelector,
    RpgTeamConstraint,
};
use rpg_runtime::board::{
    GridPosition, RpgBoardSetup, RpgCellCapabilitySetup, RpgCellCapabilityValue, RpgCellSetup,
    RPG_LINE_OF_EFFECT_OBSTRUCTION_ID, RPG_LINE_OF_EFFECT_OBSTRUCTION_VERSION,
};
use rpg_runtime::model::{resolution_rejection, BoundedValue, RpgEntityState, RpgResolutionRejection};
use rpg_runtime::intent::{cell_binding_rejection, movement_path_rejection, RpgIntentCellTarget, RpgTargetKind};
use rpg_runtime::movement::RpgCellPathView;
use rpg_runtime::turn::living_intent_rejection;
use rpg_runtime::options::{
    action_option_binding_rejection, area_options, cell_options, participant_options,
    area_proposal_anchor, prepare_area_command, RpgActionOptionBindingView,
};
use rpg_runtime::replay::StateFingerprint;
use rpg_runtime::turn::RpgTurnState;

/// A row of five cells with an obstruction in the middle.
fn corridor() -> RpgBoardSetup {
    let cell = |x: u32| RpgCellSetup {
        id: format!("cell-{x}-0"),
        position: GridPosition { x, y: 0 },
        capabilities: vec![RpgCellCapabilitySetup {
            id: RPG_LINE_OF_EFFECT_OBSTRUCTION_ID.to_owned(),
            version: RPG_LINE_OF_EFFECT_OBSTRUCTION_VERSION,
            definition_id: None,
            value: RpgCellCapabilityValue::LineOfEffectObstruction { blocks: x == 2 },
        }],
    };
    RpgBoardSetup {
        width: 5,
        height: 1,
        cells: (0..5).map(cell).collect(),
    }
}

fn entity(id: &str, team: &str, x: u32, vitality: i32) -> RpgEntityState {
    RpgEntityState {
        id: id.to_owned(),
        team_id: team.to_owned(),
        position: GridPosition { x, y: 0 },
        vitality: BoundedValue {
            current: vitality,
            max: 10,
        },
        class_definition_id: None,
        character_feature_ids: Vec::new(),
        activation_budgets: Vec::new(),
        effects: Vec::new(),
    }
}

fn refusal(code: &str) -> RpgResolutionRejection {
    resolution_rejection(code, "$.intent".to_owned(), format!("{code} refused"))
}

fn path(destination: &str, cost: u32) -> RpgCellPathView {
    RpgCellPathView {
        destination_cell_id: destination.to_owned(),
        cell_ids: vec![destination.to_owned()],
        movement_cost: cost,
    }
}

#[test]
fn participants_behind_an_obstruction_are_filtered_with_the_blocking_cell() {
    let board = corridor();
    let entities = vec![
        entity("hero", "heroes", 1, 5),
        entity("near", "foes", 0, 5),
        entity("far", "foes", 4, 5),
    ];
    let candidates = vec!["near".to_owned(), "far".to_owned()];
    let options = participant_options(
        &board,
        &entities,
        &"hero".to_owned(),
        &candidates,
        RpgLineOfEffectRequirement::Required,
        &vec![None, None],
        None,
    );
    assert_eq!(options.participant_ids, vec!["near".to_owned()]);
    assert_eq!(options.filtered_participants.len(), 1);
    let filtered = &options.filtered_participants[0];
    assert_eq!(filtered.participant_id, "far");
    assert_eq!(filtered.reason, "lineOfEffectBlocked");
    assert_eq!(filtered.blocking_cell_ids, vec!["cell-2-0".to_owned()]);
    assert!(options.first_rejection.is_none());

    let unobstructed = participant_options(
        &board,
        &entities,
        &"hero".to_owned(),
        &candidates,
        RpgLineOfEffectRequirement::NotRequired,
        &vec![None, None],
        None,
    );
    assert_eq!(unobstructed.participant_ids, candidates);
    assert!(unobstructed.filtered_participants.is_empty());
}

#[test]
fn inactive_and_refused_participants_are_left_out_keeping_the_first_refusal() {
    let board = corridor();
    let entities = vec![
        entity("hero", "heroes", 1, 5),
        entity("fallen", "foes", 0, 0),
        entity("guarded", "foes", 3, 5),
        entity("open", "foes", 3, 5),
    ];
    let candidates = vec!["fallen".to_owned(), "guarded".to_owned(), "open".to_owned()];
    let options = participant_options(
        &board,
        &entities,
        &"hero".to_owned(),
        &candidates,
        RpgLineOfEffectRequirement::NotRequired,
        &vec![None, Some(refusal("RPG_RULE_REFUSED")), None],
        None,
    );
    assert_eq!(options.participant_ids, vec!["open".to_owned()]);
    let first = options.first_rejection.unwrap();
    assert_eq!(first.code, "RPG_INTENT_TARGET_INACTIVE");
    assert_eq!(first.path, "$.command.intent.targetIds[0]");
    assert_eq!(first.message, "participant fallen cannot be targeted without positive vitality");

    let earlier = participant_options(
        &board,
        &entities,
        &"hero".to_owned(),
        &candidates,
        RpgLineOfEffectRequirement::NotRequired,
        &vec![None, Some(refusal("RPG_RULE_REFUSED")), None],
        Some(refusal("RPG_EARLIER")),
    );
    assert_eq!(earlier.first_rejection.unwrap().code, "RPG_EARLIER");

    let living = vec![
        entity("hero", "heroes", 1, 5),
        entity("guarded", "foes", 3, 5),
    ];
    let refused = participant_options(
        &board,
        &living,
        &"hero".to_owned(),
        &vec!["guarded".to_owned()],
        RpgLineOfEffectRequirement::NotRequired,
        &vec![Some(refusal("RPG_RULE_REFUSED"))],
        None,
    );
    assert!(refused.participant_ids.is_empty());
    let rule = refused.first_rejection.unwrap();
    assert_eq!(rule.code, "RPG_RULE_REFUSED");
    assert_eq!(rule.message, "RPG_RULE_REFUSED refused");
}

#[test]
fn unknown_participants_are_dropped_without_a_reason_when_line_of_effect_is_required() {
    let board = corridor();
    let entities = vec![entity("hero", "heroes", 1, 5)];
    let options = participant_options(
        &board,
        &entities,
        &"hero".to_owned(),
        &vec!["ghost".to_owned()],
        RpgLineOfEffectRequirement::Required,
        &vec![None],
        None,
    );
    assert!(options.participant_ids.is_empty());
    assert!(options.filtered_participants.is_empty());
    assert!(options.first_rejection.is_none());
}

#[test]
fn cell_paths_keep_reachable_destinations_in_line_of_effect() {
    let board = corridor();
    let entities = vec![entity("hero", "heroes", 1, 5)];
    let paths = vec![path("cell-0-0", 1), path("cell-3-0", 2), path("nowhere", 1), path("cell-4-0", 3)];
    let options = cell_options(
        &board,
        &entities,
        &"hero".to_owned(),
        &paths,
        RpgLineOfEffectRequirement::Required,
        &vec![None, None, None, Some(refusal("RPG_RULE_REFUSED"))],
        None,
    );
    assert_eq!(options.cell_paths.len(), 1);
    assert_eq!(options.cell_paths[0].destination_cell_id, "cell-0-0");
    assert_eq!(options.cell_paths[0].movement_cost, 1);
    let filtered: Vec<&str> = options.filtered_cells.iter().map(|c| c.cell_id.as_str()).collect();
    assert_eq!(filtered, vec!["cell-3-0", "cell-4-0"]);
    assert_eq!(options.filtered_cells[0].blocking_cell_ids, vec!["cell-2-0".to_owned()]);
    assert!(options.first_rejection.is_none());

    let free = cell_options(
        &board,
        &entities,
        &"hero".to_owned(),
        &paths,
        RpgLineOfEffectRequirement::NotRequired,
        &vec![None, None, None, Some(refusal("RPG_RULE_REFUSED"))],
        None,
    );
    let offered: Vec<(&str, u32)> =
        free.cell_paths.iter().map(|p| (p.destination_cell_id.as_str(), p.movement_cost)).collect();
    assert_eq!(offered, vec![("cell-0-0", 1), ("cell-3-0", 2)]);
    assert_eq!(free.first_rejection.unwrap().code, "RPG_RULE_REFUSED");
}

#[test]
fn area_anchors_are_projected_or_filtered_in_board_order() {
    let board = corridor();
    let entities = vec![entity("hero", "heroes", 1, 5), entity("foe", "foes", 0, 5)];
    let targets = RpgTargetSelector {
        area: Some(RpgAreaSelector {
            origin: RpgAreaOrigin::Anchor,
            shape: RpgAreaShape::Diamond { radius: 0 },
            living_required: true,
            minimum_targets: 1,
        }),
        maximum_range: 6,
        line_of_effect: RpgLineOfEffectRequirement::Required,
        team: RpgTeamConstraint::Hostile,
        maximum_targets: 2,
    };
    let preflight = vec![None, None, None, None, None];
    let options = area_options(&board, &entities, &"hero".to_owned(), &targets, &preflight, None);
    let anchors: Vec<&str> = options.area_options.iter().map(|p| p.anchor_cell_id.as_str()).collect();
    assert_eq!(anchors, vec!["cell-0-0"]);
    assert_eq!(options.area_options[0].included_participant_ids, vec!["foe".to_owned()]);
    let filtered: Vec<(&str, &str)> = options
        .filtered_cells
        .iter()
        .map(|c| (c.cell_id.as_str(), c.reason.as_str()))
        .collect();
    assert_eq!(filtered, vec![("cell-3-0", "lineOfEffectBlocked"), ("cell-4-0", "lineOfEffectBlocked")]);

    let refused = area_options(
        &board,
        &entities,
        &"hero".to_owned(),
        &targets,
        &vec![Some(refusal("RPG_RULE_REFUSED")), None, None, None, None],
        None,
    );
    assert!(refused.area_options.is_empty());
    assert_eq!(refused.first_rejection.unwrap().code, "RPG_RULE_REFUSED");
}

#[test]
fn stale_option_bindings_name_the_first_field_that_moved() {
    let fingerprint = |value: &str| StateFingerprint {
        algorithm: "fnv1a64".to_owned(),
        value: value.to_owned(),
    };
    let turn = RpgTurnState {
        initiative_order: vec!["hero".to_owned(), "foe".to_owned()],
        current_actor_id: "hero".to_owned(),
        round: 2,
        turn: 3,
    };
    let bound = RpgActionOptionBindingView {
        session_binding_id: "session-1".to_owned(),
        artifact_id: "artifact-1".to_owned(),
        scenario_fingerprint: fingerprint("00000000000000aa"),
        authority_revision: 7,
        round: 2,
        turn: 3,
        current_actor_id: "hero".to_owned(),
        action_id: "action.strike".to_owned(),
        item_binding: None,
    };
    let check = |binding: &RpgActionOptionBindingView, offered: bool| {
        action_option_binding_rejection(
            binding,
            &"session-1".to_owned(),
            &"artifact-1".to_owned(),
            &fingerprint("00000000000000aa"),
            7,
            &turn,
            offered,
        )
    };
    assert!(check(&bound, true).is_none());

    let unoffered = check(&bound, false).unwrap();
    assert_eq!(unoffered.code, "RPG_ACTION_OPTION_STALE");
    assert_eq!(unoffered.path, "$.proposal.binding");

    let mut moved = bound.clone();
    moved.authority_revision = 6;
    moved.turn = 1;
    let revision = check(&moved, true).unwrap();
    assert_eq!(revision.path, "$.proposal.binding.authorityRevision");
    assert_eq!(revision.message, "the option belongs to a different authority revision");

    let mut foreign = bound.clone();
    foreign.session_binding_id = "session-2".to_owned();
    foreign.scenario_fingerprint = fingerprint("00000000000000bb");
    let session = check(&foreign, true).unwrap();
    assert_eq!(session.path, "$.proposal.binding.sessionBindingId");

    let mut rescored = bound.clone();
    rescored.scenario_fingerprint = fingerprint("00000000000000bb");
    assert_eq!(check(&rescored, true).unwrap().path, "$.proposal.binding.scenarioFingerprint");

    let mut other_actor = bound.clone();
    other_actor.current_actor_id = "foe".to_owned();
    assert_eq!(check(&other_actor, true).unwrap().path, "$.proposal.binding.currentActorId");
}

fn burst_at_anchor() -> RpgTargetSelector {
    RpgTargetSelector {
        area: Some(RpgAreaSelector {
            origin: RpgAreaOrigin::Anchor,
            shape: RpgAreaShape::Diamond { radius: 0 },
            living_required: true,
            minimum_targets: 1,
        }),
        maximum_range: 6,
        line_of_effect: RpgLineOfEffectRequirement::Required,
        team: RpgTeamConstraint::Hostile,
        maximum_targets: 2,
    }
}

#[test]
fn offered_area_anchors_prepare_to_their_projection() {
    let board = corridor();
    let entities = vec![entity("hero", "heroes", 1, 5), entity("foe", "foes", 0, 5)];
    let hero = "hero".to_owned();
    let targets = burst_at_anchor();
    let options = area_options(&board, &entities, &hero, &targets, &vec![None; 5], None);
    let offered = &options.area_options[0];
    let anchor = vec![RpgIntentCellTarget {
        id: offered.anchor_cell_id.clone(),
        position: GridPosition { x: 0, y: 0 },
    }];
    let prepared = prepare_area_command(&board, &entities, &hero, &targets, &Vec::new(), &anchor).unwrap();
    assert_eq!(prepared.target_ids, vec!["foe".to_owned()]);
    assert_eq!(prepared.projection.included_participant_ids, offered.included_participant_ids);
    let cells: Vec<(&str, u32)> = prepared.cell_targets.iter().map(|c| (c.id.as_str(), c.position.x)).collect();
    assert_eq!(cells, vec![("cell-0-0", 0)]);
}

#[test]
fn area_commands_are_refused_for_each_binding_fault() {
    let board = corridor();
    let entities = vec![entity("hero", "heroes", 1, 5), entity("foe", "foes", 0, 5)];
    let hero = "hero".to_owned();
    let targets = burst_at_anchor();
    let at = |id: &str, x: u32| RpgIntentCellTarget {
        id: id.to_owned(),
        position: GridPosition { x, y: 0 },
    };

    let shaped = prepare_area_command(&board, &entities, &hero, &targets, &vec!["foe".to_owned()], &vec![at("cell-0-0", 0)])
        .unwrap_err();
    assert_eq!(shaped.code, "RPG_AREA_COMMAND_BINDING_INVALID");
    assert_eq!(shaped.path, "$.command.intent");
    let two = prepare_area_command(&board, &entities, &hero, &targets, &Vec::new(), &vec![at("cell-0-0", 0), at("cell-1-0", 1)])
        .unwrap_err();
    assert_eq!(two.code, "RPG_AREA_COMMAND_BINDING_INVALID");

    let forged = prepare_area_command(&board, &entities, &hero, &targets, &Vec::new(), &vec![at("cell-0-0", 3)]).unwrap_err();
    assert_eq!(forged.code, "RPG_AREA_OPTION_INVALID");
    assert_eq!(forged.message, "the area anchor does not match the current encounter board");
    let unknown = prepare_area_command(&board, &entities, &hero, &targets, &Vec::new(), &vec![at("missing", 0)]).unwrap_err();
    assert_eq!(unknown.path, "$.command.intent.cellTargets[0]");

    let empty = prepare_area_command(&board, &entities, &hero, &targets, &Vec::new(), &vec![at("cell-2-0", 2)]).unwrap_err();
    assert_eq!(empty.code, "RPG_AREA_OPTION_INVALID");
    assert_eq!(empty.message, "the area anchor is not projectable in the current authority state");
}

#[test]
fn offered_destinations_and_targets_pass_the_submission_checks() {
    let board = corridor();
    let entities = vec![entity("hero", "heroes", 1, 5), entity("near", "foes", 0, 5), entity("fallen", "foes", 3, 0)];
    let hero = "hero".to_owned();
    let paths = vec![path("cell-0-0", 1), path("cell-3-0", 2)];
    let cells = cell_options(
        &board,
        &entities,
        &hero,
        &paths,
        RpgLineOfEffectRequirement::NotRequired,
        &vec![None, None],
        None,
    );
    for offered in &cells.cell_paths {
        let target = vec![offered.destination_cell_id.clone()];
        let x = if offered.destination_cell_id == "cell-0-0" { 0 } else { 3 };
        let binding = vec![RpgIntentCellTarget {
            id: offered.destination_cell_id.clone(),
            position: GridPosition { x, y: 0 },
        }];
        assert!(movement_path_rejection(&paths, Some(2), &target).is_none());
        assert!(cell_binding_rejection(&board, Some(RpgTargetKind::Cell), &target, &binding).is_none());
    }
    let participants = participant_options(
        &board,
        &entities,
        &hero,
        &vec!["near".to_owned(), "fallen".to_owned()],
        RpgLineOfEffectRequirement::NotRequired,
        &vec![None, None],
        None,
    );
    assert_eq!(participants.participant_ids, vec!["near".to_owned()]);
    for offered in &participants.participant_ids {
        assert!(living_intent_rejection(&entities, &hero, &vec![offered.clone()]).is_none());
    }
    assert!(living_intent_rejection(&entities, &hero, &vec!["fallen".to_owned()]).is_some());
}

#[test]
fn area_proposals_are_checked_before_their_area_is_prepared() {
    let board = corridor();
    let session = "session-1".to_owned();
    let anchor = "cell-3-0".to_owned();
    let bound = area_proposal_anchor(&board, &session, 4, &session, 4, Some(RpgTargetKind::Area), &anchor).unwrap();
    assert_eq!(bound.id, "cell-3-0");
    assert_eq!(bound.position, GridPosition { x: 3, y: 0 });

    let foreign = area_proposal_anchor(&board, &session, 4, &"session-2".to_owned(), 4, Some(RpgTargetKind::Area), &anchor)
        .unwrap_err();
    assert_eq!(foreign.code, "RPG_AREA_OPTION_STALE");
    assert_eq!(foreign.path, "$.proposal.sessionBindingId");
    let stale = area_proposal_anchor(&board, &session, 4, &session, 3, Some(RpgTargetKind::Area), &anchor).unwrap_err();
    assert_eq!(stale.path, "$.proposal.authorityRevision");
    assert_eq!(stale.message, "the area option is at revision 3, but authority is at 4");
    let unselected = area_proposal_anchor(&board, &session, 4, &session, 4, None, &anchor).unwrap_err();
    assert_eq!(unselected.code, "RPG_AREA_OPTION_INVALID");
    assert_eq!(unselected.path, "$.proposal.actionId");
    let single = area_proposal_anchor(&board, &session, 4, &session, 4, Some(RpgTargetKind::Participant), &anchor)
        .unwrap_err();
    assert_eq!(single.path, "$.proposal.anchorCellId");
    let missing = area_proposal_anchor(&board, &session, 4, &session, 4, Some(RpgTargetKind::Area), &"nowhere".to_owned())
        .unwrap_err();
    assert_eq!(missing.message, "the selected area anchor is not projectable at this authority revision");
}
