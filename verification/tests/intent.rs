use rpg_runtime::board::{
    GridPosition, RpgBoardSetup, RpgCellCapabilitySetup, RpgCellCapabilityValue, RpgCellSetup,
    RPG_LINE_OF_EFFECT_OBSTRUCTION_ID, RPG_LINE_OF_EFFECT_OBSTRUCTION_VERSION,
};
use rpg_runtime::intent::{
    cell_binding_rejection, line_of_effect_rejection, movement_path_rejection,
    proposal_cell_targets, RpgIntentCellTarget, RpgTargetKind,
};
use rpg_runtime::model::{BoundedValue, RpgEntityState, RpgTurnControl};
use rpg_runtime::movement::{movement_paths, RpgCellPathView};
use rpg_runtime::restore::{record, record_control, RpgEncounterLogRecord};

fn board() -> RpgBoardSetup {
    let cell = |x: u32, blocks: bool| RpgCellSetup {
        id: format!("cell-{x}-0"),
        position: GridPosition { x, y: 0 },
        capabilities: vec![RpgCellCapabilitySetup {
            id: RPG_LINE_OF_EFFECT_OBSTRUCTION_ID.to_owned(),
            version: RPG_LINE_OF_EFFECT_OBSTRUCTION_VERSION,
            definition_id: None,
            value: RpgCellCapabilityValue::LineOfEffectObstruction { blocks },
        }],
    };
    RpgBoardSetup {
        width: 5,
        height: 1,
        cells: vec![cell(0, false), cell(1, false), cell(2, true), cell(3, false), cell(4, false)],
    }
}

fn entity(id: &str, x: u32) -> RpgEntityState {
    RpgEntityState {
        id: id.to_owned(),
        team_id: id.to_owned(),
        position: GridPosition { x, y: 0 },
        vitality: BoundedValue { current: 5, max: 5 },
        class_definition_id: None,
        character_feature_ids: Vec::new(),
        activation_budgets: Vec::new(),
        effects: Vec::new(),
    }
}

fn target(id: &str, x: u32) -> RpgIntentCellTarget {
    RpgIntentCellTarget {
        id: id.to_owned(),
        position: GridPosition { x, y: 0 },
    }
}

#[test]
fn cell_proposals_bind_known_cells_only() {
    let board = board();
    let ids = vec!["cell-3-0".to_owned(), "missing".to_owned(), "cell-1-0".to_owned()];
    let bound = proposal_cell_targets(&board, Some(RpgTargetKind::Cell), &ids);
    let views: Vec<(&str, u32)> = bound.iter().map(|c| (c.id.as_str(), c.position.x)).collect();
    assert_eq!(views, vec![("cell-3-0", 3), ("cell-1-0", 1)]);
    assert!(proposal_cell_targets(&board, Some(RpgTargetKind::Participant), &ids).is_empty());
    assert!(proposal_cell_targets(&board, None, &ids).is_empty());
}

#[test]
fn cell_bindings_must_match_the_board() {
    let board = board();
    let ids = vec!["cell-3-0".to_owned()];
    assert!(cell_binding_rejection(&board, Some(RpgTargetKind::Cell), &ids, &vec![target("cell-3-0", 3)])
        .is_none());
    let unexpected = cell_binding_rejection(
        &board,
        Some(RpgTargetKind::Participant),
        &ids,
        &vec![target("cell-3-0", 3)],
    )
    .unwrap();
    assert_eq!(unexpected.code, "RPG_INTENT_CELL_BINDING_UNEXPECTED");
    let missing = cell_binding_rejection(&board, Some(RpgTargetKind::Cell), &ids, &Vec::new()).unwrap();
    assert_eq!(missing.code, "RPG_INTENT_CELL_BINDING_MISSING");
    let forged = cell_binding_rejection(&board, Some(RpgTargetKind::Cell), &ids, &vec![target("cell-3-0", 4)])
        .unwrap();
    assert_eq!(forged.code, "RPG_INTENT_CELL_BINDING_MISMATCH");
    assert_eq!(forged.path, "$.command.intent.cellTargets[0].position");
    assert_eq!(forged.message, "selected cell cell-3-0 does not match the encounter board");
    let unknown = cell_binding_rejection(
        &board,
        Some(RpgTargetKind::Area),
        &Vec::new(),
        &vec![target("cell-1-0", 1), target("missing", 9)],
    )
    .unwrap();
    assert_eq!(unknown.code, "RPG_INTENT_CELL_UNKNOWN");
    assert_eq!(unknown.path, "$.command.intent.cellTargets[1].id");
    assert_eq!(unknown.message, "unknown encounter cell missing");
}

#[test]
fn movement_destinations_need_a_path() {
    let board = board();
    let entities = vec![entity("hero", 0)];
    let paths = movement_paths(&board, &entities, &"hero".to_owned(), 2);
    let ids = vec!["cell-1-0".to_owned()];
    assert!(movement_path_rejection(&paths, Some(2), &ids).is_none());
    let far = vec!["cell-1-0".to_owned(), "cell-4-0".to_owned()];
    let rejection = movement_path_rejection(&paths, Some(2), &far).unwrap();
    assert_eq!(rejection.code, "RPG_MOVEMENT_PATH_UNAVAILABLE");
    assert_eq!(rejection.path, "$.command.intent.targetIds[1]");
    assert_eq!(
        rejection.message,
        "destination cell-4-0 has no traversable path within movement cost 2"
    );
    assert!(movement_path_rejection(&Vec::<RpgCellPathView>::new(), None, &far).is_none());
}

#[test]
fn line_of_effect_is_required_for_listed_targets() {
    let board = board();
    let entities = vec![entity("hero", 0), entity("ally", 1), entity("guardian", 4)];
    let hero = "hero".to_owned();
    let blocked = line_of_effect_rejection(
        &board,
        &entities,
        &hero,
        Some(RpgTargetKind::Participant),
        true,
        &vec!["ally".to_owned(), "absent".to_owned(), "guardian".to_owned()],
        &Vec::new(),
    )
    .unwrap();
    assert_eq!(blocked.code, "RPG_LINE_OF_EFFECT_BLOCKED");
    assert_eq!(blocked.path, "$.command.intent.targetIds[2]");
    assert_eq!(blocked.message, "line of effect is blocked by [cell-2-0]");
    assert!(line_of_effect_rejection(
        &board,
        &entities,
        &hero,
        Some(RpgTargetKind::Participant),
        false,
        &vec!["guardian".to_owned()],
        &Vec::new(),
    )
    .is_none());
    let cell = line_of_effect_rejection(
        &board,
        &entities,
        &hero,
        Some(RpgTargetKind::Cell),
        true,
        &Vec::new(),
        &vec![target("cell-1-0", 1), target("cell-3-0", 3)],
    )
    .unwrap();
    assert_eq!(cell.path, "$.command.intent.cellTargets[1]");
    assert!(line_of_effect_rejection(
        &board,
        &entities,
        &hero,
        Some(RpgTargetKind::Area),
        true,
        &Vec::new(),
        &vec![target("cell-3-0", 3)],
    )
    .is_none());
}

#[test]
fn recorded_entries_are_numbered_in_sequence() {
    let mut log: Vec<RpgEncounterLogRecord> = Vec::new();
    record(&mut log, 1, "hero".to_owned(), "action.strike".to_owned(), None);
    record_control(&mut log, 2, "hero".to_owned(), RpgTurnControl::EndTurn);
    assert_eq!(log.len(), 2);
    assert_eq!(log[0].sequence, 1);
    assert_eq!(log[1].sequence, 2);
    assert_eq!(log[1].action_id, "control.end-turn");
    assert_eq!(log[1].state_revision, 2);
    assert!(log[1].item_binding.is_none());
}
