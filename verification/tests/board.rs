use rpg_runtime::board::{
    GridPosition, RpgBoardSetup, RpgCellCapabilitySetup, RpgCellCapabilityValue, RpgCellSetup,
    RpgLineOfEffectReason, RPG_LINE_OF_EFFECT_OBSTRUCTION_ID,
    RPG_LINE_OF_EFFECT_OBSTRUCTION_VERSION,
};
use rpg_runtime::model::{BoundedValue, RpgEntityState};
use rpg_runtime::movement::movement_paths;
use rpg_runtime::sight::{line_of_effect_projection, line_of_effect_supercover};

fn line_board(width: u32, height: u32, blocked: &[(u32, u32)]) -> RpgBoardSetup {
    RpgBoardSetup {
        width,
        height,
        cells: (0..height)
            .flat_map(|y| {
                (0..width).map(move |x| RpgCellSetup {
                    id: format!("cell-{x}-{y}"),
                    position: GridPosition { x, y },
                    capabilities: vec![RpgCellCapabilitySetup {
                        id: RPG_LINE_OF_EFFECT_OBSTRUCTION_ID.to_owned(),
                        version: RPG_LINE_OF_EFFECT_OBSTRUCTION_VERSION,
                        definition_id: None,
                        value: RpgCellCapabilityValue::LineOfEffectObstruction {
                            blocks: blocked.contains(&(x, y)),
                        },
                    }],
                })
            })
            .collect(),
    }
}

#[test]
fn square_supercover_is_clear_and_reports_canonical_blockers() {
    let clear_board = line_board(4, 1, &[]);
    let clear = line_of_effect_projection(
        &clear_board,
        GridPosition { x: 0, y: 0 },
        GridPosition { x: 3, y: 0 },
    );
    assert!(clear.clear);
    assert_eq!(clear.reason, None);
    assert!(clear.blocking_cell_ids.is_empty());

    let blocked_board = line_board(5, 1, &[(1, 0), (3, 0)]);
    let blocked = line_of_effect_projection(
        &blocked_board,
        GridPosition { x: 0, y: 0 },
        GridPosition { x: 4, y: 0 },
    );
    assert!(!blocked.clear);
    assert_eq!(blocked.reason, Some(RpgLineOfEffectReason::Blocked));
    assert_eq!(
        blocked.blocking_cell_ids,
        vec!["cell-1-0".to_owned(), "cell-3-0".to_owned()]
    );
}

#[test]
fn square_supercover_includes_both_cells_at_a_diagonal_corner_tie() {
    let board = line_board(3, 3, &[(1, 0), (0, 1)]);
    assert_eq!(
        line_of_effect_projection(
            &board,
            GridPosition { x: 0, y: 0 },
            GridPosition { x: 2, y: 2 },
        )
        .blocking_cell_ids,
        vec!["cell-1-0".to_owned(), "cell-0-1".to_owned()]
    );
}

#[test]
fn square_supercover_fails_closed_when_an_endpoint_or_traversed_cell_is_missing() {
    let mut board = line_board(4, 1, &[]);
    board.cells.retain(|cell| cell.position.x != 2);
    assert_eq!(
        line_of_effect_projection(
            &board,
            GridPosition { x: 0, y: 0 },
            GridPosition { x: 3, y: 0 },
        )
        .reason,
        Some(RpgLineOfEffectReason::CellMissing)
    );
    assert_eq!(
        line_of_effect_projection(
            &board,
            GridPosition { x: 0, y: 0 },
            GridPosition { x: 4, y: 0 },
        )
        .reason,
        Some(RpgLineOfEffectReason::CellMissing)
    );
}

#[test]
fn supercover_walks_a_shallow_diagonal_through_every_crossed_cell() {
    let walk = line_of_effect_supercover(GridPosition { x: 0, y: 0 }, GridPosition { x: 3, y: 1 });
    assert_eq!(
        walk,
        vec![
            GridPosition { x: 1, y: 0 },
            GridPosition { x: 2, y: 0 },
            GridPosition { x: 1, y: 1 },
            GridPosition { x: 2, y: 1 },
            GridPosition { x: 3, y: 1 },
        ]
    );
    let backwards =
        line_of_effect_supercover(GridPosition { x: 2, y: 2 }, GridPosition { x: 0, y: 0 });
    assert_eq!(
        backwards,
        vec![
            GridPosition { x: 2, y: 1 },
            GridPosition { x: 1, y: 2 },
            GridPosition { x: 1, y: 1 },
            GridPosition { x: 1, y: 0 },
            GridPosition { x: 0, y: 1 },
            GridPosition { x: 0, y: 0 },
        ]
    );
    assert!(line_of_effect_supercover(GridPosition { x: 4, y: 4 }, GridPosition { x: 4, y: 4 }).is_empty());
}

fn movement_cell(id: &str, x: u32, y: u32, passable: bool, movement_cost: u32) -> RpgCellSetup {
    RpgCellSetup {
        id: id.to_owned(),
        position: GridPosition { x, y },
        capabilities: vec![RpgCellCapabilitySetup {
            id: "capability.traversal".to_owned(),
            version: 1,
            definition_id: None,
            value: RpgCellCapabilityValue::Traversal {
                passable,
                movement_cost,
            },
        }],
    }
}

fn movement_board() -> RpgBoardSetup {
    RpgBoardSetup {
        width: 5,
        height: 3,
        cells: (0..3)
            .flat_map(|y| {
                (0..5).map(move |x| {
                    movement_cell(&format!("cell-{x}-{y}"), x, y, (x, y) != (1, 1), 1)
                })
            })
            .collect(),
    }
}

fn movement_entities() -> Vec<RpgEntityState> {
    vec![
        RpgEntityState {
            id: "hero".to_owned(),
            team_id: "ally".to_owned(),
            position: GridPosition { x: 0, y: 1 },
            vitality: BoundedValue { current: 20, max: 20 },
            class_definition_id: None,
            character_feature_ids: Vec::new(),
            activation_budgets: Vec::new(),
            effects: Vec::new(),
        },
        RpgEntityState {
            id: "guardian".to_owned(),
            team_id: "enemy".to_owned(),
            position: GridPosition { x: 3, y: 1 },
            vitality: BoundedValue { current: 20, max: 20 },
            class_definition_id: None,
            character_feature_ids: Vec::new(),
            activation_budgets: Vec::new(),
            effects: Vec::new(),
        },
    ]
}

fn capabilities_of<'a>(board: &'a mut RpgBoardSetup, id: &str) -> &'a mut Vec<RpgCellCapabilitySetup> {
    &mut board
        .cells
        .iter_mut()
        .find(|cell| cell.id == id)
        .unwrap()
        .capabilities
}

#[test]
fn movement_paths_cover_costs_obstacles_occupancy_bounds_and_ties() {
    let board = movement_board();
    let entities = movement_entities();
    let hero = "hero".to_owned();
    let paths = movement_paths(&board, &entities, &hero, 8);
    let straight = paths
        .iter()
        .find(|path| path.destination_cell_id == "cell-0-0")
        .unwrap();
    assert_eq!(straight.cell_ids, vec!["cell-0-0"]);
    assert_eq!(straight.movement_cost, 1);

    let equal_cost_detour = paths
        .iter()
        .find(|path| path.destination_cell_id == "cell-2-1")
        .unwrap();
    assert_eq!(
        equal_cost_detour.cell_ids,
        vec!["cell-0-0", "cell-1-0", "cell-2-0", "cell-2-1"]
    );
    assert_eq!(equal_cost_detour.movement_cost, 4);

    let around_occupied_cell = paths
        .iter()
        .find(|path| path.destination_cell_id == "cell-4-1")
        .unwrap();
    assert_eq!(
        around_occupied_cell.cell_ids,
        vec!["cell-0-0", "cell-1-0", "cell-2-0", "cell-3-0", "cell-4-0", "cell-4-1",]
    );
    assert!(!around_occupied_cell
        .cell_ids
        .contains(&"cell-3-1".to_owned()));

    let bounded = movement_paths(&board, &entities, &hero, 3);
    assert!(!bounded
        .iter()
        .any(|path| path.destination_cell_id == "cell-2-1"));

    let mut weighted_board = movement_board();
    capabilities_of(&mut weighted_board, "cell-0-0")[0].value = RpgCellCapabilityValue::Traversal {
        passable: true,
        movement_cost: 2,
    };
    let weighted = movement_paths(&weighted_board, &entities, &hero, 8);
    let weighted_detour = weighted
        .iter()
        .find(|path| path.destination_cell_id == "cell-2-1")
        .unwrap();
    assert_eq!(
        weighted_detour.cell_ids,
        vec!["cell-0-2", "cell-1-2", "cell-2-2", "cell-2-1"]
    );
    assert_eq!(weighted_detour.movement_cost, 4);

    let mut trapped_board = movement_board();
    for cell_id in ["cell-0-0", "cell-0-2"] {
        capabilities_of(&mut trapped_board, cell_id)[0].value = RpgCellCapabilityValue::Traversal {
            passable: false,
            movement_cost: 1,
        };
    }
    assert!(movement_paths(&trapped_board, &entities, &hero, 8).is_empty());

    let mut default_traversal_board = movement_board();
    capabilities_of(&mut default_traversal_board, "cell-0-0").clear();
    let default_paths = movement_paths(&default_traversal_board, &entities, &hero, 1);
    assert_eq!(default_paths[0].destination_cell_id, "cell-0-0");
    assert_eq!(default_paths[0].movement_cost, 1);
}

#[test]
fn movement_paths_are_empty_for_an_unknown_actor() {
    let board = movement_board();
    let entities = movement_entities();
    assert!(movement_paths(&board, &entities, &"nobody".to_owned(), 8).is_empty());
}

#[test]
fn line_of_effect_is_the_same_traced_from_either_end() {
    let board = line_board(5, 3, &[(1, 0), (2, 1), (3, 1), (3, 2)]);
    let a = GridPosition { x: 0, y: 0 };
    let b = GridPosition { x: 4, y: 2 };
    let forward = line_of_effect_projection(&board, a, b);
    let backward = line_of_effect_projection(&board, b, a);
    assert!(!forward.clear);
    assert_eq!(forward.clear, backward.clear);
    assert_eq!(forward.reason, backward.reason);
    let mut forward_ids = forward.blocking_cell_ids.clone();
    let mut backward_ids = backward.blocking_cell_ids.clone();
    forward_ids.sort();
    backward_ids.sort();
    assert_eq!(
        forward_ids,
        vec![
            "cell-1-0".to_owned(),
            "cell-2-1".to_owned(),
            "cell-3-1".to_owned(),
            "cell-3-2".to_owned(),
        ]
    );
    assert_eq!(forward_ids, backward_ids);

    let c = GridPosition { x: 0, y: 2 };
    let d = GridPosition { x: 4, y: 0 };
    assert_eq!(
        line_of_effect_projection(&board, c, d).reason,
        line_of_effect_projection(&board, d, c).reason
    );
}
