use rpg_runtime::area::{
    area_projection, occupants_at, RpgAreaOrigin, RpgAreaSelector, RpgAreaShape,
    RpgLineOfEffectRequirement, RpgTargetSelector, RpgTeamConstraint,
};
use rpg_runtime::board::{
    GridPosition, RpgBoardSetup, RpgCellCapabilitySetup, RpgCellCapabilityValue, RpgCellSetup,
    RPG_LINE_OF_EFFECT_OBSTRUCTION_ID, RPG_LINE_OF_EFFECT_OBSTRUCTION_VERSION,
};
use rpg_runtime::model::{BoundedValue, RpgEntityState};

fn board(width: u32, height: u32, blocked: &[(u32, u32)], missing: &[(u32, u32)]) -> RpgBoardSetup {
    let mut cells = Vec::new();
    for y in 0..height {
        for x in 0..width {
            if missing.contains(&(x, y)) {
                continue;
            }
            cells.push(RpgCellSetup {
                id: format!("cell-{x}-{y}"),
                position: GridPosition { x, y },
                capabilities: vec![RpgCellCapabilitySetup {
                    id: RPG_LINE_OF_EFFECT_OBSTRUCTION_ID.to_owned(),
                    version: RPG_LINE_OF_EFFECT_OBSTRUCTION_VERSION,
                    definition_id: None,
                    value: RpgCellCapabilityValue::LineOfEffectObstruction {
                        blocks: blocked.contains(&(x, y)),
                    },
                }],
            });
        }
    }
    RpgBoardSetup {
        width,
        height,
        cells,
    }
}

fn entity(id: &str, team: &str, x: u32, y: u32, vitality: i32) -> RpgEntityState {
    RpgEntityState {
        id: id.to_owned(),
        team_id: team.to_owned(),
        position: GridPosition { x, y },
        vitality: BoundedValue {
            current: vitality,
            max: 20,
        },
        class_definition_id: None,
        character_feature_ids: Vec::new(),
        activation_budgets: Vec::new(),
        effects: Vec::new(),
    }
}

fn burst(radius: u32, team: RpgTeamConstraint, loe: RpgLineOfEffectRequirement) -> RpgTargetSelector {
    RpgTargetSelector {
        area: Some(RpgAreaSelector {
            origin: RpgAreaOrigin::Anchor,
            shape: RpgAreaShape::Diamond { radius },
            living_required: true,
            minimum_targets: 0,
        }),
        maximum_range: 6,
        line_of_effect: loe,
        team,
        maximum_targets: 4,
    }
}

#[test]
fn diamond_cells_come_nearest_first_then_by_row_and_column() {
    let board = board(5, 5, &[], &[]);
    let entities = vec![
        entity("hero", "ally", 0, 0, 20),
        entity("guardian", "enemy", 2, 1, 20),
        entity("ally", "ally", 1, 2, 20),
        entity("fallen", "enemy", 3, 2, 0),
    ];
    let projection = area_projection(
        &board,
        &entities,
        &"hero".to_owned(),
        &burst(1, RpgTeamConstraint::Hostile, RpgLineOfEffectRequirement::NotRequired),
        &"cell-2-2".to_owned(),
    )
    .unwrap();
    let cells: Vec<&str> = projection.included_cells.iter().map(|c| c.id.as_str()).collect();
    assert_eq!(cells, vec!["cell-2-2", "cell-2-1", "cell-1-2", "cell-3-2", "cell-2-3"]);
    assert_eq!(projection.origin_cell_id, "cell-2-2");
    assert_eq!(projection.anchor_cell_id, "cell-2-2");
    assert!(projection.filtered_cells.is_empty());
    assert_eq!(projection.included_participant_ids, vec!["guardian".to_owned()]);
    let refused: Vec<(&str, &str)> = projection
        .filtered_participants
        .iter()
        .map(|p| (p.participant_id.as_str(), p.reason.as_str()))
        .collect();
    assert_eq!(refused, vec![("ally", "teamMismatch"), ("fallen", "notLiving")]);
}

#[test]
fn diamond_edges_outside_the_board_or_missing_are_listed() {
    let board = board(3, 3, &[], &[(1, 0)]);
    let entities = vec![entity("hero", "ally", 2, 2, 20)];
    let projection = area_projection(
        &board,
        &entities,
        &"hero".to_owned(),
        &burst(1, RpgTeamConstraint::Any, RpgLineOfEffectRequirement::NotRequired),
        &"cell-0-0".to_owned(),
    )
    .unwrap();
    let cells: Vec<&str> = projection.included_cells.iter().map(|c| c.id.as_str()).collect();
    assert_eq!(cells, vec!["cell-0-0", "cell-0-1"]);
    let filtered: Vec<(i64, i64, &str)> = projection
        .filtered_cells
        .iter()
        .map(|c| (c.x, c.y, c.reason.as_str()))
        .collect();
    assert_eq!(
        filtered,
        vec![(0, -1, "outsideBoard"), (-1, 0, "outsideBoard"), (1, 0, "cellMissing")]
    );
}

#[test]
fn blocked_cells_are_cut_off_with_their_occupants() {
    let board = board(5, 1, &[(2, 0)], &[]);
    let entities = vec![entity("hero", "ally", 0, 0, 20), entity("guardian", "enemy", 3, 0, 20)];
    let projection = area_projection(
        &board,
        &entities,
        &"hero".to_owned(),
        &RpgTargetSelector {
            area: Some(RpgAreaSelector {
                origin: RpgAreaOrigin::Actor,
                shape: RpgAreaShape::OrthogonalLine { length: 4 },
                living_required: true,
                minimum_targets: 0,
            }),
            maximum_range: 4,
            line_of_effect: RpgLineOfEffectRequirement::Required,
            team: RpgTeamConstraint::Hostile,
            maximum_targets: 4,
        },
        &"cell-1-0".to_owned(),
    )
    .unwrap();
    assert_eq!(projection.origin_cell_id, "cell-0-0");
    let cells: Vec<&str> = projection.included_cells.iter().map(|c| c.id.as_str()).collect();
    assert_eq!(cells, vec!["cell-1-0", "cell-2-0"]);
    let filtered: Vec<(i64, &str)> = projection
        .filtered_cells
        .iter()
        .map(|c| (c.x, c.reason.as_str()))
        .collect();
    assert_eq!(filtered, vec![(3, "lineOfEffectBlocked"), (4, "lineOfEffectBlocked")]);
    assert_eq!(projection.filtered_cells[0].blocking_cell_ids, vec!["cell-2-0".to_owned()]);
    assert!(projection.included_participant_ids.is_empty());
    assert_eq!(projection.filtered_participants.len(), 1);
    assert_eq!(projection.filtered_participants[0].participant_id, "guardian");
    assert_eq!(projection.filtered_participants[0].reason, "lineOfEffectBlocked");
}

#[test]
fn area_projection_refuses_what_it_cannot_anchor() {
    let board = board(5, 5, &[], &[]);
    let entities = vec![entity("hero", "ally", 0, 0, 20), entity("guardian", "enemy", 2, 2, 20)];
    let hero = "hero".to_owned();
    let selector = burst(1, RpgTeamConstraint::Hostile, RpgLineOfEffectRequirement::NotRequired);
    assert!(area_projection(&board, &entities, &hero, &selector, &"cell-9-9".to_owned()).is_none());
    assert!(area_projection(&board, &entities, &"nobody".to_owned(), &selector, &"cell-2-2".to_owned()).is_none());
    let mut far = selector;
    far.maximum_range = 3;
    assert!(area_projection(&board, &entities, &hero, &far, &"cell-2-2".to_owned()).is_none());
    let mut too_big = selector;
    too_big.area = Some(RpgAreaSelector {
        origin: RpgAreaOrigin::Anchor,
        shape: RpgAreaShape::Diamond { radius: 11 },
        living_required: false,
        minimum_targets: 0,
    });
    assert!(area_projection(&board, &entities, &hero, &too_big, &"cell-2-2".to_owned()).is_none());
    let mut crowded = selector;
    crowded.maximum_targets = 0;
    assert!(area_projection(&board, &entities, &hero, &crowded, &"cell-2-2".to_owned()).is_none());
    let mut mismatched = selector;
    mismatched.area = Some(RpgAreaSelector {
        origin: RpgAreaOrigin::Actor,
        shape: RpgAreaShape::Diamond { radius: 1 },
        living_required: false,
        minimum_targets: 0,
    });
    assert!(area_projection(&board, &entities, &hero, &mismatched, &"cell-2-2".to_owned()).is_none());
}

#[test]
fn occupants_are_listed_in_identity_order() {
    let entities = vec![
        entity("zeta", "a", 1, 1, 1),
        entity("alpha", "a", 1, 1, 1),
        entity("other", "a", 0, 0, 1),
        entity("mid", "a", 1, 1, 1),
    ];
    assert_eq!(occupants_at(&entities, GridPosition { x: 1, y: 1 }), vec![1, 3, 0]);
    assert!(occupants_at(&entities, GridPosition { x: 4, y: 4 }).is_empty());
}
