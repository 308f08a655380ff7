use rpg_runtime::board::{
    GridPosition, RpgBoardSetup, RpgCellCapabilitySetup, RpgCellCapabilityValue, RpgCellSetup,
};
use rpg_runtime::model::{
    BoundedValue, RpgCapabilityFacts, RpgEntityState, RpgPortableNamedInteger, RpgTurnControl,
    RPG_END_TURN_CONTROL_ID,
};
use rpg_runtime::restore::{
    runtime_board_rejection, validate_restored_encounter, RpgActivationBudgetRule,
    RpgEncounterLogRecord, RpgIntentItemBinding, RpgItemBindingRule, RpgRestoreRules,
};
use rpg_runtime::scenario::{
    RpgEquipmentSlotSetup, RpgInitialCapability, RpgItemInstanceSetup, RpgParticipantSetup,
    RpgRandomSourceBinding, RpgSchemaIdentity, RpgScenario, RpgTurnInitialization,
};
use rpg_runtime::area::RpgLineOfEffectRequirement;
use rpg_runtime::options::participant_options;
use rpg_runtime::session::action_unavailability;
use rpg_runtime::turn::{
    encounter_outcome, living_intent_rejection, next_turn, participant_is_living, turn_advances,
    RpgEncounterOutcomeView, RpgTurnState,
};

fn entity(id: &str, team: &str, x: u32, y: u32, vitality: i32) -> RpgEntityState {
    RpgEntityState {
        id: id.to_owned(),
        team_id: team.to_owned(),
        position: GridPosition { x, y },
        vitality: BoundedValue {
            current: vitality,
            max: 20,
        },
        class_definition_id: None,
        character_feature_ids: Vec::new(),
        activation_budgets: Vec::new(),
        effects: Vec::new(),
    }
}

fn turn(order: &[&str], current: &str, round: u64, turn: u64) -> RpgTurnState {
    RpgTurnState {
        initiative_order: order.iter().map(|id| id.to_string()).collect(),
        current_actor_id: current.to_owned(),
        round,
        turn,
    }
}

#[test]
fn next_turn_skips_inactive_participants_and_wraps_the_round() {
    let entities = vec![
        entity("hero", "ally", 0, 0, 20),
        entity("guardian", "enemy", 1, 0, 0),
        entity("raider", "enemy", 2, 0, 5),
    ];
    let first = next_turn(&turn(&["hero", "guardian", "raider"], "hero", 1, 1), &entities);
    assert_eq!(first.current_actor_id, "raider");
    assert_eq!(first.round, 1);
    assert_eq!(first.turn, 2);
    let second = next_turn(&first, &entities);
    assert_eq!(second.current_actor_id, "hero");
    assert_eq!(second.round, 2);
    assert_eq!(second.turn, 3);
    assert_eq!(second.initiative_order, first.initiative_order);
}

#[test]
fn next_turn_with_a_single_living_participant_returns_to_it_next_round() {
    let entities = vec![entity("hero", "ally", 0, 0, 20), entity("guardian", "enemy", 1, 0, 0)];
    let next = next_turn(&turn(&["hero", "guardian"], "hero", 3, 7), &entities);
    assert_eq!(next.current_actor_id, "hero");
    assert_eq!(next.round, 4);
    assert_eq!(next.turn, 8);
}

#[test]
fn next_turn_without_living_participants_or_order_is_unchanged() {
    let entities = vec![entity("hero", "ally", 0, 0, 0)];
    let same = next_turn(&turn(&["hero"], "hero", 1, 1), &entities);
    assert_eq!(same.current_actor_id, "hero");
    assert_eq!((same.round, same.turn), (1, 1));
    let empty = next_turn(&turn(&[], "hero", 1, 1), &entities);
    assert_eq!(empty.current_actor_id, "hero");
    assert_eq!((empty.round, empty.turn), (1, 1));
}

#[test]
fn next_turn_starts_from_the_first_slot_when_the_actor_is_not_in_order() {
    let entities = vec![entity("a", "x", 0, 0, 1), entity("b", "y", 1, 0, 1)];
    let next = next_turn(&turn(&["a", "b"], "stranger", 1, 1), &entities);
    assert_eq!(next.current_actor_id, "b");
    assert_eq!(next.round, 1);
    let saturated = next_turn(&turn(&["a", "b"], "b", u64::MAX, u64::MAX), &entities);
    assert_eq!(saturated.current_actor_id, "a");
    assert_eq!((saturated.round, saturated.turn), (u64::MAX, u64::MAX));
}

#[test]
fn encounter_outcome_needs_two_living_teams_to_continue() {
    let fighting = vec![entity("hero", "ally", 0, 0, 3), entity("guardian", "enemy", 1, 0, 1)];
    assert!(matches!(encounter_outcome(&fighting), RpgEncounterOutcomeView::InProgress));
    let won = vec![entity("hero", "ally", 0, 0, 3), entity("guardian", "enemy", 1, 0, 0)];
    match encounter_outcome(&won) {
        RpgEncounterOutcomeView::Completed { winning_team_ids } => {
            assert_eq!(winning_team_ids, vec!["ally".to_owned()])
        }
        other => panic!("expected completion, got {other:?}"),
    }
    let nobody = vec![entity("hero", "ally", 0, 0, 0)];
    match encounter_outcome(&nobody) {
        RpgEncounterOutcomeView::Completed { winning_team_ids } => {
            assert!(winning_team_ids.is_empty())
        }
        other => panic!("expected completion, got {other:?}"),
    }
}

#[test]
fn inactive_current_actor_is_unavailable_and_cannot_submit() {
    let entities = vec![
        entity("hero", "ally", 0, 0, 0),
        entity("scout", "ally", 0, 1, 20),
        entity("guardian", "enemy", 1, 0, 20),
        entity("raider", "enemy", 1, 1, 20),
    ];
    assert!(!participant_is_living(&entities, &"hero".to_owned()));
    let board = RpgBoardSetup { width: 2, height: 2, cells: vec![] };
    let actor_refusal = living_intent_rejection(&entities, &"hero".to_owned(), &vec![]);
    assert_eq!(actor_refusal.as_ref().unwrap().code, "RPG_TURN_ACTOR_INACTIVE");
    let options = participant_options(
        &board,
        &entities,
        &"hero".to_owned(),
        &vec!["guardian".to_owned(), "raider".to_owned()],
        RpgLineOfEffectRequirement::NotRequired,
        &vec![None, None],
        actor_refusal,
    );
    assert!(options.participant_ids.is_empty());
    let unavailable = action_unavailability(
        false,
        false,
        !options.participant_ids.is_empty(),
        options.first_rejection,
    )
    .unwrap();
    assert_eq!(unavailable.code, "RPG_TURN_ACTOR_INACTIVE");
    let rejection = living_intent_rejection(
        &entities,
        &"hero".to_owned(),
        &vec!["guardian".to_owned()],
    )
    .unwrap();
    assert_eq!(rejection.code, "RPG_TURN_ACTOR_INACTIVE");
    assert_eq!(rejection.path, "$.command.intent.actorId");
    assert_eq!(rejection.message, "participant hero cannot act without positive vitality");
}

#[test]
fn target_omitted_from_living_candidates_cannot_be_submitted() {
    let entities = vec![
        entity("hero", "ally", 0, 0, 20),
        entity("guardian", "enemy", 1, 0, 0),
        entity("raider", "enemy", 2, 0, 20),
    ];
    let board = RpgBoardSetup { width: 3, height: 1, cells: vec![] };
    let options = participant_options(
        &board,
        &entities,
        &"hero".to_owned(),
        &vec!["guardian".to_owned(), "raider".to_owned()],
        RpgLineOfEffectRequirement::NotRequired,
        &vec![None, None],
        None,
    );
    assert!(!options.participant_ids.contains(&"guardian".to_owned()));
    assert!(options.participant_ids.contains(&"raider".to_owned()));
    assert!(action_unavailability(false, false, !options.participant_ids.is_empty(), options.first_rejection)
        .is_none());
    let rejection = living_intent_rejection(
        &entities,
        &"hero".to_owned(),
        &vec!["guardian".to_owned()],
    )
    .unwrap();
    assert_eq!(rejection.code, "RPG_INTENT_TARGET_INACTIVE");
    assert_eq!(rejection.path, "$.command.intent.targetIds[0]");
    assert!(living_intent_rejection(&entities, &"hero".to_owned(), &vec!["raider".to_owned()])
        .is_none());
    assert!(living_intent_rejection(&entities, &"hero".to_owned(), &vec!["absent".to_owned()])
        .is_none());
}

#[test]
fn end_turn_control_has_its_portable_identifier() {
    assert_eq!(RpgTurnControl::EndTurn.id(), RPG_END_TURN_CONTROL_ID);
    assert_eq!(RpgTurnControl::EndTurn.id(), "control.end-turn");
}

fn blocked_cell(id: &str, x: u32, y: u32) -> RpgCellSetup {
    RpgCellSetup {
        id: id.to_owned(),
        position: GridPosition { x, y },
        capabilities: vec![RpgCellCapabilitySetup {
            id: "terrain.traversal".to_owned(),
            version: 1,
            definition_id: None,
            value: RpgCellCapabilityValue::Traversal {
                passable: false,
                movement_cost: 1,
            },
        }],
    }
}

fn open_cell(id: &str, x: u32, y: u32) -> RpgCellSetup {
    RpgCellSetup {
        id: id.to_owned(),
        position: GridPosition { x, y },
        capabilities: Vec::new(),
    }
}

fn board() -> RpgBoardSetup {
    RpgBoardSetup {
        width: 3,
        height: 1,
        cells: vec![
            open_cell("cell-0-0", 0, 0),
            blocked_cell("cell-1-0", 1, 0),
            open_cell("cell-2-0", 2, 0),
        ],
    }
}

#[test]
fn resolved_positions_must_fit_the_board() {
    let board = board();
    assert!(runtime_board_rejection(
        &board,
        &vec![entity("hero", "ally", 0, 0, 1), entity("guardian", "enemy", 2, 0, 1)]
    )
    .is_none());
    let outside =
        runtime_board_rejection(&board, &vec![entity("hero", "ally", 5, 0, 1)]).unwrap();
    assert_eq!(outside.code, "RPG_BOARD_POSITION_OUT_OF_BOUNDS");
    assert_eq!(outside.path, "$.resolution.state.position");
    assert_eq!(outside.message, "participant hero moved outside the board extent");
    let blocked =
        runtime_board_rejection(&board, &vec![entity("hero", "ally", 1, 0, 1)]).unwrap();
    assert_eq!(blocked.code, "RPG_BOARD_POSITION_BLOCKED");
    let shared = runtime_board_rejection(
        &board,
        &vec![entity("hero", "ally", 2, 0, 1), entity("guardian", "enemy", 2, 0, 1)],
    )
    .unwrap();
    assert_eq!(shared.code, "RPG_BOARD_POSITION_OCCUPIED");
    assert_eq!(shared.message, "participants hero and guardian occupy the same cell");
}

fn restore_scenario() -> RpgScenario {
    let participant = |id: &str, team: &str, x: u32| RpgParticipantSetup {
        id: id.to_owned(),
        label: id.to_owned(),
        team_id: team.to_owned(),
        position: GridPosition { x, y: 0 },
        definition_ids: vec!["action.strike".to_owned()],
        class_definition_id: None,
        feature_definition_ids: Vec::new(),
        items: vec![RpgItemInstanceSetup {
            id: "sword-1".to_owned(),
            definition_id: "item.sword".to_owned(),
        }],
        equipment: vec![RpgEquipmentSlotSetup {
            slot_id: "main-hand".to_owned(),
            item_instance_id: "sword-1".to_owned(),
        }],
        capabilities: vec![RpgInitialCapability::Vitality {
            value: BoundedValue { current: 20, max: 20 },
        }],
    };
    RpgScenario {
        schema: RpgSchemaIdentity {
            id: "asha.rpg.scenario".to_owned(),
            version: 3,
        },
        play_bundle_id: "artifact".to_owned(),
        board: board(),
        participants: vec![participant("hero", "ally", 0), participant("guardian", "enemy", 2)],
        turn: RpgTurnInitialization {
            initiative_order: vec!["hero".to_owned(), "guardian".to_owned()],
            current_actor_id: "hero".to_owned(),
            round: 1,
            turn: 1,
        },
        random_source: RpgRandomSourceBinding {
            policy_id: "policy".to_owned(),
            policy_version: 1,
            source_id: "source".to_owned(),
            source_version: 1,
        },
    }
}

fn restore_rules() -> RpgRestoreRules {
    RpgRestoreRules {
        activation_budgets: vec![RpgActivationBudgetRule {
            id: "normal".to_owned(),
            initial_amount: 2,
        }],
        accepted_activation_ceiling: Some(1),
        item_bindings: vec![RpgItemBindingRule {
            action_id: "action.strike".to_owned(),
            binding_id: "weapon".to_owned(),
            slot_ids: vec!["main-hand".to_owned()],
            item_definition_ids: vec!["item.sword".to_owned()],
        }],
    }
}

fn restored_entities() -> Vec<RpgEntityState> {
    let mut hero = entity("hero", "ally", 0, 0, 20);
    let mut guardian = entity("guardian", "enemy", 2, 0, 20);
    for e in [&mut hero, &mut guardian] {
        e.activation_budgets = vec![RpgPortableNamedInteger {
            id: "normal".to_owned(),
            value: 1,
        }];
    }
    vec![hero, guardian]
}

fn strike(sequence: u64) -> RpgEncounterLogRecord {
    RpgEncounterLogRecord {
        sequence,
        state_revision: 1,
        actor_id: "hero".to_owned(),
        action_id: "action.strike".to_owned(),
        item_binding: Some(RpgIntentItemBinding {
            binding_id: "weapon".to_owned(),
            slot_id: "main-hand".to_owned(),
            item_definition_id: "item.sword".to_owned(),
            item_instance_id: "sword-1".to_owned(),
        }),
    }
}

#[test]
fn consistent_restored_encounter_reports_nothing() {
    let scenario = restore_scenario();
    let state = RpgCapabilityFacts {
        revision: 2,
        accepted_activations_this_turn: 1,
        entities: restored_entities(),
    };
    let log = vec![
        strike(1),
        RpgEncounterLogRecord {
            sequence: 2,
            state_revision: 2,
            actor_id: "hero".to_owned(),
            action_id: "control.end-turn".to_owned(),
            item_binding: None,
        },
    ];
    let diagnostics = validate_restored_encounter(
        &scenario,
        &turn(&["hero", "guardian"], "guardian", 1, 2),
        &log,
        &state,
        &restore_rules(),
    );
    assert!(diagnostics.is_empty(), "{diagnostics:?}");
}

#[test]
fn inconsistent_restored_encounter_reports_each_finding() {
    let scenario = restore_scenario();
    let mut entities = restored_entities();
    entities[0].class_definition_id = Some("class.wizard".to_owned());
    entities[1].activation_budgets[0].value = 5;
    entities[1].vitality.current = 0;
    entities[0].position = GridPosition { x: 1, y: 0 };
    let state = RpgCapabilityFacts {
        revision: 1,
        accepted_activations_this_turn: 2,
        entities,
    };
    let mut bad_binding = strike(1);
    bad_binding.item_binding.as_mut().unwrap().slot_id = "off-hand".to_owned();
    let log = vec![bad_binding, strike(5)];
    let diagnostics = validate_restored_encounter(
        &scenario,
        &turn(&["guardian", "hero"], "guardian", 1, 2),
        &log,
        &state,
        &restore_rules(),
    );
    let found: Vec<(&str, &str)> = diagnostics
        .iter()
        .map(|d| (d.code.as_str(), d.path.as_str()))
        .collect();
    assert_eq!(
        found,
        vec![
            ("RPG_CHECKPOINT_CHARACTER_SELECTION_MISMATCH", "$.state.entities[0]"),
            (
                "RPG_CHECKPOINT_ACTIVATION_BUDGET_INVALID",
                "$.state.entities[1].activationBudgets"
            ),
            ("RPG_CHECKPOINT_ACTIVATION_COUNT_INVALID", "$.state.acceptedActivationsThisTurn"),
            ("RPG_CHECKPOINT_TURN_ORDER_MISMATCH", "$.turn.initiativeOrder"),
            ("RPG_CHECKPOINT_BOARD_STATE_INVALID", "$.resolution.state.position"),
            ("RPG_CHECKPOINT_LOG_INVALID", "$.log[0]"),
            ("RPG_CHECKPOINT_LOG_INVALID", "$.log[1]"),
        ]
    );
    assert_eq!(
        diagnostics[4].message,
        "RPG_BOARD_POSITION_BLOCKED: participant hero moved onto an impassable cell"
    );
}

#[test]
fn restored_participant_set_and_turn_are_checked() {
    let scenario = restore_scenario();
    let mut entities = restored_entities();
    entities.pop();
    let state = RpgCapabilityFacts {
        revision: 0,
        accepted_activations_this_turn: 0,
        entities,
    };
    let diagnostics = validate_restored_encounter(
        &scenario,
        &turn(&["hero", "guardian"], "nobody", 0, 1),
        &Vec::new(),
        &state,
        &restore_rules(),
    );
    let codes: Vec<&str> = diagnostics.iter().map(|d| d.code.as_str()).collect();
    assert_eq!(
        codes,
        vec!["RPG_CHECKPOINT_PARTICIPANT_SET_MISMATCH", "RPG_CHECKPOINT_TURN_STATE_INVALID"]
    );
}

#[test]
fn accepted_resolutions_pass_the_turn_only_under_fixed_budgets_in_progress() {
    let contested = vec![entity("hero", "heroes", 0, 0, 5), entity("foe", "foes", 1, 0, 5)];
    let settled = vec![entity("hero", "heroes", 0, 0, 5), entity("foe", "foes", 1, 0, 0)];
    assert!(turn_advances(false, &contested));
    assert!(!turn_advances(true, &contested));
    assert!(!turn_advances(false, &settled));
}
