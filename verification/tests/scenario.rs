use std::collections::BTreeSet;

use rpg_runtime::board::{
    GridPosition, RpgBoardSetup, RpgCellCapabilitySetup, RpgCellCapabilityValue, RpgCellSetup,
};
use rpg_runtime::model::BoundedValue;
use rpg_runtime::scenario::{
    scenario_diagnostic, validate_board, RpgCatalogContentValue, RpgCatalogDefinition,
    RpgCatalogRulesetValue, RpgDefinitionKind, RpgDefinitionVisibility, RpgInitialCapability,
    RpgParticipantSetup, RpgRandomSourceBinding, RpgRulesetValueKind, RpgScenario,
    RpgScenarioCatalog, RpgTurnInitialization, RpgValueDerivationFailure,
    RPG_SCENARIO_SCHEMA_ID, RPG_SCENARIO_SCHEMA_VERSION,
};
use rpg_runtime::setup::{check_scenario, validate_binding, validate_scenario, validate_turn};
use rpg_runtime::text::portable_identifier;

const MAXIMUM_MODIFIER_TURNS: u32 = 10;

fn definition(id: &str, kind: RpgDefinitionKind) -> RpgCatalogDefinition {
    RpgCatalogDefinition {
        id: id.to_owned(),
        kind,
        visibility: RpgDefinitionVisibility::Exported,
    }
}

fn catalog() -> RpgScenarioCatalog {
    RpgScenarioCatalog {
        artifact_id: "artifact.replay-test".to_owned(),
        definitions: vec![
            definition("action.move", RpgDefinitionKind::Action),
            definition("action.reactive", RpgDefinitionKind::Action),
            definition("catalog.damage.force", RpgDefinitionKind::Support),
            definition("catalog.defense.guard", RpgDefinitionKind::Support),
            definition("catalog.modifier.impeded", RpgDefinitionKind::Support),
        ],
        action_ids: vec!["action.move".to_owned(), "action.reactive".to_owned()],
        items: Vec::new(),
        classes: Vec::new(),
        feature_ids: Vec::new(),
        required_capabilities: vec![
            "capability.defenses".to_owned(),
            "capability.modifiers".to_owned(),
            "capability.position".to_owned(),
            "capability.random".to_owned(),
            "capability.reactions".to_owned(),
            "capability.vitality".to_owned(),
        ],
        ruleset_values: vec![
            RpgCatalogRulesetValue {
                kind: RpgRulesetValueKind::Defense,
                id: "catalog.defense.guard".to_owned(),
                minimum: 0,
                maximum: 100,
            },
            RpgCatalogRulesetValue {
                kind: RpgRulesetValueKind::Defense,
                id: "guard".to_owned(),
                minimum: 0,
                maximum: 100,
            },
        ],
        content_values: vec![
            RpgCatalogContentValue {
                catalog: "damageType".to_owned(),
                id: "force".to_owned(),
            },
            RpgCatalogContentValue {
                catalog: "defense".to_owned(),
                id: "guard".to_owned(),
            },
            RpgCatalogContentValue {
                catalog: "modifier".to_owned(),
                id: "impeded".to_owned(),
            },
        ],
        derived_values: Vec::new(),
        line_of_effect_model: None,
        maximum_modifier_turns: MAXIMUM_MODIFIER_TURNS,
    }
}

fn cell(id: &str, x: u32, y: u32) -> RpgCellSetup {
    RpgCellSetup {
        id: id.to_owned(),
        position: GridPosition { x, y },
        capabilities: Vec::new(),
    }
}

fn participant(id: &str, label: &str, team: &str, x: u32, y: u32) -> RpgParticipantSetup {
    RpgParticipantSetup {
        id: id.to_owned(),
        label: label.to_owned(),
        team_id: team.to_owned(),
        position: GridPosition { x, y },
        definition_ids: vec!["action.reactive".to_owned(), "action.move".to_owned()],
        class_definition_id: None,
        feature_definition_ids: Vec::new(),
        items: Vec::new(),
        equipment: Vec::new(),
        capabilities: vec![
            RpgInitialCapability::Vitality {
                value: BoundedValue { current: 20, max: 20 },
            },
            RpgInitialCapability::Defense {
                id: "guard".to_owned(),
                value: 10,
            },
        ],
    }
}

fn standard_setup(catalog: &RpgScenarioCatalog) -> RpgScenario {
    let mut hero = participant("hero", "Hero", "ally", 0, 0);
    hero.capabilities.push(RpgInitialCapability::Modifier {
        stacking_group: "movement-control".to_owned(),
        id: "impeded".to_owned(),
        value: -2,
        remaining_turns: 2,
    });
    RpgScenario {
        schema: RpgScenario::schema(),
        play_bundle_id: catalog.artifact_id.clone(),
        board: RpgBoardSetup {
            width: 4,
            height: 4,
            cells: vec![cell("cell-0-0", 0, 0), cell("cell-1-0", 1, 0), cell("cell-2-0", 2, 0)],
        },
        participants: vec![hero, participant("guardian", "Guardian", "enemy", 1, 1)],
        turn: RpgTurnInitialization {
            initiative_order: vec!["hero".to_owned(), "guardian".to_owned()],
            current_actor_id: "hero".to_owned(),
            round: 1,
            turn: 1,
        },
        random_source: RpgRandomSourceBinding {
            policy_id: "test.recorded-evidence".to_owned(),
            policy_version: 1,
            source_id: "test.roll-tape".to_owned(),
            source_version: 1,
        },
    }
}

fn codes(diagnostics: &[rpg_runtime::scenario::RpgScenarioDiagnostic]) -> BTreeSet<String> {
    diagnostics.iter().map(|d| d.code.clone()).collect()
}

#[test]
fn invalid_scenario_reports_all_authority_diagnostics_before_session_exists() {
    let catalog = catalog();
    let mut invalid = standard_setup(&catalog);
    invalid.play_bundle_id = "different-artifact".to_owned();
    invalid.participants[0].definition_ids = vec!["action.missing".to_owned()];
    invalid.board.cells[0].capabilities.push(RpgCellCapabilitySetup {
        id: "terrain.traversal".to_owned(),
        version: 1,
        definition_id: None,
        value: RpgCellCapabilityValue::Traversal {
            passable: false,
            movement_cost: 1,
        },
    });
    invalid.participants[1].position = GridPosition { x: 99, y: 99 };
    invalid.participants[1].capabilities.push(RpgInitialCapability::Resource {
        id: "focus".to_owned(),
        value: BoundedValue { current: 1, max: 1 },
    });
    invalid.participants[1].capabilities.push(RpgInitialCapability::Stat {
        id: "unknown-stat".to_owned(),
        value: 10,
    });
    for capability in &mut invalid.participants[0].capabilities {
        match capability {
            RpgInitialCapability::Vitality { value } => value.current = 0,
            RpgInitialCapability::Modifier {
                remaining_turns, ..
            } => *remaining_turns = MAXIMUM_MODIFIER_TURNS + 1,
            RpgInitialCapability::Defense { value, .. } => *value = 101,
            _ => {}
        }
    }
    invalid.turn.initiative_order = vec!["hero".to_owned(), "hero".to_owned()];

    let failure = check_scenario(&catalog, &invalid, &Vec::new()).unwrap_err();
    let codes = codes(&failure.diagnostics);
    assert!(codes.contains("RPG_SCENARIO_PLAY_BUNDLE_MISMATCH"));
    assert!(codes.contains("RPG_SCENARIO_DEFINITION_UNKNOWN"));
    assert!(codes.contains("RPG_SCENARIO_POSITION_OUT_OF_BOUNDS"));
    assert!(codes.contains("RPG_SCENARIO_POSITION_BLOCKED"));
    assert!(codes.contains("RPG_SCENARIO_CAPABILITY_OWNER_INCOMPATIBLE"));
    assert!(codes.contains("RPG_SCENARIO_CONTENT_VALUE_UNKNOWN"));
    assert!(codes.contains("RPG_SCENARIO_RULESET_VALUE_UNKNOWN"));
    assert!(codes.contains("RPG_SCENARIO_RULESET_VALUE_OUT_OF_DOMAIN"));
    assert!(codes.contains("RPG_SCENARIO_MODIFIER_INVALID"));
    assert!(codes.contains("RPG_SCENARIO_CURRENT_ACTOR_INACTIVE"));
    assert!(codes.contains("RPG_SCENARIO_TURN_PARTICIPANT_DUPLICATE"));
    assert!(codes.contains("RPG_SCENARIO_TURN_ORDER_INCOMPLETE"));

    let valid = standard_setup(&catalog);
    assert!(check_scenario(&catalog, &valid, &Vec::new()).is_ok());
}

#[test]
fn valid_scenario_reports_nothing() {
    let catalog = catalog();
    let valid = standard_setup(&catalog);
    assert!(validate_scenario(&catalog, &valid, &Vec::new()).is_empty());
    assert_eq!(valid.schema.id, RPG_SCENARIO_SCHEMA_ID);
    assert_eq!(valid.schema.version, RPG_SCENARIO_SCHEMA_VERSION);
}

#[test]
fn schema_mismatch_is_reported_with_the_expected_identity() {
    let catalog = catalog();
    let mut scenario = standard_setup(&catalog);
    scenario.schema.version = 2;
    let diagnostics = validate_scenario(&catalog, &scenario, &Vec::new());
    assert_eq!(diagnostics.len(), 1);
    assert_eq!(diagnostics[0].code, "RPG_SCENARIO_SCHEMA_UNSUPPORTED");
    assert_eq!(diagnostics[0].path, "$.schema");
    assert_eq!(diagnostics[0].message, "expected asha.rpg.scenario@3");
}

#[test]
fn play_bundle_mismatch_names_the_bound_artifact() {
    let catalog = catalog();
    let mut scenario = standard_setup(&catalog);
    scenario.play_bundle_id = "other".to_owned();
    let diagnostics = validate_scenario(&catalog, &scenario, &Vec::new());
    assert_eq!(diagnostics.len(), 1);
    assert_eq!(diagnostics[0].path, "$.playBundleId");
    assert_eq!(diagnostics[0].message, "expected PlayBundle artifact.replay-test");
}

#[test]
fn empty_participant_list_is_required_and_turn_is_checked() {
    let catalog = catalog();
    let mut scenario = standard_setup(&catalog);
    scenario.participants.clear();
    let codes = codes(&validate_scenario(&catalog, &scenario, &Vec::new()));
    assert!(codes.contains("RPG_SCENARIO_PARTICIPANTS_REQUIRED"));
    assert!(codes.contains("RPG_SCENARIO_TURN_PARTICIPANT_UNKNOWN"));
    assert!(codes.contains("RPG_SCENARIO_CURRENT_ACTOR_INACTIVE"));
}

#[test]
fn duplicate_participant_and_occupied_position_are_reported_with_paths() {
    let catalog = catalog();
    let mut scenario = standard_setup(&catalog);
    scenario.participants[1].id = "hero".to_owned();
    scenario.participants[1].position = GridPosition { x: 0, y: 0 };
    let diagnostics = validate_scenario(&catalog, &scenario, &Vec::new());
    let duplicate = diagnostics
        .iter()
        .find(|d| d.code == "RPG_SCENARIO_PARTICIPANT_DUPLICATE")
        .unwrap();
    assert_eq!(duplicate.path, "$.participants[1].id");
    assert_eq!(duplicate.message, "duplicate participant hero");
    let occupied = diagnostics
        .iter()
        .find(|d| d.code == "RPG_SCENARIO_POSITION_OCCUPIED")
        .unwrap();
    assert_eq!(occupied.path, "$.participants[1].position");
    assert_eq!(occupied.message, "participant position is already occupied by hero");
}

#[test]
fn derivation_failure_is_reported_under_the_participant_capabilities() {
    let catalog = catalog();
    let scenario = standard_setup(&catalog);
    let derivations = vec![
        None,
        Some(RpgValueDerivationFailure {
            code: "RPG_VALUE_DERIVATION_FAILED".to_owned(),
            target_id: "guard".to_owned(),
            message: "missing input".to_owned(),
        }),
    ];
    let diagnostics = validate_scenario(&catalog, &scenario, &derivations);
    assert_eq!(diagnostics.len(), 1);
    assert_eq!(diagnostics[0].code, "RPG_VALUE_DERIVATION_FAILED");
    assert_eq!(diagnostics[0].path, "$.participants[1].capabilities");
    assert_eq!(diagnostics[0].message, "cannot derive ruleset value guard: missing input");
}

#[test]
fn random_binding_requires_identities_and_positive_versions() {
    let binding = RpgRandomSourceBinding {
        policy_id: " ".to_owned(),
        policy_version: 0,
        source_id: "tape".to_owned(),
        source_version: 1,
    };
    let diagnostics = validate_binding(&binding);
    assert_eq!(diagnostics.len(), 2);
    assert_eq!(diagnostics[0].code, "RPG_SCENARIO_RANDOM_ID_EMPTY");
    assert_eq!(diagnostics[0].path, "$.randomSource.policyId");
    assert_eq!(diagnostics[1].code, "RPG_SCENARIO_RANDOM_VERSION_INVALID");
    assert_eq!(diagnostics[1].path, "$.randomSource");
}

#[test]
fn turn_counters_and_unknown_current_actor_are_reported() {
    let catalog = catalog();
    let mut scenario = standard_setup(&catalog);
    scenario.turn.current_actor_id = "nobody".to_owned();
    scenario.turn.round = 0;
    let codes = codes(&validate_turn(&scenario));
    assert!(codes.contains("RPG_SCENARIO_CURRENT_ACTOR_UNKNOWN"));
    assert!(codes.contains("RPG_SCENARIO_TURN_COUNTER_INVALID"));
    assert_eq!(codes.len(), 2);
}

#[test]
fn board_extent_is_bounded() {
    let catalog = catalog();
    let board = RpgBoardSetup {
        width: 0,
        height: 1025,
        cells: Vec::new(),
    };
    let diagnostics = validate_board(&catalog, &board);
    assert_eq!(diagnostics.len(), 1);
    assert_eq!(diagnostics[0].code, "RPG_SCENARIO_BOARD_EXTENT_INVALID");
    assert_eq!(diagnostics[0].message, "board width and height must be within 1..=1024");
}

#[test]
fn diagnostics_keep_code_path_and_message() {
    let diagnostic = scenario_diagnostic("CODE", "$.path".to_owned(), "message".to_owned());
    assert_eq!(diagnostic.code, "CODE");
    assert_eq!(diagnostic.path, "$.path");
    assert_eq!(diagnostic.message, "message");
}

#[test]
fn portable_identifiers_are_lower_case_dotted_words() {
    assert!(portable_identifier("capability.vitality"));
    assert!(!portable_identifier(""));
    assert!(!portable_identifier("Capability"));
}
