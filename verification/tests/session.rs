use rpg_runtime::board::{GridPosition, RpgBoardSetup};
use rpg_runtime::model::{
    resolution_rejection, BoundedValue, RpgActiveEffectFacts, RpgEntityState, RpgTurnControl,
};
use rpg_runtime::random::RpgRandomRequestKind;
use rpg_runtime::saves::{
    remove_saved_effects, resolve_turn_save_evidence, sorted_saves, turn_save_candidates_for,
    RpgEffectDefinitionFacts, RpgEffectSaveResolution, RpgPendingTurnSave,
};
use rpg_runtime::scenario::{
    RpgInitialCapability, RpgParticipantSetup, RpgRandomSourceBinding, RpgScenario,
    RpgTurnInitialization,
};
use rpg_runtime::session::{
    action_unavailability, command_admission_rejection, control_admission, control_save_route,
    reaction_admission_rejection, revision_rejection,
    turn_control_view, unused_random_rejection, RpgControlAdmission, RpgControlRoute,
    RpgReactionCommand,
    RpgReactionProposal, RpgTurnControlCommand, RpgTurnControlProposal,
};

fn entity(id: &str, team: &str, vitality: i32) -> RpgEntityState {
    RpgEntityState {
        id: id.to_owned(),
        team_id: team.to_owned(),
        position: GridPosition { x: 0, y: 0 },
        vitality: BoundedValue {
            current: vitality,
            max: 20,
        },
        class_definition_id: None,
        character_feature_ids: Vec::new(),
        activation_budgets: Vec::new(),
        effects: Vec::new(),
    }
}

fn scenario() -> RpgScenario {
    let participant = |id: &str| RpgParticipantSetup {
        id: id.to_owned(),
        label: id.to_owned(),
        team_id: "team".to_owned(),
        position: GridPosition { x: 0, y: 0 },
        definition_ids: vec!["action.strike".to_owned()],
        class_definition_id: None,
        feature_definition_ids: Vec::new(),
        items: Vec::new(),
        equipment: Vec::new(),
        capabilities: vec![RpgInitialCapability::Vitality {
            value: BoundedValue { current: 1, max: 1 },
        }],
    };
    RpgScenario {
        schema: RpgScenario::schema(),
        play_bundle_id: "artifact".to_owned(),
        board: RpgBoardSetup {
            width: 1,
            height: 1,
            cells: Vec::new(),
        },
        participants: vec![participant("hero"), participant("guardian")],
        turn: RpgTurnInitialization {
            initiative_order: vec!["hero".to_owned(), "guardian".to_owned()],
            current_actor_id: "hero".to_owned(),
            round: 1,
            turn: 1,
        },
        random_source: RpgRandomSourceBinding {
            policy_id: "policy".to_owned(),
            policy_version: 1,
            source_id: "source".to_owned(),
            source_version: 1,
        },
    }
}

#[test]
fn rejections_render_their_counts() {
    let stale = revision_rejection(3, 5);
    assert_eq!(stale.code, "RPG_SESSION_REVISION_MISMATCH");
    assert_eq!(stale.path, "$.expectedRevision");
    assert_eq!(stale.message, "expected state revision 3, but active revision is 5");
    let unused = unused_random_rejection(2);
    assert_eq!(unused.code, "RPG_RANDOM_EVIDENCE_UNUSED");
    assert_eq!(unused.message, "2 supplied random value(s) were not consumed");
}

#[test]
fn commands_are_admitted_only_on_the_actors_turn() {
    let scenario = scenario();
    let entities = vec![entity("hero", "ally", 5), entity("guardian", "enemy", 5)];
    let hero = "hero".to_owned();
    let strike = "action.strike".to_owned();
    assert!(command_admission_rejection(false, false, 2, 2, &entities, &scenario, &hero, &hero, &strike)
        .is_none());
    let pending = command_admission_rejection(true, true, 2, 2, &entities, &scenario, &hero, &hero, &strike)
        .unwrap();
    assert_eq!(pending.code, "RPG_SESSION_REACTION_PENDING");
    let saves = command_admission_rejection(false, true, 2, 2, &entities, &scenario, &hero, &hero, &strike)
        .unwrap();
    assert_eq!(saves.code, "RPG_SESSION_TURN_SAVE_PENDING");
    let stale = command_admission_rejection(false, false, 1, 2, &entities, &scenario, &hero, &hero, &strike)
        .unwrap();
    assert_eq!(stale.code, "RPG_SESSION_REVISION_MISMATCH");
    let other = command_admission_rejection(
        false,
        false,
        2,
        2,
        &entities,
        &scenario,
        &hero,
        &"guardian".to_owned(),
        &strike,
    )
    .unwrap();
    assert_eq!(other.code, "RPG_TURN_ACTOR_MISMATCH");
    assert_eq!(other.message, "current actor is hero");
    let unowned = command_admission_rejection(
        false,
        false,
        2,
        2,
        &entities,
        &scenario,
        &hero,
        &hero,
        &"action.other".to_owned(),
    )
    .unwrap();
    assert_eq!(unowned.code, "RPG_ACTION_NOT_OWNED");
    assert_eq!(unowned.message, "participant hero does not reference action action.other");
    let over = vec![entity("hero", "ally", 5), entity("guardian", "enemy", 0)];
    let completed =
        command_admission_rejection(false, false, 2, 2, &over, &scenario, &hero, &hero, &strike)
            .unwrap();
    assert_eq!(completed.code, "RPG_ENCOUNTER_COMPLETED");
}

fn end_turn(actor: &str, values: Vec<u32>) -> RpgTurnControlCommand {
    RpgTurnControlCommand {
        expected_revision: 4,
        actor_id: actor.to_owned(),
        control: RpgTurnControl::EndTurn,
        random_values: values,
    }
}

#[test]
fn turn_controls_are_routed_or_refused() {
    let entities = vec![entity("hero", "ally", 5), entity("guardian", "enemy", 5)];
    let hero = "hero".to_owned();
    assert!(matches!(
        control_admission(false, false, &end_turn("hero", Vec::new()), 4, &entities, &hero),
        RpgControlAdmission::Admitted
    ));
    assert!(matches!(
        control_admission(false, true, &end_turn("hero", Vec::new()), 4, &entities, &hero),
        RpgControlAdmission::ResolvePendingSaves
    ));
    match control_admission(true, true, &end_turn("hero", Vec::new()), 4, &entities, &hero) {
        RpgControlAdmission::Rejected(r) => assert_eq!(r.code, "RPG_SESSION_REACTION_PENDING"),
        other => panic!("unexpected {other:?}"),
    }
    match control_admission(false, false, &end_turn("guardian", Vec::new()), 4, &entities, &hero) {
        RpgControlAdmission::Rejected(r) => {
            assert_eq!(r.code, "RPG_TURN_ACTOR_MISMATCH");
            assert_eq!(r.path, "$.control.actorId");
        }
        other => panic!("unexpected {other:?}"),
    }
    let fallen = vec![entity("hero", "ally", 0), entity("guardian", "enemy", 5), entity("raider", "ally", 2)];
    match control_admission(false, false, &end_turn("hero", Vec::new()), 4, &fallen, &hero) {
        RpgControlAdmission::Rejected(r) => assert_eq!(r.code, "RPG_TURN_ACTOR_INACTIVE"),
        other => panic!("unexpected {other:?}"),
    }
}

#[test]
fn end_turn_control_view_explains_unavailability() {
    let entities = vec![entity("hero", "ally", 5), entity("guardian", "enemy", 5)];
    let view = turn_control_view(false, false, &entities, &"hero".to_owned());
    assert_eq!(view.control, RpgTurnControl::EndTurn);
    assert_eq!(view.label, "End turn");
    assert!(view.available);
    assert!(view.unavailable.is_none());
    let saves = turn_control_view(false, true, &entities, &"hero".to_owned());
    assert!(!saves.available);
    assert_eq!(
        saves.unavailable.unwrap().message,
        "submit the required d20 save evidence to finish ending the turn"
    );
    let done = turn_control_view(false, false, &vec![entity("hero", "ally", 5)], &"hero".to_owned());
    assert_eq!(done.unavailable.unwrap().code, "RPG_ENCOUNTER_COMPLETED");
}

#[test]
fn actions_without_options_report_the_first_refusal() {
    assert!(action_unavailability(false, false, true, None).is_none());
    let first = resolution_rejection("RPG_X", "$.x".to_owned(), "x".to_owned());
    assert_eq!(action_unavailability(false, false, false, Some(first.clone())).unwrap().code, "RPG_X");
    assert_eq!(
        action_unavailability(false, false, false, None).unwrap().code,
        "RPG_ACTION_NO_LEGAL_OPTIONS"
    );
    assert_eq!(
        action_unavailability(true, false, true, Some(first)).unwrap().code,
        "RPG_SESSION_REACTION_PENDING"
    );
    assert_eq!(
        action_unavailability(true, true, true, None).unwrap().path,
        "$.action"
    );
}

#[test]
fn proposals_and_commands_carry_their_fields() {
    let reaction = RpgReactionProposal {
        expected_revision: 1,
        reaction_id: "reaction.ward".to_owned(),
        option_id: Some("ward".to_owned()),
    };
    let command = RpgReactionCommand {
        expected_revision: reaction.expected_revision,
        reaction_id: reaction.reaction_id.clone(),
        option_id: reaction.option_id.clone(),
        additional_random_values: vec![2, 2],
    };
    assert_eq!(command.option_id.as_deref(), Some("ward"));
    let control = RpgTurnControlProposal {
        expected_revision: 1,
        actor_id: "hero".to_owned(),
        control: RpgTurnControl::EndTurn,
    };
    assert_eq!(control.control.id(), "control.end-turn");
}

fn effect(instance: &str, definition: &str, source: &str, save: bool) -> RpgActiveEffectFacts {
    RpgActiveEffectFacts {
        instance_id: instance.to_owned(),
        definition_id: definition.to_owned(),
        definition_version: 1,
        source_entity_id: source.to_owned(),
        ends_on_turn_end_save: save,
    }
}

fn definitions() -> Vec<RpgEffectDefinitionFacts> {
    vec![
        RpgEffectDefinitionFacts {
            definition_id: "effect.slow".to_owned(),
            definition_version: 1,
            save_ends: true,
        },
        RpgEffectDefinitionFacts {
            definition_id: "effect.burn".to_owned(),
            definition_version: 1,
            save_ends: true,
        },
    ]
}

fn saving_hero() -> Vec<RpgEntityState> {
    let mut hero = entity("hero", "ally", 5);
    hero.effects = vec![
        effect("e-3", "effect.slow", "guardian", true),
        effect("e-1", "effect.burn", "raider", true),
        effect("e-9", "effect.aura", "hero", false),
        effect("e-2", "effect.burn", "guardian", true),
    ];
    vec![hero, entity("guardian", "enemy", 5)]
}

#[test]
fn save_candidates_are_ordered_by_definition_source_and_instance() {
    let entities = saving_hero();
    assert_eq!(sorted_saves(&entities[0].effects), vec![3, 1, 0]);
    let candidates =
        turn_save_candidates_for(&entities, &"hero".to_owned(), &definitions()).unwrap();
    let ids: Vec<&str> = candidates.iter().map(|c| c.instance_id.as_str()).collect();
    assert_eq!(ids, vec!["e-2", "e-1", "e-3"]);
    assert_eq!(candidates[0].target_id, "hero");
    assert_eq!(candidates[0].request.kind, RpgRandomRequestKind::EffectSave);
    assert_eq!(candidates[0].request.sides, 20);
    assert_eq!(candidates[0].request.count, 1);
    assert_eq!(candidates[2].request.path, "$.control.saves[2].roll");
    assert!(candidates[1].request.heterogeneous_terms.is_empty());
}

#[test]
fn save_candidates_refuse_unknown_or_changed_definitions() {
    let mut entities = saving_hero();
    let unknown =
        turn_save_candidates_for(&entities, &"nobody".to_owned(), &definitions()).unwrap_err();
    assert_eq!(unknown.code, "RPG_TURN_ACTOR_UNKNOWN");
    assert_eq!(unknown.message, "turn actor nobody is unavailable");
    entities[0].effects[1].definition_version = 2;
    let changed =
        turn_save_candidates_for(&entities, &"hero".to_owned(), &definitions()).unwrap_err();
    assert_eq!(changed.code, "RPG_RUNTIME_EFFECT_TENURE_MISMATCH");
    assert_eq!(changed.message, "active effect e-1 does not match the compiled save-ends tenure");
    entities[0].effects[0].definition_id = "effect.gone".to_owned();
    let missing =
        turn_save_candidates_for(&entities, &"hero".to_owned(), &definitions()).unwrap_err();
    assert_eq!(missing.code, "RPG_RUNTIME_EFFECT_DEFINITION_UNKNOWN");
    assert_eq!(
        missing.message,
        "active effect e-3 references unavailable definition effect.gone"
    );
    let mut crowded = entity("hero", "ally", 5);
    crowded.effects = (0..33)
        .map(|i| effect(&format!("e-{i}"), "effect.slow", "guardian", true))
        .collect();
    let limit = turn_save_candidates_for(&vec![crowded], &"hero".to_owned(), &definitions())
        .unwrap_err();
    assert_eq!(limit.code, "RPG_EFFECT_SAVE_CANDIDATE_LIMIT_EXCEEDED");
}

#[test]
fn save_evidence_resolves_each_candidate_at_difficulty_ten() {
    let entities = saving_hero();
    let candidates =
        turn_save_candidates_for(&entities, &"hero".to_owned(), &definitions()).unwrap();
    let pending = RpgPendingTurnSave {
        expected_revision: 4,
        actor_id: "hero".to_owned(),
        control: RpgTurnControl::EndTurn,
        candidates: candidates.clone(),
    };
    let resolutions = resolve_turn_save_evidence(
        &end_turn("hero", vec![10, 9, 20]),
        &pending,
        Ok(candidates.clone()),
    )
    .unwrap();
    let outcome: Vec<(&str, u32, bool)> = resolutions
        .iter()
        .map(|r| (r.instance_id.as_str(), r.roll, r.saved))
        .collect();
    assert_eq!(outcome, vec![("e-2", 10, true), ("e-1", 9, false), ("e-3", 20, true)]);
    assert!(resolutions.iter().all(|r| r.difficulty == 10));

    let short = resolve_turn_save_evidence(&end_turn("hero", vec![10]), &pending, Ok(candidates.clone()))
        .unwrap_err();
    assert_eq!(short.rejection.code, "RPG_EFFECT_SAVE_EVIDENCE_UNDERFLOW");
    assert_eq!(short.rejection.message, "end-turn saves require exactly 3 d20 values");
    assert_eq!(short.random_request.unwrap().path, "$.control.saves[1].roll");

    let long = resolve_turn_save_evidence(
        &end_turn("hero", vec![10, 10, 10, 10]),
        &pending,
        Ok(candidates.clone()),
    )
    .unwrap_err();
    assert_eq!(long.rejection.code, "RPG_RANDOM_EVIDENCE_UNUSED");
    assert_eq!(long.rejection.message, "1 supplied random value(s) were not consumed");
    assert!(long.random_request.is_none());

    let wild = resolve_turn_save_evidence(
        &end_turn("hero", vec![10, 21, 0]),
        &pending,
        Ok(candidates.clone()),
    )
    .unwrap_err();
    assert_eq!(wild.rejection.code, "RPG_RANDOM_VALUE_OUT_OF_RANGE");
    assert_eq!(wild.rejection.path, "$.control.randomValues[1]");
    assert_eq!(wild.rejection.message, "save value 21 is outside 1..=20");
    assert!(wild.random_request.is_none());

    let mismatch = resolve_turn_save_evidence(
        &end_turn("guardian", vec![10, 10, 10]),
        &pending,
        Ok(candidates.clone()),
    )
    .unwrap_err();
    assert_eq!(mismatch.rejection.code, "RPG_EFFECT_SAVE_PENDING_MISMATCH");

    let stale = resolve_turn_save_evidence(
        &end_turn("hero", vec![10, 10, 10]),
        &pending,
        Ok(candidates[..2].to_vec()),
    )
    .unwrap_err();
    assert_eq!(stale.rejection.code, "RPG_EFFECT_SAVE_PENDING_STALE");

    let failed = resolve_turn_save_evidence(
        &end_turn("hero", vec![10, 10, 10]),
        &pending,
        Err(resolution_rejection("RPG_TURN_ACTOR_UNKNOWN", "$.control.actorId".to_owned(), "gone".to_owned())),
    )
    .unwrap_err();
    assert_eq!(failed.rejection.code, "RPG_TURN_ACTOR_UNKNOWN");
}

#[test]
fn reactions_are_admitted_only_against_the_pending_transaction() {
    let ward = |revision: u64, reaction: &str| RpgReactionCommand {
        expected_revision: revision,
        reaction_id: reaction.to_owned(),
        option_id: Some("ward".to_owned()),
        additional_random_values: vec![2, 2],
    };
    let pending = "reaction.ward".to_owned();
    assert!(reaction_admission_rejection(false, Some(4), &pending, 4, &ward(4, "reaction.ward")).is_none());

    let saves = reaction_admission_rejection(true, Some(4), &pending, 4, &ward(4, "reaction.ward")).unwrap();
    assert_eq!(saves.code, "RPG_SESSION_TURN_SAVE_PENDING");
    assert_eq!(saves.path, "$.reaction");

    let absent = reaction_admission_rejection(false, None, &pending, 4, &ward(4, "reaction.ward")).unwrap();
    assert_eq!(absent.code, "RPG_SESSION_REACTION_ABSENT");

    let stale = reaction_admission_rejection(false, Some(3), &pending, 4, &ward(3, "reaction.ward")).unwrap();
    assert_eq!(stale.code, "RPG_SESSION_REVISION_MISMATCH");
    assert_eq!(stale.message, "expected state revision 3, but active revision is 4");

    let other = reaction_admission_rejection(false, Some(4), &pending, 4, &ward(4, "reaction.parry")).unwrap();
    assert_eq!(other.code, "RPG_REACTION_ID_MISMATCH");
    assert_eq!(other.path, "$.reaction.reactionId");
    assert_eq!(other.message, "expected reaction reaction.ward");
}

#[test]
fn saved_effects_expire_and_each_save_consumes_one_value() {
    let mut hero = entity("hero", "heroes", 10);
    hero.effects = vec![
        effect("burn-1", "effect.burn", "foe", true),
        effect("bless-1", "effect.bless", "ally", false),
        effect("slow-1", "effect.slow", "foe", true),
    ];
    let mut foe = entity("foe", "foes", 10);
    foe.effects = vec![effect("burn-1", "effect.burn", "hero", true)];
    let mut entities = vec![foe, hero];
    let resolution = |instance: &str, roll: u32| RpgEffectSaveResolution {
        instance_id: instance.to_owned(),
        roll,
        difficulty: 10,
        saved: roll >= 10,
    };
    let consumed = remove_saved_effects(
        &mut entities,
        &"hero".to_owned(),
        &vec![resolution("burn-1", 14), resolution("slow-1", 3)],
    );
    assert_eq!(consumed, 2);
    let kept: Vec<&str> = entities[1].effects.iter().map(|e| e.instance_id.as_str()).collect();
    assert_eq!(kept, vec!["bless-1", "slow-1"]);
    assert_eq!(entities[0].effects.len(), 1);
    assert_eq!(entities[0].id, "foe");
    assert_eq!(entities[1].id, "hero");
}

#[test]
fn admitted_controls_route_by_due_saves_and_supplied_values() {
    assert!(matches!(control_save_route(true, 0), RpgControlRoute::AwaitSaves));
    assert!(matches!(control_save_route(false, 0), RpgControlRoute::Advance));
    let RpgControlRoute::Rejected(early) = control_save_route(true, 2) else {
        panic!("save evidence before the save phase must be refused");
    };
    assert_eq!(early.code, "RPG_EFFECT_SAVE_PHASE_REQUIRED");
    assert_eq!(early.path, "$.control.randomValues");
    let RpgControlRoute::Rejected(unused) = control_save_route(false, 3) else {
        panic!("values without saves must be refused");
    };
    assert_eq!(unused.code, "RPG_RANDOM_EVIDENCE_UNUSED");
    assert_eq!(unused.message, "3 supplied random value(s) were not consumed");
}
