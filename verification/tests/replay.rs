use rpg_runtime::replay::{
    artifact_binding, checkpoint_artifact_mismatch_code, checkpoint_schema,
    classify_checkpoint_artifact, compare_boundary, compatibility_diagnostic, fnv1a64,
    replay_entry_schema, replay_failure, scenario_fingerprint, session_binding_id,
    session_state_hash, validate_artifact_binding, validate_checkpoint_fingerprints,
    validate_checkpoint_schema, artifact_load_failure, checkpoint_findings_failure,
    RpgArtifactDiagnostic,
    validate_replay_entry_schema, RpgArtifactFacts, RpgArtifactFingerprints,
    RpgDefinitionFingerprintBinding, RpgPortableSchemaIdentity, RpgReplayBoundary,
    RpgReplayPhase, StateFingerprint,
};
use rpg_runtime::scenario::{RpgRandomSourceBinding, RpgScenarioDiagnostic};
use rpg_runtime::turn::RpgTurnState;

fn artifact() -> RpgArtifactFacts {
    RpgArtifactFacts {
        artifact_schema: "{\"identity\":\"asha.rpg.play-bundle\",\"major\":1}".to_owned(),
        artifact_id: "artifact.replay-test".to_owned(),
        play_bundle: "{\"id\":\"replay.test\",\"version\":\"1.0.0\"}".to_owned(),
        ruleset: "{\"id\":\"replay.rules\",\"version\":\"1.0.0\"}".to_owned(),
        content_packs: vec![
            "{\"id\":\"replay.test\",\"version\":\"1.0.0\",\"sourceFingerprint\":\"fnv1a64:1111111111111111\"}"
                .to_owned(),
        ],
        dependency_lock: Vec::new(),
        fingerprints: RpgArtifactFingerprints {
            source: "fnv1a64:source".to_owned(),
            presentation: "fnv1a64:presentation".to_owned(),
            semantic: "fnv1a64:semantic".to_owned(),
        },
        definitions: vec![RpgDefinitionFingerprintBinding {
            id: "action.move".to_owned(),
            fingerprint: "fnv1a64:move".to_owned(),
        }],
    }
}

#[test]
fn artifact_compatibility_never_substitutes_changed_history() {
    let historical = artifact();
    let mut candidate = historical.clone();
    candidate.fingerprints.source = "fnv1a64:source-changed".to_owned();
    candidate.fingerprints.presentation = "fnv1a64:presentation-changed".to_owned();
    let compatible = classify_checkpoint_artifact(&historical, &candidate);
    assert!(!compatible.exact);
    assert!(compatible.semantic_compatible);
    assert!(compatible
        .diagnostics
        .iter()
        .any(|diagnostic| diagnostic.code == "RPG_REPLAY_SOURCE_FINGERPRINT_CHANGED"));
    assert!(compatible
        .diagnostics
        .iter()
        .any(|diagnostic| diagnostic.code == "RPG_REPLAY_PRESENTATION_FINGERPRINT_CHANGED"));

    candidate.fingerprints.semantic = "fnv1a64:semantic-changed".to_owned();
    let incompatible = classify_checkpoint_artifact(&historical, &candidate);
    assert!(!incompatible.semantic_compatible);
    assert!(incompatible
        .diagnostics
        .iter()
        .any(|diagnostic| diagnostic.code == "RPG_REPLAY_SEMANTIC_FINGERPRINT_CHANGED"));
    assert!(incompatible
        .diagnostics
        .iter()
        .all(|diagnostic| diagnostic.expected.is_none() && diagnostic.actual.is_none()));

    let exact = classify_checkpoint_artifact(&historical, &historical.clone());
    assert!(exact.exact);
    assert!(exact.semantic_compatible);
    assert!(exact.diagnostics.is_empty());
}

#[test]
fn compatibility_reports_every_change_in_order() {
    let historical = artifact();
    let mut candidate = historical.clone();
    candidate.content_packs.push("{\"id\":\"support.test\"}".to_owned());
    candidate.dependency_lock.push("{\"id\":\"support.test\"}".to_owned());
    candidate.artifact_id = "artifact.other".to_owned();
    let report = classify_checkpoint_artifact(&historical, &candidate);
    let codes: Vec<&str> = report.diagnostics.iter().map(|d| d.code.as_str()).collect();
    assert_eq!(
        codes,
        vec![
            "RPG_REPLAY_PACKAGE_SET_CHANGED",
            "RPG_REPLAY_DEPENDENCY_LOCK_CHANGED",
            "RPG_REPLAY_ARTIFACT_ID_CHANGED"
        ]
    );
    assert_eq!(report.diagnostics[0].path, "$.artifact.contentPacks");
    assert!(report.semantic_compatible);
}

#[test]
fn checkpoint_binding_validates_its_own_artifact_and_names_the_first_change() {
    let artifact = artifact();
    let binding = artifact_binding(&artifact);
    assert!(validate_artifact_binding(&binding, &artifact).is_ok());

    let mut changed = artifact.clone();
    changed.dependency_lock.push("{\"id\":\"support.test\"}".to_owned());
    changed.fingerprints.semantic = "fnv1a64:changed".to_owned();
    let failure = validate_artifact_binding(&binding, &changed).unwrap_err();
    assert_eq!(failure.diagnostics.len(), 1);
    assert_eq!(failure.diagnostics[0].code, "RPG_CHECKPOINT_LOCK_MISMATCH");
    assert_eq!(failure.diagnostics[0].path, "$.artifact.dependencyLock");
    assert!(failure.diagnostics[0].expected.is_some());
    assert!(failure.diagnostics[0].actual.is_some());

    let mut renamed = artifact.clone();
    renamed.definitions[0].fingerprint = "fnv1a64:other".to_owned();
    let failure = validate_artifact_binding(&binding, &renamed).unwrap_err();
    assert_eq!(
        failure.diagnostics[0].code,
        "RPG_CHECKPOINT_DEFINITION_FINGERPRINT_MISMATCH"
    );
}

#[test]
fn compiler_refusals_map_to_checkpoint_codes() {
    assert_eq!(
        checkpoint_artifact_mismatch_code("$.artifact.contentPacks[0]", "X"),
        "RPG_CHECKPOINT_PACKAGE_MISMATCH"
    );
    assert_eq!(
        checkpoint_artifact_mismatch_code("$.dependencyLock", "X"),
        "RPG_CHECKPOINT_LOCK_MISMATCH"
    );
    assert_eq!(
        checkpoint_artifact_mismatch_code("$.fingerprints.semantic", "X"),
        "RPG_CHECKPOINT_SEMANTIC_MISMATCH"
    );
    assert_eq!(
        checkpoint_artifact_mismatch_code("$.fingerprints.presentation", "X"),
        "RPG_CHECKPOINT_PRESENTATION_MISMATCH"
    );
    assert_eq!(
        checkpoint_artifact_mismatch_code("$.fingerprints.source", "X"),
        "RPG_CHECKPOINT_SOURCE_MISMATCH"
    );
    assert_eq!(
        checkpoint_artifact_mismatch_code("$", "RPG_ARTIFACT_ID_INVALID"),
        "RPG_CHECKPOINT_ARTIFACT_ID_MISMATCH"
    );
    assert_eq!(
        checkpoint_artifact_mismatch_code("$", "RPG_OTHER"),
        "RPG_CHECKPOINT_ARTIFACT_INVALID"
    );
}

#[test]
fn schemas_are_checked_exactly() {
    let checkpoint = checkpoint_schema();
    assert_eq!(checkpoint.id, "asha.rpg.session.checkpoint");
    assert_eq!(checkpoint.version, 13);
    assert!(validate_checkpoint_schema(&checkpoint).is_ok());
    let old = RpgPortableSchemaIdentity {
        id: "asha.rpg.session.checkpoint".to_owned(),
        version: 12,
    };
    let failure = validate_checkpoint_schema(&old).unwrap_err();
    assert_eq!(failure.diagnostics[0].code, "RPG_CHECKPOINT_SCHEMA_MISMATCH");
    assert_eq!(failure.diagnostics[0].path, "$.schema");

    let entry = replay_entry_schema();
    assert_eq!(entry.id, "asha.rpg.session.replay-entry");
    assert_eq!(entry.version, 14);
    assert!(validate_replay_entry_schema(&entry, "$.entries[0]").is_ok());
    let failure = validate_replay_entry_schema(&checkpoint, "$.entries[3]").unwrap_err();
    assert_eq!(failure.diagnostics[0].code, "RPG_REPLAY_ENTRY_SCHEMA_MISMATCH");
    assert_eq!(failure.diagnostics[0].path, "$.entries[3].schema");
}

#[test]
fn fingerprints_are_fnv1a64_in_sixteen_hex_digits() {
    assert_eq!(fnv1a64(b""), 0xcbf29ce484222325);
    assert_eq!(fnv1a64(b"a"), 0xaf63dc4c8601ec8c);
    let scenario = scenario_fingerprint(b"a");
    assert_eq!(scenario.algorithm, "fnv1a64.rpg-scenario.v1");
    assert_eq!(scenario.value, "af63dc4c8601ec8c");
    let state = session_state_hash(b"");
    assert_eq!(state.algorithm, "fnv1a64.rpg-session.v3");
    assert_eq!(state.value, "cbf29ce484222325");
}

#[test]
fn session_binding_ids_are_zero_padded_hex() {
    assert_eq!(
        session_binding_id(0xab, 1),
        "rpg-session-000000000000000000000000000000ab-0000000000000001"
    );
}

#[test]
fn replay_failures_carry_one_finding() {
    let failure = replay_failure("RPG_X", "$.x".to_owned(), "went wrong".to_owned());
    assert_eq!(failure.diagnostics.len(), 1);
    assert_eq!(failure.diagnostics[0].message, "went wrong");
    assert!(failure.diagnostics[0].expected.is_none());
    let diagnostic = compatibility_diagnostic("RPG_Y", "$.y", "changed");
    assert_eq!(diagnostic.code, "RPG_Y");
    assert!(diagnostic.actual.is_none());
}

fn boundary() -> RpgReplayBoundary {
    RpgReplayBoundary {
        revision: 3,
        accepted_random_position: 2,
        scenario_fingerprint: StateFingerprint {
            algorithm: "fnv1a64.rpg-scenario.v1".to_owned(),
            value: "0000000000000001".to_owned(),
        },
        random_source: RpgRandomSourceBinding {
            policy_id: "policy".to_owned(),
            policy_version: 1,
            source_id: "source".to_owned(),
            source_version: 1,
        },
        turn: RpgTurnState {
            initiative_order: vec!["hero".to_owned(), "guardian".to_owned()],
            current_actor_id: "hero".to_owned(),
            round: 1,
            turn: 1,
        },
        phase: RpgReplayPhase::AwaitingTurnSave {
            actor_id: "hero".to_owned(),
            effect_instance_ids: vec!["effect-1".to_owned()],
        },
        state_hash: StateFingerprint {
            algorithm: "fnv1a64.rpg-session.v3".to_owned(),
            value: "0000000000000002".to_owned(),
        },
    }
}

#[test]
fn boundaries_compare_field_by_field() {
    let expected = boundary();
    assert!(compare_boundary(&expected, &expected.clone(), "$.entries[0].after").is_ok());

    let mut moved = expected.clone();
    moved.phase = RpgReplayPhase::Ready;
    moved.state_hash.value = "ffffffffffffffff".to_owned();
    let failure = compare_boundary(&expected, &moved, "$.entries[0].after").unwrap_err();
    assert_eq!(failure.diagnostics[0].code, "RPG_REPLAY_PHASE_MISMATCH");
    assert_eq!(failure.diagnostics[0].path, "$.entries[0].after.phase");
    assert_eq!(
        failure.diagnostics[0].message,
        "portable replay evidence did not match Rust authority"
    );

    let mut later = expected.clone();
    later.revision = 4;
    let failure = compare_boundary(&expected, &later, "$.before").unwrap_err();
    assert_eq!(failure.diagnostics[0].code, "RPG_REPLAY_REVISION_MISMATCH");
    assert_eq!(failure.diagnostics[0].path, "$.before.revision");

    let mut rehashed = expected.clone();
    rehashed.state_hash.value = "ffffffffffffffff".to_owned();
    let failure = compare_boundary(&expected, &rehashed, "$.before").unwrap_err();
    assert_eq!(failure.diagnostics[0].code, "RPG_REPLAY_STATE_HASH_MISMATCH");
}

#[test]
fn checkpoint_fingerprints_are_checked_setup_first() {
    let setup = b"{\"scenario\":1}";
    let session = b"{\"session\":1}";
    let setup_fp = scenario_fingerprint(setup);
    let hash = session_state_hash(session);
    assert!(validate_checkpoint_fingerprints(&setup_fp, setup, &hash, session).is_ok());
    let mut wrong = setup_fp.clone();
    wrong.value = "0000000000000000".to_owned();
    let failure = validate_checkpoint_fingerprints(&wrong, setup, &wrong, session).unwrap_err();
    assert_eq!(failure.diagnostics[0].code, "RPG_CHECKPOINT_SETUP_FINGERPRINT_MISMATCH");
    assert_eq!(failure.diagnostics[0].path, "$.scenarioFingerprint");
    let failure = validate_checkpoint_fingerprints(&setup_fp, setup, &setup_fp, session).unwrap_err();
    assert_eq!(failure.diagnostics[0].code, "RPG_CHECKPOINT_STATE_HASH_MISMATCH");
    assert_eq!(failure.diagnostics[0].path, "$.stateHash");
}

#[test]
fn checkpoint_findings_keep_their_paths() {
    let loader = vec![RpgArtifactDiagnostic {
        code: "RPG_COMPILER_ARTIFACT_ID_INVALID".to_owned(),
        path: "$.artifact.artifactId".to_owned(),
        message: "bad id".to_owned(),
    }];
    let failure = artifact_load_failure(&loader);
    assert_eq!(failure.diagnostics[0].code, "RPG_CHECKPOINT_ARTIFACT_ID_MISMATCH");
    assert_eq!(failure.diagnostics[0].message, "RPG_COMPILER_ARTIFACT_ID_INVALID: bad id");
    assert!(failure.diagnostics[0].expected.is_none());

    let findings = vec![RpgScenarioDiagnostic {
        code: "RPG_SCENARIO_TURN_COUNTER_INVALID".to_owned(),
        path: "$.turn".to_owned(),
        message: "round and turn counters must be positive".to_owned(),
    }];
    let setup = checkpoint_findings_failure(&findings, true);
    assert_eq!(setup.diagnostics[0].code, "RPG_CHECKPOINT_SETUP_INVALID");
    assert_eq!(
        setup.diagnostics[0].message,
        "RPG_SCENARIO_TURN_COUNTER_INVALID: round and turn counters must be positive"
    );
    let plain = checkpoint_findings_failure(&findings, false);
    assert_eq!(plain.diagnostics[0].code, "RPG_SCENARIO_TURN_COUNTER_INVALID");
    assert_eq!(plain.diagnostics[0].path, "$.turn");
}
