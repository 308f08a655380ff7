use vstd::prelude::*;

use crate::scenario::{RpgRandomSourceBinding, RpgScenarioDiagnostic};
use crate::text::{
    contains_fragment, has_fragment, hex_fixed, join, push_hex, same_texts, text, texts,
};
use crate::turn::RpgTurnState;

verus! {

/// The portable checkpoint schema this authority writes and accepts.
pub const RPG_CHECKPOINT_SCHEMA_ID: &'static str = "asha.rpg.session.checkpoint";

/// The portable replay-entry schema this authority writes and accepts.
pub const RPG_REPLAY_ENTRY_SCHEMA_ID: &'static str = "asha.rpg.session.replay-entry";

pub const RPG_CHECKPOINT_SCHEMA_VERSION: u32 = 13;

pub const RPG_REPLAY_ENTRY_SCHEMA_VERSION: u32 = 14;

pub const RPG_EVENT_SCHEMA_VERSION: u32 = 12;

/// A versioned portable schema identity.
#[derive(Debug, Clone)]
pub struct RpgPortableSchemaIdentity {
    pub id: String,
    pub version: u32,
}

/// One replay or compatibility finding; `expected` and `actual` carry the
/// compared values' debug renderings when the finding is a mismatch.
#[derive(Debug, Clone)]
pub struct RpgReplayDiagnostic {
    pub code: String,
    pub path: String,
    pub message: String,
    pub expected: Option<String>,
    pub actual: Option<String>,
}

/// Why a checkpoint or replay was refused.
#[derive(Debug, Clone)]
pub struct RpgReplayFailure {
    pub diagnostics: Vec<RpgReplayDiagnostic>,
}

/// A state or scenario fingerprint: the hashing scheme and its value.
#[derive(Debug, Clone)]
pub struct StateFingerprint {
    pub algorithm: String,
    pub value: String,
}

/// The checkpoint schema identity.
pub fn checkpoint_schema() -> (s: RpgPortableSchemaIdentity)
    ensures
        s.id@ == RPG_CHECKPOINT_SCHEMA_ID@,
        s.version == RPG_CHECKPOINT_SCHEMA_VERSION,
{
    RpgPortableSchemaIdentity { id: text(RPG_CHECKPOINT_SCHEMA_ID), version: RPG_CHECKPOINT_SCHEMA_VERSION }
}

/// The replay-entry schema identity.
pub fn replay_entry_schema() -> (s: RpgPortableSchemaIdentity)
    ensures
        s.id@ == RPG_REPLAY_ENTRY_SCHEMA_ID@,
        s.version == RPG_REPLAY_ENTRY_SCHEMA_VERSION,
{
    RpgPortableSchemaIdentity {
        id: text(RPG_REPLAY_ENTRY_SCHEMA_ID),
        version: RPG_REPLAY_ENTRY_SCHEMA_VERSION,
    }
}

/// A finding with no compared values.
pub fn compatibility_diagnostic(code: &str, path: &str, message: &str) -> (d: RpgReplayDiagnostic)
    ensures
        d.code@ == code@,
        d.path@ == path@,
        d.message@ == message@,
        d.expected is None,
        d.actual is None,
{
    RpgReplayDiagnostic {
        code: text(code),
        path: text(path),
        message: text(message),
        expected: None,
        actual: None,
    }
}

/// A failure with one finding and no compared values.
pub fn replay_failure(code: &str, path: String, message: String) -> (f: RpgReplayFailure)
    ensures
        f.diagnostics@.len() == 1,
        f.diagnostics@[0].code@ == code@,
        f.diagnostics@[0].path@ == path@,
        f.diagnostics@[0].message@ == message@,
        f.diagnostics@[0].expected is None,
        f.diagnostics@[0].actual is None,
{
    let mut diagnostics: Vec<RpgReplayDiagnostic> = Vec::new();
    diagnostics.push(
        RpgReplayDiagnostic { code: text(code), path, message, expected: None, actual: None },
    );
    RpgReplayFailure { diagnostics }
}

/// `{value:?}`: the standard debug rendering of a value.
#[verifier::external_body]
pub(crate) fn debug_text<T: std::fmt::Debug>(value: &T) -> String {
    format!("{value:?}")
}

/// The message of every replay mismatch.
pub open spec fn mismatch_message() -> Seq<char> {
    "portable replay evidence did not match Rust authority"@
}

/// A failure with one mismatch finding carrying both compared values'
/// debug renderings.
pub fn replay_mismatch<E: std::fmt::Debug, A: std::fmt::Debug>(
    code: &str,
    path: String,
    expected: &E,
    actual: &A,
) -> (f: RpgReplayFailure)
    ensures
        f.diagnostics@.len() == 1,
        f.diagnostics@[0].code@ == code@,
        f.diagnostics@[0].path@ == path@,
        f.diagnostics@[0].message@ == mismatch_message(),
        f.diagnostics@[0].expected is Some,
        f.diagnostics@[0].actual is Some,
{
    let mut diagnostics: Vec<RpgReplayDiagnostic> = Vec::new();
    diagnostics.push(
        RpgReplayDiagnostic {
            code: text(code),
            path,
            message: text("portable replay evidence did not match Rust authority"),
            expected: Some(debug_text(expected)),
            actual: Some(debug_text(actual)),
        },
    );
    RpgReplayFailure { diagnostics }
}

// ---------------------------------------------------------------------------
// Fingerprints
// ---------------------------------------------------------------------------

pub const FNV_OFFSET_BASIS: u64 = 0xcbf29ce484222325;

pub const FNV_PRIME: u64 = 0x100000001b3;

/// One FNV-1a step: xor in the byte, then multiply by the prime modulo 2^64.
pub open spec fn fnv_step(hash: u64, byte: u8) -> u64 {
    ((((hash ^ (byte as u64)) as nat) * (FNV_PRIME as nat)) % 0x1_0000_0000_0000_0000) as u64
}

/// The 64-bit FNV-1a hash of a byte sequence.
pub open spec fn fnv1a64_spec(bytes: Seq<u8>) -> u64
    decreases bytes.len(),
{
    if bytes.len() == 0 {
        FNV_OFFSET_BASIS
    } else {
        fnv_step(fnv1a64_spec(bytes.drop_last()), bytes.last())
    }
}

/// The 64-bit FNV-1a hash of a byte sequence.
pub fn fnv1a64(bytes: &[u8]) -> (h: u64)
    ensures
        h == fnv1a64_spec(bytes@),
{
    let mut hash: u64 = FNV_OFFSET_BASIS;
    let mut i: usize = 0;
    while i < bytes.len()
        invariant
            i <= bytes@.len(),
            hash == fnv1a64_spec(bytes@.take(i as int)),
        decreases bytes.len() - i,
    {
        proof {
            assert(bytes@.take(i + 1).drop_last() =~= bytes@.take(i as int));
        }
        hash = hash ^ (bytes[i] as u64);
        hash = hash.wrapping_mul(FNV_PRIME);
        i = i + 1;
    }
    proof {
        assert(bytes@.take(i as int) =~= bytes@);
    }
    hash
}

/// A fingerprint of `bytes` under a named scheme: the FNV-1a hash as sixteen
/// lower-case hexadecimal digits.
pub fn fingerprint_bytes(algorithm: &str, bytes: &[u8]) -> (f: StateFingerprint)
    ensures
        f.algorithm@ == algorithm@,
        f.value@ == hex_fixed(fnv1a64_spec(bytes@) as nat, 16),
{
    let hash = fnv1a64(bytes);
    let mut value = String::new();
    push_hex(&mut value, hash as u128, 16);
    StateFingerprint { algorithm: text(algorithm), value }
}

/// The fingerprint of a scenario from its canonical encoding.
pub fn scenario_fingerprint(encoded: &[u8]) -> (f: StateFingerprint)
    ensures
        f.algorithm@ == "fnv1a64.rpg-scenario.v1"@,
        f.value@ == hex_fixed(fnv1a64_spec(encoded@) as nat, 16),
{
    fingerprint_bytes("fnv1a64.rpg-scenario.v1", encoded)
}

/// The fingerprint of a session state from the canonical encoding of its
/// scenario, state, turn, log, random position and phase.
pub fn session_state_hash(encoded: &[u8]) -> (f: StateFingerprint)
    ensures
        f.algorithm@ == "fnv1a64.rpg-session.v3"@,
        f.value@ == hex_fixed(fnv1a64_spec(encoded@) as nat, 16),
{
    fingerprint_bytes("fnv1a64.rpg-session.v3", encoded)
}

/// `rpg-session-{nonce:032x}-{sequence:016x}`.
pub fn session_binding_id(process_nonce: u128, sequence: u64) -> (s: String)
    ensures
        s@ == "rpg-session-"@ + hex_fixed(process_nonce as nat, 32) + "-"@ + hex_fixed(
            sequence as nat,
            16,
        ),
{
    let mut s = text("rpg-session-");
    push_hex(&mut s, process_nonce, 32);
    s = join(s.as_str(), "-");
    push_hex(&mut s, sequence as u128, 16);
    s
}

// ---------------------------------------------------------------------------
// Replay boundaries
// ---------------------------------------------------------------------------

/// What the session waits for at a replay boundary.
#[derive(Debug, Clone)]
pub enum RpgReplayPhase {
    Ready,
    AwaitingReaction { reaction_id: String },
    AwaitingForcedMovement {
        source_id: String,
        moved_participant_id: String,
        operation_path: String,
    },
    AwaitingTurnSave { actor_id: String, effect_instance_ids: Vec<String> },
}

/// The observable session facts before or after one replayed operation.
#[derive(Debug, Clone)]
pub struct RpgReplayBoundary {
    pub revision: u64,
    pub accepted_random_position: u64,
    pub scenario_fingerprint: StateFingerprint,
    pub random_source: RpgRandomSourceBinding,
    pub turn: RpgTurnState,
    pub phase: RpgReplayPhase,
    pub state_hash: StateFingerprint,
}

pub open spec fn same_fingerprint(a: StateFingerprint, b: StateFingerprint) -> bool {
    a.algorithm@ == b.algorithm@ && a.value@ == b.value@
}

pub open spec fn same_binding(a: RpgRandomSourceBinding, b: RpgRandomSourceBinding) -> bool {
    &&& a.policy_id@ == b.policy_id@
    &&& a.policy_version == b.policy_version
    &&& a.source_id@ == b.source_id@
    &&& a.source_version == b.source_version
}

pub open spec fn same_turn(a: RpgTurnState, b: RpgTurnState) -> bool {
    &&& texts(a.initiative_order@) == texts(b.initiative_order@)
    &&& a.current_actor_id@ == b.current_actor_id@
    &&& a.round == b.round
    &&& a.turn == b.turn
}

pub open spec fn same_phase(a: RpgReplayPhase, b: RpgReplayPhase) -> bool {
    match (a, b) {
        (RpgReplayPhase::Ready, RpgReplayPhase::Ready) => true,
        (
            RpgReplayPhase::AwaitingReaction { reaction_id: x },
            RpgReplayPhase::AwaitingReaction { reaction_id: y },
        ) => x@ == y@,
        (
            RpgReplayPhase::AwaitingForcedMovement {
                source_id: s1,
                moved_participant_id: m1,
                operation_path: o1,
            },
            RpgReplayPhase::AwaitingForcedMovement {
                source_id: s2,
                moved_participant_id: m2,
                operation_path: o2,
            },
        ) => s1@ == s2@ && m1@ == m2@ && o1@ == o2@,
        (
            RpgReplayPhase::AwaitingTurnSave { actor_id: a1, effect_instance_ids: e1 },
            RpgReplayPhase::AwaitingTurnSave { actor_id: a2, effect_instance_ids: e2 },
        ) => a1@ == a2@ && texts(e1@) == texts(e2@),
        _ => false,
    }
}

/// The first difference between an expected and an actual boundary, as
/// (code, path suffix), checked in the order revision, phase, random
/// position, scenario fingerprint, random source, turn, state hash.
pub open spec fn boundary_mismatch(e: RpgReplayBoundary, a: RpgReplayBoundary) -> Option<
    (Seq<char>, Seq<char>),
> {
    if e.revision != a.revision {
        Some(("RPG_REPLAY_REVISION_MISMATCH"@, ".revision"@))
    } else if !same_phase(e.phase, a.phase) {
        Some(("RPG_REPLAY_PHASE_MISMATCH"@, ".phase"@))
    } else if e.accepted_random_position != a.accepted_random_position {
        Some(("RPG_REPLAY_EVIDENCE_POSITION_MISMATCH"@, ".acceptedRandomPosition"@))
    } else if !same_fingerprint(e.scenario_fingerprint, a.scenario_fingerprint) {
        Some(("RPG_REPLAY_SETUP_MISMATCH"@, ".scenarioFingerprint"@))
    } else if !same_binding(e.random_source, a.random_source) {
        Some(("RPG_REPLAY_RANDOM_SOURCE_MISMATCH"@, ".randomSource"@))
    } else if !same_turn(e.turn, a.turn) {
        Some(("RPG_REPLAY_TURN_MISMATCH"@, ".turn"@))
    } else if !same_fingerprint(e.state_hash, a.state_hash) {
        Some(("RPG_REPLAY_STATE_HASH_MISMATCH"@, ".stateHash"@))
    } else {
        None
    }
}

/// A failure that reports one mismatch at `path` with `code`.
pub open spec fn is_mismatch_failure(f: RpgReplayFailure, code: Seq<char>, path: Seq<char>) -> bool {
    &&& f.diagnostics@.len() == 1
    &&& f.diagnostics@[0].code@ == code
    &&& f.diagnostics@[0].path@ == path
    &&& f.diagnostics@[0].message@ == mismatch_message()
    &&& f.diagnostics@[0].expected is Some
    &&& f.diagnostics@[0].actual is Some
}

pub(crate) fn same_fingerprint_exec(a: &StateFingerprint, b: &StateFingerprint) -> (r: bool)
    ensures
        r == same_fingerprint(*a, *b),
{
    a.algorithm == b.algorithm && a.value == b.value
}

pub(crate) fn same_binding_exec(a: &RpgRandomSourceBinding, b: &RpgRandomSourceBinding) -> (r: bool)
    ensures
        r == same_binding(*a, *b),
{
    a.policy_id == b.policy_id && a.policy_version == b.policy_version && a.source_id
        == b.source_id && a.source_version == b.source_version
}

fn same_turn_exec(a: &RpgTurnState, b: &RpgTurnState) -> (r: bool)
    ensures
        r == same_turn(*a, *b),
{
    same_texts(&a.initiative_order, &b.initiative_order) && a.current_actor_id == b.current_actor_id
        && a.round == b.round && a.turn == b.turn
}

fn same_phase_exec(a: &RpgReplayPhase, b: &RpgReplayPhase) -> (r: bool)
    ensures
        r == same_phase(*a, *b),
{
    match (a, b) {
        (RpgReplayPhase::Ready, RpgReplayPhase::Ready) => true,
        (
            RpgReplayPhase::AwaitingReaction { reaction_id: x },
            RpgReplayPhase::AwaitingReaction { reaction_id: y },
        ) => *x == *y,
        (
            RpgReplayPhase::AwaitingForcedMovement {
                source_id: s1,
                moved_participant_id: m1,
                operation_path: o1,
            },
            RpgReplayPhase::AwaitingForcedMovement {
                source_id: s2,
                moved_participant_id: m2,
                operation_path: o2,
            },
        ) => *s1 == *s2 && *m1 == *m2 && *o1 == *o2,
        (
            RpgReplayPhase::AwaitingTurnSave { actor_id: a1, effect_instance_ids: e1 },
            RpgReplayPhase::AwaitingTurnSave { actor_id: a2, effect_instance_ids: e2 },
        ) => *a1 == *a2 && same_texts(e1, e2),
        _ => false,
    }
}

/// Compares a recorded boundary with the one the authority reached: succeeds
/// when they agree, otherwise reports the first difference under `path`.
pub fn compare_boundary(expected: &RpgReplayBoundary, actual: &RpgReplayBoundary, path: &str) -> (r:
    Result<(), RpgReplayFailure>)
    ensures
        match boundary_mismatch(*expected, *actual) {
            None => r is Ok,
            Some((code, suffix)) => r matches Err(f) && is_mismatch_failure(f, code, path@ + suffix),
        },
{
    if expected.revision != actual.revision {
        return Err(
            replay_mismatch(
                "RPG_REPLAY_REVISION_MISMATCH",
                join(path, ".revision"),
                &expected.revision,
                &actual.revision,
            ),
        );
    }
    if !same_phase_exec(&expected.phase, &actual.phase) {
        return Err(
            replay_mismatch(
                "RPG_REPLAY_PHASE_MISMATCH",
                join(path, ".phase"),
                &expected.phase,
                &actual.phase,
            ),
        );
    }
    if expected.accepted_random_position != actual.accepted_random_position {
        return Err(
            replay_mismatch(
                "RPG_REPLAY_EVIDENCE_POSITION_MISMATCH",
                join(path, ".acceptedRandomPosition"),
                &expected.accepted_random_position,
                &actual.accepted_random_position,
            ),
        );
    }
    if !same_fingerprint_exec(&expected.scenario_fingerprint, &actual.scenario_fingerprint) {
        return Err(
            replay_mismatch(
                "RPG_REPLAY_SETUP_MISMATCH",
                join(path, ".scenarioFingerprint"),
                &expected.scenario_fingerprint,
                &actual.scenario_fingerprint,
            ),
        );
    }
    if !same_binding_exec(&expected.random_source, &actual.random_source) {
        return Err(
            replay_mismatch(
                "RPG_REPLAY_RANDOM_SOURCE_MISMATCH",
                join(path, ".randomSource"),
                &expected.random_source,
                &actual.random_source,
            ),
        );
    }
    if !same_turn_exec(&expected.turn, &actual.turn) {
        return Err(
            replay_mismatch(
                "RPG_REPLAY_TURN_MISMATCH",
                join(path, ".turn"),
                &expected.turn,
                &actual.turn,
            ),
        );
    }
    if !same_fingerprint_exec(&expected.state_hash, &actual.state_hash) {
        return Err(
            replay_mismatch(
                "RPG_REPLAY_STATE_HASH_MISMATCH",
                join(path, ".stateHash"),
                &expected.state_hash,
                &actual.state_hash,
            ),
        );
    }
    Ok(())
}

/// A boundary always agrees with itself: replaying into the very state a
/// boundary records is accepted.
pub proof fn lemma_boundary_agrees_with_itself(b: RpgReplayBoundary)
    ensures
        boundary_mismatch(b, b) is None,
{
    match b.phase {
        RpgReplayPhase::AwaitingTurnSave { actor_id, effect_instance_ids } => {},
        _ => {},
    }
}

/// Whether a boundary agrees with another is symmetric.
pub proof fn lemma_boundary_agreement_symmetric(a: RpgReplayBoundary, b: RpgReplayBoundary)
    ensures
        (boundary_mismatch(a, b) is None) == (boundary_mismatch(b, a) is None),
{
}

// ---------------------------------------------------------------------------
// Artifact identity
// ---------------------------------------------------------------------------

/// The three fingerprints of a compiled PlayBundle.
#[derive(Debug, Clone)]
pub struct RpgArtifactFingerprints {
    pub source: String,
    pub presentation: String,
    pub semantic: String,
}

/// A materialised definition and its fingerprint.
#[derive(Debug, Clone)]
pub struct RpgDefinitionFingerprintBinding {
    pub id: String,
    pub fingerprint: String,
}

/// What checkpoint compatibility reads of a compiled PlayBundle artifact.
/// Structured identities (schema, PlayBundle and ruleset identities, each
/// resolved content pack and lock entry) are held as their canonical
/// encodings, so that two are the same exactly when their encodings are.
#[derive(Debug, Clone)]
pub struct RpgArtifactFacts {
    pub artifact_schema: String,
    pub artifact_id: String,
    pub play_bundle: String,
    pub ruleset: String,
    pub content_packs: Vec<String>,
    pub dependency_lock: Vec<String>,
    pub fingerprints: RpgArtifactFingerprints,
    pub definitions: Vec<RpgDefinitionFingerprintBinding>,
}

/// The artifact identity a checkpoint is bound to.
#[derive(Debug, Clone)]
pub struct RpgReplayArtifactBinding {
    pub artifact_schema: String,
    pub artifact_id: String,
    pub play_bundle: String,
    pub ruleset: String,
    pub content_packs: Vec<String>,
    pub dependency_lock: Vec<String>,
    pub fingerprints: RpgArtifactFingerprints,
    pub definitions: Vec<RpgDefinitionFingerprintBinding>,
}

/// How a candidate artifact relates to the one a checkpoint embeds.
#[derive(Debug, Clone)]
pub struct RpgArtifactCompatibilityReport {
    pub exact: bool,
    pub semantic_compatible: bool,
    pub diagnostics: Vec<RpgReplayDiagnostic>,
}

pub open spec fn definition_texts(v: Seq<RpgDefinitionFingerprintBinding>) -> Seq<
    (Seq<char>, Seq<char>),
> {
    v.map_values(|d: RpgDefinitionFingerprintBinding| (d.id@, d.fingerprint@))
}

pub open spec fn diagnostic_triple(d: RpgReplayDiagnostic) -> (Seq<char>, Seq<char>, Seq<char>) {
    (d.code@, d.path@, d.message@)
}

pub open spec fn replay_diagnostic_texts(v: Seq<RpgReplayDiagnostic>) -> Seq<
    (Seq<char>, Seq<char>, Seq<char>),
> {
    v.map_values(|d: RpgReplayDiagnostic| diagnostic_triple(d))
}

/// No diagnostic carries compared values.
pub open spec fn without_values(v: Seq<RpgReplayDiagnostic>) -> bool {
    forall|i: int| 0 <= i < v.len() ==> (#[trigger] v[i]).expected is None && v[i].actual is None
}

pub open spec fn finding(code: Seq<char>, path: Seq<char>, message: Seq<char>) -> Seq<
    (Seq<char>, Seq<char>, Seq<char>),
> {
    seq![(code, path, message)]
}

pub open spec fn finding_if(c: bool, f: Seq<(Seq<char>, Seq<char>, Seq<char>)>) -> Seq<
    (Seq<char>, Seq<char>, Seq<char>),
> {
    if c {
        f
    } else {
        Seq::empty()
    }
}

/// The findings about a candidate artifact against a historical one, in
/// report order: content packs, dependency lock, source, presentation and
/// semantic fingerprints, artifact identity.
pub open spec fn compatibility_findings(h: RpgArtifactFacts, c: RpgArtifactFacts) -> Seq<
    (Seq<char>, Seq<char>, Seq<char>),
> {
    finding_if(
        texts(h.content_packs@) != texts(c.content_packs@),
        finding(
            "RPG_REPLAY_PACKAGE_SET_CHANGED"@,
            "$.artifact.contentPacks"@,
            "exact content pack identities, versions, or fingerprints changed"@,
        ),
    ) + finding_if(
        texts(h.dependency_lock@) != texts(c.dependency_lock@),
        finding(
            "RPG_REPLAY_DEPENDENCY_LOCK_CHANGED"@,
            "$.artifact.dependencyLock"@,
            "the exact dependency lock changed"@,
        ),
    ) + finding_if(
        h.fingerprints.source@ != c.fingerprints.source@,
        finding(
            "RPG_REPLAY_SOURCE_FINGERPRINT_CHANGED"@,
            "$.artifact.fingerprints.source"@,
            "source identity changed"@,
        ),
    ) + finding_if(
        h.fingerprints.presentation@ != c.fingerprints.presentation@,
        finding(
            "RPG_REPLAY_PRESENTATION_FINGERPRINT_CHANGED"@,
            "$.artifact.fingerprints.presentation"@,
            "presentation identity changed"@,
        ),
    ) + finding_if(
        h.fingerprints.semantic@ != c.fingerprints.semantic@,
        finding(
            "RPG_REPLAY_SEMANTIC_FINGERPRINT_CHANGED"@,
            "$.artifact.fingerprints.semantic"@,
            "semantic identity changed"@,
        ),
    ) + finding_if(
        h.artifact_id@ != c.artifact_id@,
        finding(
            "RPG_REPLAY_ARTIFACT_ID_CHANGED"@,
            "$.artifact.artifactId"@,
            "artifact identity changed; exact replay will continue using the embedded historical artifact"@,
        ),
    )
}

fn push_compatibility(
    out: &mut Vec<RpgReplayDiagnostic>,
    code: &str,
    path: &str,
    message: &str,
)
    requires
        without_values(old(out)@),
    ensures
        without_values(final(out)@),
        replay_diagnostic_texts(final(out)@) == replay_diagnostic_texts(old(out)@) + finding(
            code@,
            path@,
            message@,
        ),
{
    let ghost before = out@;
    out.push(compatibility_diagnostic(code, path, message));
    assert forall|i: int| 0 <= i < out@.len() implies (#[trigger] out@[i]).expected is None
        && out@[i].actual is None by {
        if i < before.len() {
            assert(out@[i] == before[i]);
        }
    }
    assert(replay_diagnostic_texts(out@) =~= replay_diagnostic_texts(before) + finding(
        code@,
        path@,
        message@,
    ));
}

/// Classifies a candidate artifact against the artifact a checkpoint embeds:
/// every identity change is reported; the match is exact when nothing
/// changed, and semantically compatible when the semantic fingerprints agree.
pub fn classify_checkpoint_artifact(historical: &RpgArtifactFacts, candidate: &RpgArtifactFacts) -> (r:
    RpgArtifactCompatibilityReport)
    ensures
        replay_diagnostic_texts(r.diagnostics@) == compatibility_findings(*historical, *candidate),
        without_values(r.diagnostics@),
        r.exact == (r.diagnostics@.len() == 0),
        r.semantic_compatible == (historical.fingerprints.semantic@
            == candidate.fingerprints.semantic@),
{
    let mut diagnostics: Vec<RpgReplayDiagnostic> = Vec::new();
    if !same_texts(&historical.content_packs, &candidate.content_packs) {
        push_compatibility(
            &mut diagnostics,
            "RPG_REPLAY_PACKAGE_SET_CHANGED",
            "$.artifact.contentPacks",
            "exact content pack identities, versions, or fingerprints changed",
        );
    }
    if !same_texts(&historical.dependency_lock, &candidate.dependency_lock) {
        push_compatibility(
            &mut diagnostics,
            "RPG_REPLAY_DEPENDENCY_LOCK_CHANGED",
            "$.artifact.dependencyLock",
            "the exact dependency lock changed",
        );
    }
    if historical.fingerprints.source != candidate.fingerprints.source {
        push_compatibility(
            &mut diagnostics,
            "RPG_REPLAY_SOURCE_FINGERPRINT_CHANGED",
            "$.artifact.fingerprints.source",
            "source identity changed",
        );
    }
    if historical.fingerprints.presentation != candidate.fingerprints.presentation {
        push_compatibility(
            &mut diagnostics,
            "RPG_REPLAY_PRESENTATION_FINGERPRINT_CHANGED",
            "$.artifact.fingerprints.presentation",
            "presentation identity changed",
        );
    }
    let semantic_same = historical.fingerprints.semantic == candidate.fingerprints.semantic;
    if !semantic_same {
        push_compatibility(
            &mut diagnostics,
            "RPG_REPLAY_SEMANTIC_FINGERPRINT_CHANGED",
            "$.artifact.fingerprints.semantic",
            "semantic identity changed",
        );
    }
    if historical.artifact_id != candidate.artifact_id {
        push_compatibility(
            &mut diagnostics,
            "RPG_REPLAY_ARTIFACT_ID_CHANGED",
            "$.artifact.artifactId",
            "artifact identity changed; exact replay will continue using the embedded historical artifact",
        );
    }
    assert(replay_diagnostic_texts(diagnostics@) =~= compatibility_findings(*historical, *candidate));
    let exact = diagnostics.len() == 0;
    RpgArtifactCompatibilityReport { exact, semantic_compatible: semantic_same, diagnostics }
}

/// An artifact is an exact match for itself.
pub proof fn lemma_classification_of_same_artifact_is_exact(a: RpgArtifactFacts)
    ensures
        compatibility_findings(a, a).len() == 0,
{
    assert(compatibility_findings(a, a) =~= Seq::empty());
}

/// An exact match is semantically compatible: a semantic change is always
/// reported.
pub proof fn lemma_exact_match_is_semantically_compatible(h: RpgArtifactFacts, c: RpgArtifactFacts)
    requires
        compatibility_findings(h, c).len() == 0,
    ensures
        h.fingerprints.semantic@ == c.fingerprints.semantic@,
{
    if h.fingerprints.semantic@ != c.fingerprints.semantic@ {
        assert(compatibility_findings(h, c).len() >= 1);
    }
}

/// The binding records every identity of the artifact.
pub open spec fn binds(b: RpgReplayArtifactBinding, a: RpgArtifactFacts) -> bool {
    &&& b.artifact_schema@ == a.artifact_schema@
    &&& b.artifact_id@ == a.artifact_id@
    &&& b.play_bundle@ == a.play_bundle@
    &&& b.ruleset@ == a.ruleset@
    &&& texts(b.content_packs@) == texts(a.content_packs@)
    &&& texts(b.dependency_lock@) == texts(a.dependency_lock@)
    &&& b.fingerprints.source@ == a.fingerprints.source@
    &&& b.fingerprints.presentation@ == a.fingerprints.presentation@
    &&& b.fingerprints.semantic@ == a.fingerprints.semantic@
    &&& definition_texts(b.definitions@) == definition_texts(a.definitions@)
}

fn copy_definitions(v: &Vec<RpgDefinitionFingerprintBinding>) -> (r: Vec<RpgDefinitionFingerprintBinding>)
    ensures
        definition_texts(r@) == definition_texts(v@),
{
    let mut r: Vec<RpgDefinitionFingerprintBinding> = Vec::new();
    let mut i: usize = 0;
    while i < v.len()
        invariant
            i <= v@.len(),
            definition_texts(r@) == definition_texts(v@.take(i as int)),
        decreases v.len() - i,
    {
        let ghost before = r@;
        let d = RpgDefinitionFingerprintBinding {
            id: v[i].id.clone(),
            fingerprint: v[i].fingerprint.clone(),
        };
        r.push(d);
        proof {
            assert(definition_texts(before).len() == before.len());
            assert(before.len() == i);
            assert(r@ == before.push(d));
            assert forall|k: int| 0 <= k < i implies definition_texts(r@)[k] == definition_texts(
                before,
            )[k] by {
                assert(r@[k] == before[k]);
            }
            assert(definition_texts(before) =~= definition_texts(v@.take(i as int)));
            assert(v@.take(i + 1) =~= v@.take(i as int).push(v@[i as int]));
            assert(d.id@ == v@[i as int].id@ && d.fingerprint@ == v@[i as int].fingerprint@);
            assert forall|k: int| 0 <= k <= i implies definition_texts(r@)[k] == definition_texts(
                v@.take(i + 1),
            )[k] by {
                if k < i {
                    assert(definition_texts(before)[k] == definition_texts(v@.take(i as int))[k]);
                    assert(v@.take(i + 1)[k] == v@.take(i as int)[k]);
                }
            }
            assert(definition_texts(r@) =~= definition_texts(v@.take(i + 1)));
        }
        i = i + 1;
    }
    assert(v@.take(i as int) =~= v@);
    r
}

/// The identity binding a checkpoint records for an artifact.
pub fn artifact_binding(artifact: &RpgArtifactFacts) -> (b: RpgReplayArtifactBinding)
    ensures
        binds(b, *artifact),
{
    RpgReplayArtifactBinding {
        artifact_schema: artifact.artifact_schema.clone(),
        artifact_id: artifact.artifact_id.clone(),
        play_bundle: artifact.play_bundle.clone(),
        ruleset: artifact.ruleset.clone(),
        content_packs: crate::movement::copy_texts(&artifact.content_packs),
        dependency_lock: crate::movement::copy_texts(&artifact.dependency_lock),
        fingerprints: RpgArtifactFingerprints {
            source: artifact.fingerprints.source.clone(),
            presentation: artifact.fingerprints.presentation.clone(),
            semantic: artifact.fingerprints.semantic.clone(),
        },
        definitions: copy_definitions(&artifact.definitions),
    }
}

/// The first identity in which a recorded binding and an artifact differ, as
/// (code, path).
pub open spec fn binding_mismatch(e: RpgReplayArtifactBinding, a: RpgArtifactFacts) -> Option<
    (Seq<char>, Seq<char>),
> {
    if e.artifact_schema@ != a.artifact_schema@ {
        Some(("RPG_CHECKPOINT_ARTIFACT_SCHEMA_MISMATCH"@, "$.artifact.artifactSchema"@))
    } else if e.artifact_id@ != a.artifact_id@ {
        Some(("RPG_CHECKPOINT_ARTIFACT_ID_MISMATCH"@, "$.artifact.artifactId"@))
    } else if e.play_bundle@ != a.play_bundle@ {
        Some(("RPG_CHECKPOINT_PLAY_BUNDLE_MISMATCH"@, "$.artifact.playBundle"@))
    } else if e.ruleset@ != a.ruleset@ {
        Some(("RPG_CHECKPOINT_RULESET_MISMATCH"@, "$.artifact.ruleset"@))
    } else if texts(e.content_packs@) != texts(a.content_packs@) {
        Some(("RPG_CHECKPOINT_CONTENT_PACK_MISMATCH"@, "$.artifact.contentPacks"@))
    } else if texts(e.dependency_lock@) != texts(a.dependency_lock@) {
        Some(("RPG_CHECKPOINT_LOCK_MISMATCH"@, "$.artifact.dependencyLock"@))
    } else if e.fingerprints.source@ != a.fingerprints.source@ {
        Some(("RPG_CHECKPOINT_SOURCE_MISMATCH"@, "$.artifact.fingerprints.source"@))
    } else if e.fingerprints.semantic@ != a.fingerprints.semantic@ {
        Some(("RPG_CHECKPOINT_SEMANTIC_MISMATCH"@, "$.artifact.fingerprints.semantic"@))
    } else if e.fingerprints.presentation@ != a.fingerprints.presentation@ {
        Some(("RPG_CHECKPOINT_PRESENTATION_MISMATCH"@, "$.artifact.fingerprints.presentation"@))
    } else if definition_texts(e.definitions@) != definition_texts(a.definitions@) {
        Some(
            (
                "RPG_CHECKPOINT_DEFINITION_FINGERPRINT_MISMATCH"@,
                "$.artifact.materializedDefinitions"@,
            ),
        )
    } else {
        None
    }
}

fn same_definitions(a: &Vec<RpgDefinitionFingerprintBinding>, b: &Vec<RpgDefinitionFingerprintBinding>) -> (r:
    bool)
    ensures
        r == (definition_texts(a@) == definition_texts(b@)),
{
    if a.len() != b.len() {
        assert(definition_texts(a@).len() != definition_texts(b@).len());
        return false;
    }
    let mut j: usize = 0;
    while j < a.len()
        invariant
            a@.len() == b@.len(),
            j <= a@.len(),
            forall|q: int|
                0 <= q < j ==> (#[trigger] a@[q]).id@ == b@[q].id@ && a@[q].fingerprint@
                    == b@[q].fingerprint@,
        decreases a.len() - j,
    {
        if a[j].id != b[j].id || a[j].fingerprint != b[j].fingerprint {
            assert(definition_texts(a@)[j as int] != definition_texts(b@)[j as int]);
            return false;
        }
        j = j + 1;
    }
    assert(definition_texts(a@) =~= definition_texts(b@));
    true
}

/// Checks that an artifact is the one a checkpoint's binding records: fails
/// on the first differing identity, in the order schema, artifact id,
/// PlayBundle, ruleset, content packs, lock, source, semantic and
/// presentation fingerprints, definition fingerprints.
pub fn validate_artifact_binding(expected: &RpgReplayArtifactBinding, artifact: &RpgArtifactFacts) -> (r:
    Result<(), RpgReplayFailure>)
    ensures
        match binding_mismatch(*expected, *artifact) {
            None => r is Ok,
            Some((code, path)) => r matches Err(f) && is_mismatch_failure(f, code, path),
        },
{
    let actual = artifact_binding(artifact);
    if expected.artifact_schema != actual.artifact_schema {
        return Err(
            replay_mismatch(
                "RPG_CHECKPOINT_ARTIFACT_SCHEMA_MISMATCH",
                text("$.artifact.artifactSchema"),
                &expected.artifact_schema,
                &actual.artifact_schema,
            ),
        );
    }
    if expected.artifact_id != actual.artifact_id {
        return Err(
            replay_mismatch(
                "RPG_CHECKPOINT_ARTIFACT_ID_MISMATCH",
                text("$.artifact.artifactId"),
                &expected.artifact_id,
                &actual.artifact_id,
            ),
        );
    }
    if expected.play_bundle != actual.play_bundle {
        return Err(
            replay_mismatch(
                "RPG_CHECKPOINT_PLAY_BUNDLE_MISMATCH",
                text("$.artifact.playBundle"),
                &expected.play_bundle,
                &actual.play_bundle,
            ),
        );
    }
    if expected.ruleset != actual.ruleset {
        return Err(
            replay_mismatch(
                "RPG_CHECKPOINT_RULESET_MISMATCH",
                text("$.artifact.ruleset"),
                &expected.ruleset,
                &actual.ruleset,
            ),
        );
    }
    if !same_texts(&expected.content_packs, &actual.content_packs) {
        return Err(
            replay_mismatch(
                "RPG_CHECKPOINT_CONTENT_PACK_MISMATCH",
                text("$.artifact.contentPacks"),
                &expected.content_packs,
                &actual.content_packs,
            ),
        );
    }
    if !same_texts(&expected.dependency_lock, &actual.dependency_lock) {
        return Err(
            replay_mismatch(
                "RPG_CHECKPOINT_LOCK_MISMATCH",
                text("$.artifact.dependencyLock"),
                &expected.dependency_lock,
                &actual.dependency_lock,
            ),
        );
    }
    if expected.fingerprints.source != actual.fingerprints.source {
        return Err(
            replay_mismatch(
                "RPG_CHECKPOINT_SOURCE_MISMATCH",
                text("$.artifact.fingerprints.source"),
                &expected.fingerprints.source,
                &actual.fingerprints.source,
            ),
        );
    }
    if expected.fingerprints.semantic != actual.fingerprints.semantic {
        return Err(
            replay_mismatch(
                "RPG_CHECKPOINT_SEMANTIC_MISMATCH",
                text("$.artifact.fingerprints.semantic"),
                &expected.fingerprints.semantic,
                &actual.fingerprints.semantic,
            ),
        );
    }
    if expected.fingerprints.presentation != actual.fingerprints.presentation {
        return Err(
            replay_mismatch(
                "RPG_CHECKPOINT_PRESENTATION_MISMATCH",
                text("$.artifact.fingerprints.presentation"),
                &expected.fingerprints.presentation,
                &actual.fingerprints.presentation,
            ),
        );
    }
    if !same_definitions(&expected.definitions, &actual.definitions) {
        return Err(
            replay_mismatch(
                "RPG_CHECKPOINT_DEFINITION_FINGERPRINT_MISMATCH",
                text("$.artifact.materializedDefinitions"),
                &expected.definitions,
                &actual.definitions,
            ),
        );
    }
    Ok(())
}

/// A checkpoint's own binding of an artifact validates against that artifact.
pub proof fn lemma_binding_of_artifact_validates(b: RpgReplayArtifactBinding, a: RpgArtifactFacts)
    requires
        binds(b, a),
    ensures
        binding_mismatch(b, a) is None,
{
}

/// Checks a checkpoint's schema identity.
pub fn validate_checkpoint_schema(schema: &RpgPortableSchemaIdentity) -> (r: Result<
    (),
    RpgReplayFailure,
>)
    ensures
        r is Ok <==> (schema.id@ == RPG_CHECKPOINT_SCHEMA_ID@ && schema.version
            == RPG_CHECKPOINT_SCHEMA_VERSION),
        r matches Err(f) ==> is_mismatch_failure(f, "RPG_CHECKPOINT_SCHEMA_MISMATCH"@, "$.schema"@),
{
    let expected = checkpoint_schema();
    if schema.id != expected.id || schema.version != expected.version {
        return Err(
            replay_mismatch("RPG_CHECKPOINT_SCHEMA_MISMATCH", text("$.schema"), &expected, schema),
        );
    }
    Ok(())
}

/// Checks a replay entry's schema identity; `path` locates the entry.
pub fn validate_replay_entry_schema(schema: &RpgPortableSchemaIdentity, path: &str) -> (r: Result<
    (),
    RpgReplayFailure,
>)
    ensures
        r is Ok <==> (schema.id@ == RPG_REPLAY_ENTRY_SCHEMA_ID@ && schema.version
            == RPG_REPLAY_ENTRY_SCHEMA_VERSION),
        r matches Err(f) ==> is_mismatch_failure(
            f,
            "RPG_REPLAY_ENTRY_SCHEMA_MISMATCH"@,
            path@ + ".schema"@,
        ),
{
    let expected = replay_entry_schema();
    if schema.id != expected.id || schema.version != expected.version {
        return Err(
            replay_mismatch(
                "RPG_REPLAY_ENTRY_SCHEMA_MISMATCH",
                join(path, ".schema"),
                &expected,
                schema,
            ),
        );
    }
    Ok(())
}

/// The checkpoint code for an artifact the compiler refused, chosen by the
/// refused path, then by the compiler's own code.
pub open spec fn artifact_mismatch_code(path: Seq<char>, compiler_code: Seq<char>) -> Seq<char> {
    if has_fragment(path, "contentPacks"@) {
        "RPG_CHECKPOINT_PACKAGE_MISMATCH"@
    } else if has_fragment(path, "dependencyLock"@) {
        "RPG_CHECKPOINT_LOCK_MISMATCH"@
    } else if has_fragment(path, "fingerprints.semantic"@) {
        "RPG_CHECKPOINT_SEMANTIC_MISMATCH"@
    } else if has_fragment(path, "fingerprints.presentation"@) {
        "RPG_CHECKPOINT_PRESENTATION_MISMATCH"@
    } else if has_fragment(path, "fingerprints.source"@) {
        "RPG_CHECKPOINT_SOURCE_MISMATCH"@
    } else if has_fragment(compiler_code, "ARTIFACT_ID"@) {
        "RPG_CHECKPOINT_ARTIFACT_ID_MISMATCH"@
    } else {
        "RPG_CHECKPOINT_ARTIFACT_INVALID"@
    }
}

/// Maps a compiler refusal of a checkpoint's embedded artifact to a
/// checkpoint code.
pub fn checkpoint_artifact_mismatch_code(path: &str, compiler_code: &str) -> (code: &'static str)
    ensures
        code@ == artifact_mismatch_code(path@, compiler_code@),
{
    if contains_fragment(path, "contentPacks") {
        "RPG_CHECKPOINT_PACKAGE_MISMATCH"
    } else if contains_fragment(path, "dependencyLock") {
        "RPG_CHECKPOINT_LOCK_MISMATCH"
    } else if contains_fragment(path, "fingerprints.semantic") {
        "RPG_CHECKPOINT_SEMANTIC_MISMATCH"
    } else if contains_fragment(path, "fingerprints.presentation") {
        "RPG_CHECKPOINT_PRESENTATION_MISMATCH"
    } else if contains_fragment(path, "fingerprints.source") {
        "RPG_CHECKPOINT_SOURCE_MISMATCH"
    } else if contains_fragment(compiler_code, "ARTIFACT_ID") {
        "RPG_CHECKPOINT_ARTIFACT_ID_MISMATCH"
    } else {
        "RPG_CHECKPOINT_ARTIFACT_INVALID"
    }
}

// ---------------------------------------------------------------------------
// Checkpoint restore checks
// ---------------------------------------------------------------------------

/// Checks a checkpoint's recorded fingerprints against those of its
/// canonical scenario and session encodings: the scenario fingerprint first,
/// then the session state hash.
pub fn validate_checkpoint_fingerprints(
    recorded_scenario: &StateFingerprint,
    scenario_encoding: &[u8],
    recorded_state_hash: &StateFingerprint,
    session_encoding: &[u8],
) -> (r: Result<(), RpgReplayFailure>)
    ensures
        ({
            let setup_ok = recorded_scenario.algorithm@ == "fnv1a64.rpg-scenario.v1"@
                && recorded_scenario.value@ == hex_fixed(fnv1a64_spec(scenario_encoding@) as nat, 16);
            let hash_ok = recorded_state_hash.algorithm@ == "fnv1a64.rpg-session.v3"@
                && recorded_state_hash.value@ == hex_fixed(fnv1a64_spec(session_encoding@) as nat, 16);
            &&& !setup_ok ==> (r matches Err(f) && is_mismatch_failure(
                f,
                "RPG_CHECKPOINT_SETUP_FINGERPRINT_MISMATCH"@,
                "$.scenarioFingerprint"@,
            ))
            &&& setup_ok && !hash_ok ==> (r matches Err(f) && is_mismatch_failure(
                f,
                "RPG_CHECKPOINT_STATE_HASH_MISMATCH"@,
                "$.stateHash"@,
            ))
            &&& setup_ok && hash_ok ==> r is Ok
        }),
{
    let actual_setup = scenario_fingerprint(scenario_encoding);
    if !same_fingerprint_exec(recorded_scenario, &actual_setup) {
        return Err(
            replay_mismatch(
                "RPG_CHECKPOINT_SETUP_FINGERPRINT_MISMATCH",
                text("$.scenarioFingerprint"),
                recorded_scenario,
                &actual_setup,
            ),
        );
    }
    let actual_hash = session_state_hash(session_encoding);
    if !same_fingerprint_exec(recorded_state_hash, &actual_hash) {
        return Err(
            replay_mismatch(
                "RPG_CHECKPOINT_STATE_HASH_MISMATCH",
                text("$.stateHash"),
                recorded_state_hash,
                &actual_hash,
            ),
        );
    }
    Ok(())
}

/// A finding about a compiled artifact, as the artifact loader reports it.
#[derive(Debug, Clone)]
pub struct RpgArtifactDiagnostic {
    pub code: String,
    pub path: String,
    pub message: String,
}

/// The refusal of a checkpoint whose embedded artifact does not load: each
/// loader finding keeps its path, takes the checkpoint code its path and
/// code map to, and reads `{code}: {message}`.
pub fn artifact_load_failure(findings: &Vec<RpgArtifactDiagnostic>) -> (f: RpgReplayFailure)
    ensures
        f.diagnostics@.len() == findings@.len(),
        without_values(f.diagnostics@),
        forall|i: int|
            0 <= i < findings@.len() ==> {
                let d = #[trigger] f.diagnostics@[i];
                let x = findings@[i];
                &&& d.code@ == artifact_mismatch_code(x.path@, x.code@)
                &&& d.path@ == x.path@
                &&& d.message@ == x.code@ + ": "@ + x.message@
            },
{
    let mut out: Vec<RpgReplayDiagnostic> = Vec::new();
    let mut i: usize = 0;
    while i < findings.len()
        invariant
            i <= findings@.len(),
            out@.len() == i,
            without_values(out@),
            forall|k: int|
                0 <= k < i ==> {
                    let d = #[trigger] out@[k];
                    let x = findings@[k];
                    &&& d.code@ == artifact_mismatch_code(x.path@, x.code@)
                    &&& d.path@ == x.path@
                    &&& d.message@ == x.code@ + ": "@ + x.message@
                },
        decreases findings.len() - i,
    {
        let x = &findings[i];
        let code = checkpoint_artifact_mismatch_code(x.path.as_str(), x.code.as_str());
        let head = join(x.code.as_str(), ": ");
        let d = RpgReplayDiagnostic {
            code: text(code),
            path: x.path.clone(),
            message: join(head.as_str(), x.message.as_str()),
            expected: None,
            actual: None,
        };
        let ghost before = out@;
        out.push(d);
        proof {
            assert forall|k: int| 0 <= k < out@.len() implies (#[trigger] out@[k]).expected is None
                && out@[k].actual is None by {
                if k < before.len() {
                    assert(out@[k] == before[k]);
                }
            }
            assert forall|k: int| 0 <= k < i + 1 implies {
                let d = #[trigger] out@[k];
                let x = findings@[k];
                &&& d.code@ == artifact_mismatch_code(x.path@, x.code@)
                &&& d.path@ == x.path@
                &&& d.message@ == x.code@ + ": "@ + x.message@
            } by {
                if k < i {
                    assert(out@[k] == before[k]);
                }
            }
        }
        i = i + 1;
    }
    RpgReplayFailure { diagnostics: out }
}

/// The refusal of a checkpoint whose findings (from restoring its state or
/// its encounter) are reported as they are, with `relabel` set: as
/// `RPG_CHECKPOINT_SETUP_INVALID` findings reading `{code}: {message}`, for
/// a scenario that no longer sets up; otherwise unchanged.
pub fn checkpoint_findings_failure(findings: &Vec<RpgScenarioDiagnostic>, relabel: bool) -> (f:
    RpgReplayFailure)
    ensures
        f.diagnostics@.len() == findings@.len(),
        without_values(f.diagnostics@),
        forall|i: int|
            0 <= i < findings@.len() ==> {
                let d = #[trigger] f.diagnostics@[i];
                let x = findings@[i];
                &&& d.path@ == x.path@
                &&& if relabel {
                    d.code@ == "RPG_CHECKPOINT_SETUP_INVALID"@ && d.message@ == x.code@ + ": "@
                        + x.message@
                } else {
                    d.code@ == x.code@ && d.message@ == x.message@
                }
            },
{
    let mut out: Vec<RpgReplayDiagnostic> = Vec::new();
    let mut i: usize = 0;
    while i < findings.len()
        invariant
            i <= findings@.len(),
            out@.len() == i,
            without_values(out@),
            forall|k: int|
                0 <= k < i ==> {
                    let d = #[trigger] out@[k];
                    let x = findings@[k];
                    &&& d.path@ == x.path@
                    &&& if relabel {
                        d.code@ == "RPG_CHECKPOINT_SETUP_INVALID"@ && d.message@ == x.code@ + ": "@
                            + x.message@
                    } else {
                        d.code@ == x.code@ && d.message@ == x.message@
                    }
                },
        decreases findings.len() - i,
    {
        let x = &findings[i];
        let d = if relabel {
            let head = join(x.code.as_str(), ": ");
            RpgReplayDiagnostic {
                code: text("RPG_CHECKPOINT_SETUP_INVALID"),
                path: x.path.clone(),
                message: join(head.as_str(), x.message.as_str()),
                expected: None,
                actual: None,
            }
        } else {
            RpgReplayDiagnostic {
                code: x.code.clone(),
                path: x.path.clone(),
                message: x.message.clone(),
                expected: None,
                actual: None,
            }
        };
        let ghost before = out@;
        out.push(d);
        proof {
            assert forall|k: int| 0 <= k < out@.len() implies (#[trigger] out@[k]).expected is None
                && out@[k].actual is None by {
                if k < before.len() {
                    assert(out@[k] == before[k]);
                }
            }
            assert forall|k: int| 0 <= k < i + 1 implies {
                let d = #[trigger] out@[k];
                let x = findings@[k];
                &&& d.path@ == x.path@
                &&& if relabel {
                    d.code@ == "RPG_CHECKPOINT_SETUP_INVALID"@ && d.message@ == x.code@ + ": "@
                        + x.message@
                } else {
                    d.code@ == x.code@ && d.message@ == x.message@
                }
            } by {
                if k < i {
                    assert(out@[k] == before[k]);
                }
            }
        }
        i = i + 1;
    }
    RpgReplayFailure { diagnostics: out }
}

} // verus!
