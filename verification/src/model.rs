use vstd::prelude::*;

use crate::board::GridPosition;
use vstd::string::StringExecFns;

verus! {

/// The index of the last element satisfying `f`, or -1 (what a map
/// collected from a sequence keeps for a repeated key).
pub open spec fn last_index_where<T>(s: Seq<T>, f: spec_fn(T) -> bool) -> int
    decreases s.len(),
{
    if s.len() == 0 {
        -1
    } else if f(s.last()) {
        s.len() - 1
    } else {
        last_index_where(s.drop_last(), f)
    }
}

pub proof fn lemma_last_index_where<T>(s: Seq<T>, f: spec_fn(T) -> bool)
    ensures
        ({
            let i = last_index_where(s, f);
            ||| (i == -1 && forall|j: int| 0 <= j < s.len() ==> !f(#[trigger] s[j]))
            ||| (0 <= i < s.len() && f(s[i]) && forall|j: int| i < j < s.len() ==> !f(#[trigger] s[j]))
        }),
    decreases s.len(),
{
    if s.len() > 0 {
        lemma_last_index_where(s.drop_last(), f);
        assert forall|j: int| 0 <= j < s.len() - 1 implies s[j] == s.drop_last()[j] by {}
    }
}

/// `last_index_where` is fixed by its characterisation.
pub proof fn lemma_last_index_is<T>(s: Seq<T>, f: spec_fn(T) -> bool, i: int)
    requires
        (i == -1 && forall|j: int| 0 <= j < s.len() ==> !f(#[trigger] s[j])) || (0 <= i < s.len()
            && f(s[i]) && forall|j: int| i < j < s.len() ==> !f(#[trigger] s[j])),
    ensures
        last_index_where(s, f) == i,
{
    lemma_last_index_where(s, f);
    let k = last_index_where(s, f);
    if k != i {
        if k == -1 {
            assert(f(s[i]));
        } else if i == -1 {
            assert(f(s[k]));
        } else if k < i {
            assert(f(s[i]));
        } else {
            assert(f(s[k]));
        }
    }
}

/// The index of the first element satisfying `f`, or -1.
pub open spec fn first_index_where<T>(s: Seq<T>, f: spec_fn(T) -> bool) -> int
    decreases s.len(),
{
    if s.len() == 0 {
        -1
    } else if f(s[0]) {
        0
    } else {
        let rest = first_index_where(s.drop_first(), f);
        if rest < 0 {
            -1
        } else {
            rest + 1
        }
    }
}

pub proof fn lemma_first_index_where<T>(s: Seq<T>, f: spec_fn(T) -> bool)
    ensures
        ({
            let i = first_index_where(s, f);
            ||| (i == -1 && forall|j: int| 0 <= j < s.len() ==> !f(#[trigger] s[j]))
            ||| (0 <= i < s.len() && f(s[i]) && forall|j: int| 0 <= j < i ==> !f(#[trigger] s[j]))
        }),
    decreases s.len(),
{
    if s.len() > 0 && !f(s[0]) {
        lemma_first_index_where(s.drop_first(), f);
        assert forall|j: int| 1 <= j < s.len() implies s[j] == s.drop_first()[j - 1] by {}
    }
}

/// `first_index_where` is fixed by its characterisation.
pub proof fn lemma_first_index_is<T>(s: Seq<T>, f: spec_fn(T) -> bool, i: int)
    requires
        (i == -1 && forall|j: int| 0 <= j < s.len() ==> !f(#[trigger] s[j])) || (0 <= i < s.len()
            && f(s[i]) && forall|j: int| 0 <= j < i ==> !f(#[trigger] s[j])),
    ensures
        first_index_where(s, f) == i,
{
    lemma_first_index_where(s, f);
    let k = first_index_where(s, f);
    if k != i {
        if k == -1 {
            assert(f(s[i]));
        } else if i == -1 {
            assert(f(s[k]));
        } else if k < i {
            assert(f(s[k]));
        } else {
            assert(f(s[i]));
        }
    }
}

/// A bounded capability value such as vitality: `0 <= current <= max` when valid.
#[derive(Debug, Clone, Copy, PartialEq, Eq, Structural)]
pub struct BoundedValue {
    pub current: i32,
    pub max: i32,
}

/// A named integer value, such as the remaining amount of an activation budget.
#[derive(Debug, Clone)]
pub struct RpgPortableNamedInteger {
    pub id: String,
    pub value: i32,
}

/// A named integer of a participant as a view shows it, such as a stat or a
/// defense.
#[derive(Debug, Clone)]
pub struct RpgNamedIntegerView {
    pub id: String,
    pub value: i32,
}

/// A modifier active on a participant as a view shows it: its stacking
/// group, identity, value and the turns it has left.
#[derive(Debug, Clone)]
pub struct RpgModifierView {
    pub stacking_group: String,
    pub id: String,
    pub value: i32,
    pub remaining_turns: u32,
}

/// A modifier active on an entity as a portable state records it.
#[derive(Debug, Clone)]
pub struct RpgPortableModifier {
    pub stacking_group: String,
    pub id: String,
    pub value: i32,
    pub remaining_turns: u32,
}

/// The capability facts of one participant that board, turn, targeting and
/// restore rules read: identity, team, position, vitality, character
/// selection, activation budgets and active effects.
#[derive(Debug, Clone)]
pub struct RpgEntityState {
    pub id: String,
    pub team_id: String,
    pub position: GridPosition,
    pub vitality: BoundedValue,
    pub class_definition_id: Option<String>,
    pub character_feature_ids: Vec<String>,
    pub activation_budgets: Vec<RpgPortableNamedInteger>,
    pub effects: Vec<RpgActiveEffectFacts>,
}

/// An active effect on an entity, as end-of-turn saves read it.
#[derive(Debug, Clone)]
pub struct RpgActiveEffectFacts {
    pub instance_id: String,
    pub definition_id: String,
    pub definition_version: u32,
    pub source_entity_id: String,
    /// The effect lasts until its target saves at the end of its turn.
    pub ends_on_turn_end_save: bool,
}

/// The capability state of an encounter as the authority rules read it:
/// its revision, how many activations this turn accepted, and the entities
/// in the state's own order.
#[derive(Debug, Clone)]
pub struct RpgCapabilityFacts {
    pub revision: u64,
    pub accepted_activations_this_turn: u32,
    pub entities: Vec<RpgEntityState>,
}

/// The index of the first entity with an identity, or -1.
pub open spec fn entity_index(entities: Seq<RpgEntityState>, id: Seq<char>) -> int
    decreases entities.len(),
{
    if entities.len() == 0 {
        -1
    } else if entities[0].id@ == id {
        0
    } else {
        let rest = entity_index(entities.drop_first(), id);
        if rest < 0 {
            -1
        } else {
            rest + 1
        }
    }
}

pub proof fn lemma_entity_index(entities: Seq<RpgEntityState>, id: Seq<char>)
    ensures
        ({
            let i = entity_index(entities, id);
            ||| (i == -1 && forall|j: int| 0 <= j < entities.len() ==> (#[trigger] entities[j]).id@
                != id)
            ||| (0 <= i < entities.len() && entities[i].id@ == id && forall|j: int|
                0 <= j < i ==> (#[trigger] entities[j]).id@ != id)
        }),
    decreases entities.len(),
{
    if entities.len() > 0 && entities[0].id@ != id {
        lemma_entity_index(entities.drop_first(), id);
        assert forall|j: int| 1 <= j < entities.len() implies entities[j] == entities.drop_first()[j
            - 1] by {}
    }
}

/// Finds the entity with an identity.
pub fn find_entity(entities: &Vec<RpgEntityState>, id: &String) -> (r: Option<usize>)
    ensures
        match r {
            Some(i) => i as int == entity_index(entities@, id@) && i < entities@.len()
                && entities@[i as int].id@ == id@,
            None => entity_index(entities@, id@) == -1,
        },
{
    proof {
        lemma_entity_index(entities@, id@);
    }
    let mut i: usize = 0;
    while i < entities.len()
        invariant
            i <= entities@.len(),
            forall|j: int| 0 <= j < i ==> (#[trigger] entities@[j]).id@ != id@,
        decreases entities.len() - i,
    {
        if entities[i].id == *id {
            proof {
                lemma_entity_index(entities@, id@);
                let k = entity_index(entities@, id@);
                if k != i {
                    assert(entities@[i as int].id@ == id@);
                    if k > i {
                        assert(entities@[i as int].id@ != id@);
                    }
                }
            }
            return Some(i);
        }
        i = i + 1;
    }
    None
}

/// The identity of the single turn control that ends the current actor's turn.
pub const RPG_END_TURN_CONTROL_ID: &'static str = "control.end-turn";

/// A typed, authority-owned turn control.
#[derive(Debug, Clone, Copy, PartialEq, Eq, Structural)]
pub enum RpgTurnControl {
    EndTurn,
}

impl RpgTurnControl {
    /// The portable identifier recorded in the encounter log for this control.
    pub fn id(&self) -> (id: &'static str)
        ensures
            id@ == RPG_END_TURN_CONTROL_ID@,
    {
        match self {
            RpgTurnControl::EndTurn => RPG_END_TURN_CONTROL_ID,
        }
    }
}

/// Why the authority refuses a command or a resolved state: a stable code,
/// the JSON path it concerns and a message.
#[derive(Debug, Clone)]
pub struct RpgResolutionRejection {
    pub code: String,
    pub path: String,
    pub message: String,
}

pub open spec fn rejection_text(r: RpgResolutionRejection) -> (Seq<char>, Seq<char>, Seq<char>) {
    (r.code@, r.path@, r.message@)
}

/// Builds a rejection.
pub fn resolution_rejection(code: &str, path: String, message: String) -> (r: RpgResolutionRejection)
    ensures
        rejection_text(r) == (code@, path@, message@),
{
    RpgResolutionRejection { code: String::from_str(code), path, message }
}

/// A field-by-field copy of a rejection.
pub fn copy_rejection(r: &RpgResolutionRejection) -> (c: RpgResolutionRejection)
    ensures
        rejection_text(c) == rejection_text(*r),
{
    RpgResolutionRejection { code: r.code.clone(), path: r.path.clone(), message: r.message.clone() }
}

} // verus!
