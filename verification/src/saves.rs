use vstd::prelude::*;

use crate::model::{
    entity_index, find_entity, first_index_where, last_index_where, lemma_first_index_is,
    lemma_last_index_is, rejection_text, resolution_rejection, RpgActiveEffectFacts,
    RpgEntityState, RpgResolutionRejection, RpgTurnControl,
};
use crate::random::{copy_request, same_request, RpgRandomRequest, RpgRandomRequestKind};
use crate::session::{refusal, unused_random_refusal, unused_random_rejection, RejectionText, RpgTurnControlCommand};
use crate::text::{decimal, indexed, indexed_path, join, join3, lemma_text_order, push_decimal, text, text_before, text_lt};

verus! {

/// A save-ends effect the actor rolls against when ending its turn.
#[derive(Debug, Clone)]
pub struct RpgEffectSaveCandidate {
    pub target_id: String,
    pub instance_id: String,
    pub definition_id: String,
    pub definition_version: u32,
    pub source_entity_id: String,
    pub request: RpgRandomRequest,
}

/// An end of turn waiting for its save evidence.
#[derive(Debug, Clone)]
pub struct RpgPendingTurnSave {
    pub expected_revision: u64,
    pub actor_id: String,
    pub control: RpgTurnControl,
    pub candidates: Vec<RpgEffectSaveCandidate>,
}

/// A compiled effect definition, as end-of-turn saves read it.
#[derive(Debug, Clone)]
pub struct RpgEffectDefinitionFacts {
    pub definition_id: String,
    pub definition_version: u32,
    /// The definition's tenure ends on a save at the end of the target's turn.
    pub save_ends: bool,
}

/// The most save-ends effects one end of turn resolves.
pub const MAXIMUM_TURN_SAVES: usize = 32;

/// The difficulty every end-of-turn save is rolled against.
pub const TURN_SAVE_DIFFICULTY: u32 = 10;

pub type SaveKey = (Seq<char>, Seq<char>, Seq<char>);

/// Candidates are ordered by definition, then source, then instance.
pub open spec fn save_key(e: RpgActiveEffectFacts) -> SaveKey {
    (e.definition_id@, e.source_entity_id@, e.instance_id@)
}

pub open spec fn key_before(a: SaveKey, b: SaveKey) -> bool {
    ||| text_before(a.0, b.0)
    ||| (a.0 == b.0 && text_before(a.1, b.1))
    ||| (a.0 == b.0 && a.1 == b.1 && text_before(a.2, b.2))
}

pub proof fn lemma_key_order(a: SaveKey, b: SaveKey, c: SaveKey)
    ensures
        key_before(a, b) && key_before(b, c) ==> key_before(a, c),
        !(key_before(a, b) && key_before(b, a)),
        a != b ==> key_before(a, b) || key_before(b, a),
{
    lemma_text_order(a.0, b.0, c.0);
    lemma_text_order(a.1, b.1, c.1);
    lemma_text_order(a.2, b.2, c.2);
    lemma_text_order(b.0, a.0, c.0);
    lemma_text_order(b.1, a.1, c.1);
    lemma_text_order(b.2, a.2, c.2);
    lemma_text_order(a.0, a.0, a.0);
    lemma_text_order(a.1, a.1, a.1);
    lemma_text_order(a.2, a.2, a.2);
    if a != b {
        if a.0 == b.0 && a.1 == b.1 {
            assert(a.2 != b.2);
        }
    }
}

fn key_lt(a: &RpgActiveEffectFacts, b: &RpgActiveEffectFacts) -> (r: bool)
    ensures
        r == key_before(save_key(*a), save_key(*b)),
{
    if text_lt(a.definition_id.as_str(), b.definition_id.as_str()) {
        return true;
    }
    if a.definition_id != b.definition_id {
        return false;
    }
    if text_lt(a.source_entity_id.as_str(), b.source_entity_id.as_str()) {
        return true;
    }
    if a.source_entity_id != b.source_entity_id {
        return false;
    }
    text_lt(a.instance_id.as_str(), b.instance_id.as_str())
}

/// No two active effects of an entity share an instance identity.
pub open spec fn instances_distinct(effects: Seq<RpgActiveEffectFacts>) -> bool {
    forall|i: int, j: int|
        0 <= i < effects.len() && 0 <= j < effects.len() && i != j ==> (#[trigger] effects[i]).instance_id@
            != (#[trigger] effects[j]).instance_id@
}

/// `s` lists the save-ends effects, each once, in increasing key order.
pub open spec fn lists_saves(effects: Seq<RpgActiveEffectFacts>, s: Seq<int>) -> bool {
    &&& forall|k: int|
        0 <= k < s.len() ==> 0 <= #[trigger] s[k] < effects.len()
            && effects[s[k]].ends_on_turn_end_save
    &&& forall|j: int|
        0 <= j < effects.len() && (#[trigger] effects[j]).ends_on_turn_end_save ==> s.contains(j)
    &&& forall|a: int, b: int|
        0 <= a < b < s.len() ==> key_before(
            save_key(effects[#[trigger] s[a]]),
            save_key(effects[#[trigger] s[b]]),
        )
}

/// The save-ends effects in increasing (definition, source, instance) order.
pub open spec fn save_order(effects: Seq<RpgActiveEffectFacts>) -> Seq<int> {
    choose|s: Seq<int>| lists_saves(effects, s)
}

proof fn lemma_saves_unique(effects: Seq<RpgActiveEffectFacts>, s1: Seq<int>, s2: Seq<int>)
    requires
        forall|k: int| 0 <= k < s1.len() ==> 0 <= #[trigger] s1[k] < effects.len(),
        forall|k: int| 0 <= k < s2.len() ==> 0 <= #[trigger] s2[k] < effects.len(),
        forall|x: int| s1.contains(x) <==> s2.contains(x),
        forall|a: int, b: int|
            0 <= a < b < s1.len() ==> key_before(
                save_key(effects[#[trigger] s1[a]]),
                save_key(effects[#[trigger] s1[b]]),
            ),
        forall|a: int, b: int|
            0 <= a < b < s2.len() ==> key_before(
                save_key(effects[#[trigger] s2[a]]),
                save_key(effects[#[trigger] s2[b]]),
            ),
    ensures
        s1 == s2,
    decreases s1.len(),
{
    if s1.len() == 0 {
        if s2.len() > 0 {
            assert(s2.contains(s2[0]));
        }
        assert(s1 =~= s2);
    } else {
        assert(s1.contains(s1[0]));
        assert(s2.contains(s1[0]));
        assert(s2.contains(s2[0]));
        assert(s1.contains(s2[0]));
        let m = choose|m: int| 0 <= m < s2.len() && s2[m] == s1[0];
        let k = choose|k: int| 0 <= k < s1.len() && s1[k] == s2[0];
        if s1[0] != s2[0] {
            assert(key_before(save_key(effects[s2[0]]), save_key(effects[s2[m]])));
            assert(key_before(save_key(effects[s1[0]]), save_key(effects[s1[k]])));
            lemma_key_order(save_key(effects[s1[0]]), save_key(effects[s2[0]]), save_key(effects[s1[0]]));
            assert(false);
        }
        let t1 = s1.drop_first();
        let t2 = s2.drop_first();
        assert forall|x: int| t1.contains(x) implies t2.contains(x) by {
            let i = choose|i: int| 0 <= i < t1.len() && t1[i] == x;
            assert(s1[i + 1] == x);
            assert(s2.contains(x));
            let j = choose|j: int| 0 <= j < s2.len() && s2[j] == x;
            if j == 0 {
                lemma_key_order(save_key(effects[x]), save_key(effects[x]), save_key(effects[x]));
                assert(key_before(save_key(effects[s1[0]]), save_key(effects[s1[i + 1]])));
            }
            assert(t2[j - 1] == x);
        }
        assert forall|x: int| t2.contains(x) implies t1.contains(x) by {
            let i = choose|i: int| 0 <= i < t2.len() && t2[i] == x;
            assert(s2[i + 1] == x);
            assert(s1.contains(x));
            let j = choose|j: int| 0 <= j < s1.len() && s1[j] == x;
            if j == 0 {
                lemma_key_order(save_key(effects[x]), save_key(effects[x]), save_key(effects[x]));
                assert(key_before(save_key(effects[s2[0]]), save_key(effects[s2[i + 1]])));
            }
            assert(t1[j - 1] == x);
        }
        assert forall|a: int, b: int| 0 <= a < b < t1.len() implies key_before(
            save_key(effects[#[trigger] t1[a]]),
            save_key(effects[#[trigger] t1[b]]),
        ) by {
            assert(t1[a] == s1[a + 1] && t1[b] == s1[b + 1]);
        }
        assert forall|a: int, b: int| 0 <= a < b < t2.len() implies key_before(
            save_key(effects[#[trigger] t2[a]]),
            save_key(effects[#[trigger] t2[b]]),
        ) by {
            assert(t2[a] == s2[a + 1] && t2[b] == s2[b + 1]);
        }
        lemma_saves_unique(effects, t1, t2);
        assert(s1 =~= seq![s1[0]] + t1);
        assert(s2 =~= seq![s2[0]] + t2);
    }
}

/// The save-ends effects in increasing (definition, source, instance) order.
pub fn sorted_saves(effects: &Vec<RpgActiveEffectFacts>) -> (r: Vec<usize>)
    requires
        instances_distinct(effects@),
    ensures
        r@.map_values(|i: usize| i as int) == save_order(effects@),
        lists_saves(effects@, save_order(effects@)),
{
    let mut out: Vec<usize> = Vec::new();
    let mut i: usize = 0;
    while i < effects.len()
        invariant
            instances_distinct(effects@),
            i <= effects@.len(),
            forall|k: int|
                0 <= k < out@.len() ==> (#[trigger] out@[k]) < i
                    && effects@[out@[k] as int].ends_on_turn_end_save,
            forall|j: int|
                0 <= j < i && (#[trigger] effects@[j]).ends_on_turn_end_save ==> out@.contains(
                    j as usize,
                ),
            forall|a: int, b: int|
                0 <= a < b < out@.len() ==> key_before(
                    save_key(effects@[#[trigger] out@[a] as int]),
                    save_key(effects@[#[trigger] out@[b] as int]),
                ),
        decreases effects.len() - i,
    {
        if effects[i].ends_on_turn_end_save {
            let mut k: usize = 0;
            while k < out.len() && !key_lt(&effects[i], &effects[out[k]])
                invariant
                    instances_distinct(effects@),
                    i < effects@.len(),
                    k <= out@.len(),
                    forall|q: int| 0 <= q < out@.len() ==> (#[trigger] out@[q]) < i,
                    forall|q: int|
                        0 <= q < k ==> !key_before(
                            save_key(effects@[i as int]),
                            save_key(effects@[#[trigger] out@[q] as int]),
                        ),
                decreases out.len() - k,
            {
                k = k + 1;
            }
            let ghost before = out@;
            proof {
                assert forall|q: int| 0 <= q < k implies key_before(
                    save_key(effects@[#[trigger] before[q] as int]),
                    save_key(effects@[i as int]),
                ) by {
                    assert(before[q] < i);
                    assert(effects@[before[q] as int].instance_id@ != effects@[i as int].instance_id@);
                    lemma_key_order(
                        save_key(effects@[before[q] as int]),
                        save_key(effects@[i as int]),
                        save_key(effects@[i as int]),
                    );
                }
                assert forall|q: int| k <= q < before.len() implies key_before(
                    save_key(effects@[i as int]),
                    save_key(effects@[#[trigger] before[q] as int]),
                ) by {
                    if q > k {
                        assert(key_before(
                            save_key(effects@[before[k as int] as int]),
                            save_key(effects@[before[q] as int]),
                        ));
                        lemma_key_order(
                            save_key(effects@[i as int]),
                            save_key(effects@[before[k as int] as int]),
                            save_key(effects@[before[q] as int]),
                        );
                    }
                }
            }
            out.insert(k, i);
            proof {
                assert(out@ == before.insert(k as int, i));
                assert forall|a: int, b: int| 0 <= a < b < out@.len() implies key_before(
                    save_key(effects@[#[trigger] out@[a] as int]),
                    save_key(effects@[#[trigger] out@[b] as int]),
                ) by {
                    if b < k {
                        assert(out@[a] == before[a] && out@[b] == before[b]);
                    } else if b == k {
                        assert(out@[a] == before[a]);
                    } else if a < k {
                        assert(out@[a] == before[a] && out@[b] == before[b - 1]);
                        lemma_key_order(
                            save_key(effects@[before[a] as int]),
                            save_key(effects@[i as int]),
                            save_key(effects@[before[b - 1] as int]),
                        );
                    } else if a == k {
                        assert(out@[b] == before[b - 1]);
                    } else {
                        assert(out@[a] == before[a - 1] && out@[b] == before[b - 1]);
                    }
                }
                assert forall|j: int|
                    0 <= j < i + 1 && (#[trigger] effects@[j]).ends_on_turn_end_save implies out@.contains(
                    j as usize,
                ) by {
                    if j < i {
                        let m = choose|m: int| 0 <= m < before.len() && before[m] == j as usize;
                        if m < k {
                            assert(out@[m] == before[m]);
                        } else {
                            assert(out@[m + 1] == before[m]);
                        }
                    } else {
                        assert(out@[k as int] == i);
                    }
                }
                assert forall|q: int| 0 <= q < out@.len() implies (#[trigger] out@[q]) < i + 1
                    && effects@[out@[q] as int].ends_on_turn_end_save by {
                    if q < k {
                        assert(out@[q] == before[q]);
                    } else if q > k {
                        assert(out@[q] == before[q - 1]);
                    }
                }
            }
        }
        i = i + 1;
    }
    let ghost s = out@.map_values(|i: usize| i as int);
    proof {
        assert(lists_saves(effects@, s)) by {
            assert forall|j: int|
                0 <= j < effects@.len() && (#[trigger] effects@[j]).ends_on_turn_end_save implies s.contains(
                j,
            ) by {
                let m = choose|m: int| 0 <= m < out@.len() && out@[m] == j as usize;
                assert(s[m] == j);
            }
            assert forall|a: int, b: int| 0 <= a < b < s.len() implies key_before(
                save_key(effects@[#[trigger] s[a]]),
                save_key(effects@[#[trigger] s[b]]),
            ) by {
                assert(s[a] == out@[a] as int && s[b] == out@[b] as int);
            }
        }
        let c = save_order(effects@);
        assert(lists_saves(effects@, c));
        assert forall|x: int| s.contains(x) <==> c.contains(x) by {
            if s.contains(x) {
                let m = choose|m: int| 0 <= m < s.len() && s[m] == x;
                assert(effects@[x].ends_on_turn_end_save);
            }
            if c.contains(x) {
                let m = choose|m: int| 0 <= m < c.len() && c[m] == x;
                assert(effects@[x].ends_on_turn_end_save);
            }
        }
        lemma_saves_unique(effects@, s, c);
    }
    out
}

pub open spec fn definition_named(id: Seq<char>) -> spec_fn(RpgEffectDefinitionFacts) -> bool {
    |d: RpgEffectDefinitionFacts| d.definition_id@ == id
}

/// What is wrong with a save-ends effect whose definition is unknown, or
/// whose version or tenure no longer matches it (the last definition
/// record with its identity counts).
pub open spec fn effect_problem(defs: Seq<RpgEffectDefinitionFacts>, e: RpgActiveEffectFacts) -> Option<
    RejectionText,
> {
    let d = last_index_where(defs, definition_named(e.definition_id@));
    if !e.ends_on_turn_end_save {
        None
    } else if d < 0 {
        Some(
            refusal(
                "RPG_RUNTIME_EFFECT_DEFINITION_UNKNOWN"@,
                "$.control.saves"@,
                "active effect "@ + e.instance_id@ + " references unavailable definition "@
                    + e.definition_id@,
            ),
        )
    } else if defs[d].definition_version != e.definition_version || !defs[d].save_ends {
        Some(
            refusal(
                "RPG_RUNTIME_EFFECT_TENURE_MISMATCH"@,
                "$.control.saves"@,
                "active effect "@ + e.instance_id@ + " does not match the compiled save-ends tenure"@,
            ),
        )
    } else {
        None
    }
}

pub open spec fn has_problem(defs: Seq<RpgEffectDefinitionFacts>) -> spec_fn(RpgActiveEffectFacts) -> bool {
    |e: RpgActiveEffectFacts| effect_problem(defs, e) is Some
}

/// Why the actor's end-of-turn save candidates cannot be formed: an unknown
/// actor, the first save-ends effect (in the actor's order) with a problem,
/// or more save-ends effects than one end of turn resolves.
pub open spec fn candidates_refusal(
    entities: Seq<RpgEntityState>,
    actor_id: Seq<char>,
    defs: Seq<RpgEffectDefinitionFacts>,
) -> Option<RejectionText> {
    let a = entity_index(entities, actor_id);
    if a < 0 {
        Some(
            refusal(
                "RPG_TURN_ACTOR_UNKNOWN"@,
                "$.control.actorId"@,
                "turn actor "@ + actor_id + " is unavailable"@,
            ),
        )
    } else {
        let effects = entities[a].effects@;
        let k = first_index_where(effects, has_problem(defs));
        if k >= 0 {
            effect_problem(defs, effects[k])
        } else if save_order(effects).len() > MAXIMUM_TURN_SAVES {
            Some(
                refusal(
                    "RPG_EFFECT_SAVE_CANDIDATE_LIMIT_EXCEEDED"@,
                    "$.control.saves"@,
                    "one end-turn transition may resolve at most 32 save-ends effects"@,
                ),
            )
        } else {
            None
        }
    }
}

/// `c` is the save candidate of effect `e` of `actor_id` at position `k`:
/// one d20 roll at `$.control.saves[k].roll`.
pub open spec fn is_candidate_for(
    c: RpgEffectSaveCandidate,
    actor_id: Seq<char>,
    e: RpgActiveEffectFacts,
    k: int,
) -> bool {
    &&& c.target_id@ == actor_id
    &&& c.instance_id@ == e.instance_id@
    &&& c.definition_id@ == e.definition_id@
    &&& c.definition_version == e.definition_version
    &&& c.source_entity_id@ == e.source_entity_id@
    &&& c.request.kind == RpgRandomRequestKind::EffectSave
    &&& c.request.count == 1
    &&& c.request.sides == 20
    &&& c.request.path@ == indexed("$.control.saves"@, k as nat, ".roll"@)
    &&& c.request.heterogeneous_terms@.len() == 0
}

fn last_definition(defs: &Vec<RpgEffectDefinitionFacts>, id: &String) -> (r: Option<usize>)
    ensures
        match r {
            Some(d) => d < defs@.len() && d as int == last_index_where(defs@, definition_named(id@)),
            None => last_index_where(defs@, definition_named(id@)) == -1,
        },
{
    let mut d = defs.len();
    while d > 0
        invariant
            d <= defs@.len(),
            forall|q: int| d <= q < defs@.len() ==> !definition_named(id@)(#[trigger] defs@[q]),
        decreases d,
    {
        if defs[d - 1].definition_id == *id {
            proof {
                lemma_last_index_is(defs@, definition_named(id@), d - 1);
            }
            return Some(d - 1);
        }
        d = d - 1;
    }
    proof {
        lemma_last_index_is(defs@, definition_named(id@), -1);
    }
    None
}

fn effect_problem_exec(defs: &Vec<RpgEffectDefinitionFacts>, e: &RpgActiveEffectFacts) -> (r: Option<
    RpgResolutionRejection,
>)
    ensures
        match r {
            None => effect_problem(defs@, *e) is None,
            Some(x) => effect_problem(defs@, *e) == Some(rejection_text(x)),
        },
{
    if !e.ends_on_turn_end_save {
        return None;
    }
    match last_definition(defs, &e.definition_id) {
        None => {
            let head = join3("active effect ", e.instance_id.as_str(), " references unavailable definition ");
            Some(
                resolution_rejection(
                    "RPG_RUNTIME_EFFECT_DEFINITION_UNKNOWN",
                    text("$.control.saves"),
                    join(head.as_str(), e.definition_id.as_str()),
                ),
            )
        },
        Some(d) => {
            if defs[d].definition_version != e.definition_version || !defs[d].save_ends {
                Some(
                    resolution_rejection(
                        "RPG_RUNTIME_EFFECT_TENURE_MISMATCH",
                        text("$.control.saves"),
                        join3(
                            "active effect ",
                            e.instance_id.as_str(),
                            " does not match the compiled save-ends tenure",
                        ),
                    ),
                )
            } else {
                None
            }
        },
    }
}

/// The end-of-turn save candidates of `actor_id`: one d20 save per
/// save-ends effect, ordered by definition, source and instance, each
/// request at its position's path; or why they cannot be formed.
pub fn turn_save_candidates_for(
    entities: &Vec<RpgEntityState>,
    actor_id: &String,
    defs: &Vec<RpgEffectDefinitionFacts>,
) -> (r: Result<Vec<RpgEffectSaveCandidate>, RpgResolutionRejection>)
    requires
        forall|i: int| 0 <= i < entities@.len() ==> instances_distinct(#[trigger] entities@[i].effects@),
    ensures
        match r {
            Err(x) => candidates_refusal(entities@, actor_id@, defs@) == Some(rejection_text(x)),
            Ok(cs) => {
                let a = entity_index(entities@, actor_id@);
                let effects = entities@[a].effects@;
                let order = save_order(effects);
                &&& candidates_refusal(entities@, actor_id@, defs@) is None
                &&& cs@.len() == order.len()
                &&& forall|k: int|
                    0 <= k < cs@.len() ==> is_candidate_for(
                        #[trigger] cs@[k],
                        actor_id@,
                        effects[order[k]],
                        k,
                    )
            },
        },
{
    let a = match find_entity(entities, actor_id) {
        None => {
            return Err(
                resolution_rejection(
                    "RPG_TURN_ACTOR_UNKNOWN",
                    text("$.control.actorId"),
                    join3("turn actor ", actor_id.as_str(), " is unavailable"),
                ),
            );
        },
        Some(a) => a,
    };
    let effects = &entities[a].effects;
    let ghost f = has_problem(defs@);
    let mut i: usize = 0;
    while i < effects.len()
        invariant
            a < entities@.len(),
            a as int == entity_index(entities@, actor_id@),
            effects@ == entities@[a as int].effects@,
            f == has_problem(defs@),
            i <= effects@.len(),
            forall|q: int| 0 <= q < i ==> !f(#[trigger] effects@[q]),
        decreases effects.len() - i,
    {
        match effect_problem_exec(defs, &effects[i]) {
            Some(x) => {
                proof {
                    assert(f(effects@[i as int]));
                    lemma_first_index_is(effects@, f, i as int);
                }
                return Err(x);
            },
            None => {},
        }
        i = i + 1;
    }
    proof {
        lemma_first_index_is(effects@, f, -1);
        assert(instances_distinct(entities@[a as int].effects@));
    }
    let order = sorted_saves(effects);
    let ghost order_view = order@.map_values(|i: usize| i as int);
    if order.len() > MAXIMUM_TURN_SAVES {
        return Err(
            resolution_rejection(
                "RPG_EFFECT_SAVE_CANDIDATE_LIMIT_EXCEEDED",
                text("$.control.saves"),
                text("one end-turn transition may resolve at most 32 save-ends effects"),
            ),
        );
    }
    let mut out: Vec<RpgEffectSaveCandidate> = Vec::new();
    let mut k: usize = 0;
    while k < order.len()
        invariant
            a < entities@.len(),
            a as int == entity_index(entities@, actor_id@),
            effects@ == entities@[a as int].effects@,
            order_view == order@.map_values(|i: usize| i as int),
            order_view == save_order(effects@),
            lists_saves(effects@, order_view),
            k <= order@.len(),
            out@.len() == k,
            forall|q: int|
                0 <= q < k ==> is_candidate_for(
                    #[trigger] out@[q],
                    actor_id@,
                    effects@[order_view[q]],
                    q,
                ),
        decreases order.len() - k,
    {
        proof {
            assert(order_view[k as int] == order@[k as int] as int);
            assert(0 <= order_view[k as int] < effects@.len());
        }
        let e = &effects[order[k]];
        let request = RpgRandomRequest {
            kind: RpgRandomRequestKind::EffectSave,
            count: 1,
            sides: 20,
            path: indexed_path("$.control.saves", k, ".roll"),
            heterogeneous_terms: Vec::new(),
        };
        out.push(
            RpgEffectSaveCandidate {
                target_id: actor_id.clone(),
                instance_id: e.instance_id.clone(),
                definition_id: e.definition_id.clone(),
                definition_version: e.definition_version,
                source_entity_id: e.source_entity_id.clone(),
                request,
            },
        );
        k = k + 1;
    }
    Ok(out)
}

/// How one end-of-turn save came out.
#[derive(Debug, Clone)]
pub struct RpgEffectSaveResolution {
    pub instance_id: String,
    pub roll: u32,
    pub difficulty: u32,
    pub saved: bool,
}

/// Why save evidence was refused, with the request of the first missing
/// roll when evidence ran short.
#[derive(Debug, Clone)]
pub struct RpgTurnSaveRefusal {
    pub rejection: RpgResolutionRejection,
    pub random_request: Option<RpgRandomRequest>,
}

pub open spec fn same_candidate(a: RpgEffectSaveCandidate, b: RpgEffectSaveCandidate) -> bool {
    &&& a.target_id@ == b.target_id@
    &&& a.instance_id@ == b.instance_id@
    &&& a.definition_id@ == b.definition_id@
    &&& a.definition_version == b.definition_version
    &&& a.source_entity_id@ == b.source_entity_id@
    &&& same_request(a.request, b.request)
}

pub open spec fn same_candidates(a: Seq<RpgEffectSaveCandidate>, b: Seq<RpgEffectSaveCandidate>) -> bool {
    a.len() == b.len() && forall|i: int| 0 <= i < a.len() ==> same_candidate(#[trigger] a[i], b[i])
}

pub open spec fn roll_in_range(v: u32) -> bool {
    1 <= v <= 20
}

pub open spec fn out_of_d20() -> spec_fn(u32) -> bool {
    |v: u32| !roll_in_range(v)
}

/// Why evidence for a pending end of turn is refused: it answers another
/// pending transition, the save candidates changed (or cannot be formed),
/// it has too few or too many values, or a value is not a d20 roll.
/// Whether save evidence that matches the pending transition holds fewer
/// rolls than there are candidates.
pub open spec fn save_evidence_runs_short(
    command: &RpgTurnControlCommand,
    pending: &RpgPendingTurnSave,
    current: Result<Vec<RpgEffectSaveCandidate>, RpgResolutionRejection>,
) -> bool {
    &&& command.expected_revision == pending.expected_revision
    &&& command.actor_id@ == pending.actor_id@
    &&& command.control == pending.control
    &&& current matches Ok(cs) && same_candidates(cs@, pending.candidates@)
    &&& command.random_values@.len() < pending.candidates@.len()
}

pub open spec fn save_evidence_refusal(
    command: &RpgTurnControlCommand,
    pending: &RpgPendingTurnSave,
    current: Result<Vec<RpgEffectSaveCandidate>, RpgResolutionRejection>,
) -> Option<RejectionText> {
    let n = pending.candidates@.len();
    let values = command.random_values@;
    let bad = first_index_where(values, out_of_d20());
    if command.expected_revision != pending.expected_revision || command.actor_id@
        != pending.actor_id@ || command.control != pending.control {
        Some(
            refusal(
                "RPG_EFFECT_SAVE_PENDING_MISMATCH"@,
                "$.control"@,
                "turn-save evidence does not match the authority-owned pending transition"@,
            ),
        )
    } else {
        match current {
            Err(x) => Some(rejection_text(x)),
            Ok(cs) => {
                if !same_candidates(cs@, pending.candidates@) {
                Some(
                    refusal(
                        "RPG_EFFECT_SAVE_PENDING_STALE"@,
                        "$.control.saves"@,
                        "the authority-owned save candidate set no longer matches current effect state"@,
                    ),
                )
            } else if values.len() < n {
                Some(
                    refusal(
                        "RPG_EFFECT_SAVE_EVIDENCE_UNDERFLOW"@,
                        "$.control.randomValues"@,
                        "end-turn saves require exactly "@ + decimal(n) + " d20 values"@,
                    ),
                )
            } else if values.len() > n {
                Some(unused_random_refusal((values.len() - n) as nat))
            } else if bad >= 0 {
                Some(
                    refusal(
                        "RPG_RANDOM_VALUE_OUT_OF_RANGE"@,
                        indexed("$.control.randomValues"@, bad as nat, Seq::empty()),
                        "save value "@ + decimal(values[bad] as nat) + " is outside 1..=20"@,
                    ),
                )
            } else {
                None
            }
            },
        }
    }
}

fn same_candidate_exec(a: &RpgEffectSaveCandidate, b: &RpgEffectSaveCandidate) -> (r: bool)
    ensures
        r == same_candidate(*a, *b),
{
    a.target_id == b.target_id && a.instance_id == b.instance_id && a.definition_id
        == b.definition_id && a.definition_version == b.definition_version && a.source_entity_id
        == b.source_entity_id && crate::random::requests_equal(&a.request, &b.request)
}

fn same_candidates_exec(a: &Vec<RpgEffectSaveCandidate>, b: &Vec<RpgEffectSaveCandidate>) -> (r: bool)
    ensures
        r == same_candidates(a@, b@),
{
    if a.len() != b.len() {
        return false;
    }
    let mut i: usize = 0;
    while i < a.len()
        invariant
            a@.len() == b@.len(),
            i <= a@.len(),
            forall|q: int| 0 <= q < i ==> same_candidate(#[trigger] a@[q], b@[q]),
        decreases a.len() - i,
    {
        if !same_candidate_exec(&a[i], &b[i]) {
            return false;
        }
        i = i + 1;
    }
    true
}

/// Checks the evidence for a pending end of turn against the current save
/// candidates and, when it is accepted, resolves each save: the value at a
/// candidate's position is its d20 roll, saved at 10 or more.
pub fn resolve_turn_save_evidence(
    command: &RpgTurnControlCommand,
    pending: &RpgPendingTurnSave,
    current: Result<Vec<RpgEffectSaveCandidate>, RpgResolutionRejection>,
) -> (r: Result<Vec<RpgEffectSaveResolution>, RpgTurnSaveRefusal>)
    ensures
        match r {
            Ok(resolutions) => {
                &&& save_evidence_refusal(command, pending, current) is None
                &&& resolutions@.len() == pending.candidates@.len()
                &&& forall|i: int|
                    0 <= i < resolutions@.len() ==> {
                        let x = #[trigger] resolutions@[i];
                        &&& x.instance_id@ == pending.candidates@[i].instance_id@
                        &&& x.roll == command.random_values@[i]
                        &&& x.difficulty == TURN_SAVE_DIFFICULTY
                        &&& x.saved == (x.roll >= TURN_SAVE_DIFFICULTY)
                    }
            },
            Err(f) => {
                &&& save_evidence_refusal(command, pending, current) == Some(
                    rejection_text(f.rejection),
                )
                &&& (f.random_request is Some) == save_evidence_runs_short(command, pending, current)
                &&& f.random_request matches Some(req) ==> same_request(
                    req,
                    pending.candidates@[command.random_values@.len() as int].request,
                )
            },
        },
{
    proof {
        reveal_strlit("");
    }
    if command.expected_revision != pending.expected_revision || command.actor_id
        != pending.actor_id || command.control != pending.control {
        return Err(
            RpgTurnSaveRefusal {
                rejection: resolution_rejection(
                    "RPG_EFFECT_SAVE_PENDING_MISMATCH",
                    text("$.control"),
                    text("turn-save evidence does not match the authority-owned pending transition"),
                ),
                random_request: None,
            },
        );
    }
    let ghost current_copy = current;
    let cs = match current {
        Err(x) => {
            return Err(RpgTurnSaveRefusal { rejection: x, random_request: None });
        },
        Ok(cs) => cs,
    };
    if !same_candidates_exec(&cs, &pending.candidates) {
        return Err(
            RpgTurnSaveRefusal {
                rejection: resolution_rejection(
                    "RPG_EFFECT_SAVE_PENDING_STALE",
                    text("$.control.saves"),
                    text("the authority-owned save candidate set no longer matches current effect state"),
                ),
                random_request: None,
            },
        );
    }
    let n = pending.candidates.len();
    let values = &command.random_values;
    if values.len() < n {
        let mut message = text("end-turn saves require exactly ");
        push_decimal(&mut message, n as u64);
        message = join(message.as_str(), " d20 values");
        return Err(
            RpgTurnSaveRefusal {
                rejection: resolution_rejection(
                    "RPG_EFFECT_SAVE_EVIDENCE_UNDERFLOW",
                    text("$.control.randomValues"),
                    message,
                ),
                random_request: Some(copy_request(&pending.candidates[values.len()].request)),
            },
        );
    }
    if values.len() > n {
        return Err(
            RpgTurnSaveRefusal {
                rejection: unused_random_rejection(values.len() - n),
                random_request: None,
            },
        );
    }
    let ghost f = out_of_d20();
    let mut i: usize = 0;
    while i < values.len()
        invariant
            f == out_of_d20(),
            ""@ == Seq::<char>::empty(),
            current_copy == current,
            current_copy matches Ok(c) && same_candidates(c@, pending.candidates@),
            command.expected_revision == pending.expected_revision,
            command.actor_id@ == pending.actor_id@,
            command.control == pending.control,
            values@ == command.random_values@,
            values@.len() == pending.candidates@.len(),
            i <= values@.len(),
            forall|q: int| 0 <= q < i ==> !f(#[trigger] values@[q]),
        decreases values.len() - i,
    {
        let v = values[i];
        if v < 1 || v > 20 {
            proof {
                assert(f(values@[i as int]));
                lemma_first_index_is(values@, f, i as int);
            }
            let mut message = text("save value ");
            push_decimal(&mut message, v as u64);
            message = join(message.as_str(), " is outside 1..=20");
            return Err(
                RpgTurnSaveRefusal {
                    rejection: resolution_rejection(
                        "RPG_RANDOM_VALUE_OUT_OF_RANGE",
                        indexed_path("$.control.randomValues", i, ""),
                        message,
                    ),
                    random_request: None,
                },
            );
        }
        i = i + 1;
    }
    proof {
        lemma_first_index_is(values@, f, -1);
    }
    let mut out: Vec<RpgEffectSaveResolution> = Vec::new();
    let mut k: usize = 0;
    while k < n
        invariant
            n == pending.candidates@.len(),
            values@ == command.random_values@,
            values@.len() == n,
            k <= n,
            out@.len() == k,
            forall|q: int|
                0 <= q < k ==> {
                    let x = #[trigger] out@[q];
                    &&& x.instance_id@ == pending.candidates@[q].instance_id@
                    &&& x.roll == command.random_values@[q]
                    &&& x.difficulty == TURN_SAVE_DIFFICULTY
                    &&& x.saved == (x.roll >= TURN_SAVE_DIFFICULTY)
                },
        decreases n - k,
    {
        let roll = values[k];
        out.push(
            RpgEffectSaveResolution {
                instance_id: pending.candidates[k].instance_id.clone(),
                roll,
                difficulty: TURN_SAVE_DIFFICULTY,
                saved: roll >= TURN_SAVE_DIFFICULTY,
            },
        );
        k = k + 1;
    }
    Ok(out)
}

/// Whether a resolution saved the effect instance `id`.
pub open spec fn saved_instance(resolutions: Seq<RpgEffectSaveResolution>, id: Seq<char>) -> bool {
    exists|i: int|
        0 <= i < resolutions.len() && (#[trigger] resolutions[i]).saved && resolutions[i].instance_id@
            == id
}

pub open spec fn effect_kept(resolutions: Seq<RpgEffectSaveResolution>) -> spec_fn(
    RpgActiveEffectFacts,
) -> bool {
    |e: RpgActiveEffectFacts| !saved_instance(resolutions, e.instance_id@)
}

fn saved_instance_exec(resolutions: &Vec<RpgEffectSaveResolution>, id: &String) -> (b: bool)
    ensures
        b == saved_instance(resolutions@, id@),
{
    let mut i: usize = 0;
    while i < resolutions.len()
        invariant
            i <= resolutions@.len(),
            forall|j: int|
                0 <= j < i ==> !((#[trigger] resolutions@[j]).saved && resolutions@[j].instance_id@
                    == id@),
        decreases resolutions.len() - i,
    {
        if resolutions[i].saved && resolutions[i].instance_id == *id {
            assert(resolutions@[i as int].saved && resolutions@[i as int].instance_id@ == id@);
            return true;
        }
        i = i + 1;
    }
    false
}

fn copy_effect(e: &RpgActiveEffectFacts) -> (c: RpgActiveEffectFacts)
    ensures
        c == *e,
{
    RpgActiveEffectFacts {
        instance_id: e.instance_id.clone(),
        definition_id: e.definition_id.clone(),
        definition_version: e.definition_version,
        source_entity_id: e.source_entity_id.clone(),
        ends_on_turn_end_save: e.ends_on_turn_end_save,
    }
}

/// Applies resolved end-of-turn saves: every effect of the actor whose
/// instance a resolution saved expires, the others stay in order, and every
/// other entity is unchanged. Returns how many random values the saves
/// consumed: one per resolution.
pub fn remove_saved_effects(
    entities: &mut Vec<RpgEntityState>,
    actor_id: &String,
    resolutions: &Vec<RpgEffectSaveResolution>,
) -> (consumed: u64)
    ensures
        consumed as int == resolutions@.len(),
        final(entities)@.len() == old(entities)@.len(),
        forall|i: int|
            0 <= i < old(entities)@.len() && i != entity_index(old(entities)@, actor_id@) ==> (
            #[trigger] final(entities)@[i]) == old(entities)@[i],
        entity_index(old(entities)@, actor_id@) >= 0 ==> {
            let a = entity_index(old(entities)@, actor_id@);
            let before = old(entities)@[a];
            let after = final(entities)@[a];
            &&& after.effects@ == before.effects@.filter(effect_kept(resolutions@))
            &&& after == RpgEntityState { effects: after.effects, ..before }
        },
{
    let ghost old_entities = entities@;
    match find_entity(entities, actor_id) {
        None => {},
        Some(a) => {
            let mut entity = entities.remove(a);
            let ghost before = entity;
            let ghost mid = entities@;
            assert(mid == old_entities.remove(a as int));
            let mut kept: Vec<RpgActiveEffectFacts> = Vec::new();
            let mut k: usize = 0;
            while k < entity.effects.len()
                invariant
                    entity == before,
                    k <= before.effects@.len(),
                    kept@ == before.effects@.take(k as int).filter(effect_kept(resolutions@)),
                decreases entity.effects.len() - k,
            {
                let e = &entity.effects[k];
                proof {
                    let t = before.effects@.take(k + 1);
                    assert(t.drop_last() =~= before.effects@.take(k as int));
                    assert(t.last() == before.effects@[k as int]);
                    assert(t.filter(effect_kept(resolutions@)) == {
                        let f = t.drop_last().filter(effect_kept(resolutions@));
                        if effect_kept(resolutions@)(t.last()) { f.push(t.last()) } else { f }
                    }) by {
                        reveal(Seq::filter);
                    }
                }
                if !saved_instance_exec(resolutions, &e.instance_id) {
                    kept.push(copy_effect(e));
                }
                k = k + 1;
            }
            proof {
                assert(before.effects@.take(before.effects@.len() as int) =~= before.effects@);
            }
            entity.effects = kept;
            entities.insert(a, entity);
            proof {
                assert(entities@ == mid.insert(a as int, entity));
                assert forall|i: int|
                    0 <= i < old_entities.len() && i != a implies (#[trigger] entities@[i]) == old_entities[i] by {
                    if i < a {
                        assert(entities@[i] == mid[i]);
                        assert(mid[i] == old_entities[i]);
                    } else {
                        assert(entities@[i] == mid[i - 1]);
                        assert(mid[i - 1] == old_entities[i]);
                    }
                }
                assert(entities@[a as int] == entity);
                assert(old_entities[a as int] == before);
            }
        },
    }
    resolutions.len() as u64
}

} // verus!
