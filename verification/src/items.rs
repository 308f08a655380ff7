use vstd::prelude::*;

use crate::model::{
    first_index_where, lemma_first_index_is, rejection_text, resolution_rejection,
    RpgResolutionRejection,
};
use crate::restore::{first_participant_with, rule_for, RpgIntentItemBinding, RpgItemBindingRule};
use crate::scenario::{RpgEquipmentSlotSetup, RpgItemInstanceSetup, RpgParticipantSetup};
use crate::session::{refusal, RejectionText};
use crate::setup::participant_with_id;
use crate::text::{contains_text, join, text, texts};

verus! {

/// The text of an item binding: binding, slot, item definition and item
/// instance.
pub type BindingText = (Seq<char>, Seq<char>, Seq<char>, Seq<char>);

pub open spec fn binding_text(b: RpgIntentItemBinding) -> BindingText {
    (b.binding_id@, b.slot_id@, b.item_definition_id@, b.item_instance_id@)
}

pub open spec fn instance_of(instance_id: Seq<char>, definition_id: Seq<char>) -> spec_fn(
    RpgItemInstanceSetup,
) -> bool {
    |it: RpgItemInstanceSetup| it.id@ == instance_id && it.definition_id@ == definition_id
}

/// The binding one equipment slot offers for an item definition: the slot
/// must be one the rule allows, and the participant must carry the slotted
/// instance as that definition.
pub open spec fn slot_binding(
    p: RpgParticipantSetup,
    rule: RpgItemBindingRule,
    definition_id: Seq<char>,
    e: RpgEquipmentSlotSetup,
) -> Option<BindingText> {
    if texts(rule.slot_ids@).contains(e.slot_id@) && first_index_where(
        p.items@,
        instance_of(e.item_instance_id@, definition_id),
    ) >= 0 {
        Some((rule.binding_id@, e.slot_id@, definition_id, e.item_instance_id@))
    } else {
        None
    }
}

/// The bindings a participant's equipment offers, in equipment order.
pub open spec fn slot_bindings(
    p: RpgParticipantSetup,
    rule: RpgItemBindingRule,
    definition_id: Seq<char>,
    equipment: Seq<RpgEquipmentSlotSetup>,
) -> Seq<BindingText>
    decreases equipment.len(),
{
    if equipment.len() == 0 {
        Seq::empty()
    } else {
        let prior = slot_bindings(p, rule, definition_id, equipment.drop_last());
        match slot_binding(p, rule, definition_id, equipment.last()) {
            Some(b) => prior.push(b),
            None => prior,
        }
    }
}

/// The item bindings the actor's current equipment offers an action for an
/// item definition: none when the action binds no item or the actor is not
/// a participant (the first rule and participant with the identity count).
pub open spec fn actor_item_bindings(
    participants: Seq<RpgParticipantSetup>,
    rules: Seq<RpgItemBindingRule>,
    actor_id: Seq<char>,
    action_id: Seq<char>,
    definition_id: Seq<char>,
) -> Seq<BindingText> {
    let r = first_index_where(rules, rule_for(action_id));
    let p = first_index_where(participants, participant_with_id(actor_id));
    if r < 0 || p < 0 {
        Seq::empty()
    } else {
        slot_bindings(participants[p], rules[r], definition_id, participants[p].equipment@)
    }
}

pub(crate) fn rule_of(rules: &Vec<RpgItemBindingRule>, action_id: &String) -> (r: Option<usize>)
    ensures
        match r {
            Some(k) => k < rules@.len() && k as int == first_index_where(rules@, rule_for(action_id@)),
            None => first_index_where(rules@, rule_for(action_id@)) == -1,
        },
{
    let mut k: usize = 0;
    while k < rules.len()
        invariant
            k <= rules@.len(),
            forall|q: int| 0 <= q < k ==> !rule_for(action_id@)(#[trigger] rules@[q]),
        decreases rules.len() - k,
    {
        if rules[k].action_id == *action_id {
            proof {
                lemma_first_index_is(rules@, rule_for(action_id@), k as int);
            }
            return Some(k);
        }
        k = k + 1;
    }
    proof {
        lemma_first_index_is(rules@, rule_for(action_id@), -1);
    }
    None
}

fn carries_instance(p: &RpgParticipantSetup, instance_id: &String, definition_id: &String) -> (b:
    bool)
    ensures
        b == (first_index_where(p.items@, instance_of(instance_id@, definition_id@)) >= 0),
{
    let ghost f = instance_of(instance_id@, definition_id@);
    let mut k: usize = 0;
    while k < p.items.len()
        invariant
            f == instance_of(instance_id@, definition_id@),
            k <= p.items@.len(),
            forall|q: int| 0 <= q < k ==> !f(#[trigger] p.items@[q]),
        decreases p.items.len() - k,
    {
        if p.items[k].id == *instance_id && p.items[k].definition_id == *definition_id {
            proof {
                lemma_first_index_is(p.items@, f, k as int);
            }
            return true;
        }
        k = k + 1;
    }
    proof {
        lemma_first_index_is(p.items@, f, -1);
    }
    false
}

/// The item bindings the actor's current equipment offers `action_id` for
/// items of definition `item_definition_id`, in equipment order.
pub fn item_bindings_for_actor(
    participants: &Vec<RpgParticipantSetup>,
    rules: &Vec<RpgItemBindingRule>,
    actor_id: &String,
    action_id: &String,
    item_definition_id: &String,
) -> (r: Vec<RpgIntentItemBinding>)
    ensures
        r@.map_values(|b| binding_text(b)) == actor_item_bindings(
            participants@,
            rules@,
            actor_id@,
            action_id@,
            item_definition_id@,
        ),
{
    let mut out: Vec<RpgIntentItemBinding> = Vec::new();
    let k = match rule_of(rules, action_id) {
        None => {
            assert(out@.map_values(|b| binding_text(b)) =~= Seq::<BindingText>::empty());
            return out;
        },
        Some(k) => k,
    };
    let d = match first_participant_with(participants, actor_id) {
        None => {
            assert(out@.map_values(|b| binding_text(b)) =~= Seq::<BindingText>::empty());
            return out;
        },
        Some(d) => d,
    };
    let rule = &rules[k];
    let p = &participants[d];
    let equipment = &p.equipment;
    let mut i: usize = 0;
    while i < equipment.len()
        invariant
            i <= equipment@.len(),
            equipment@ == p.equipment@,
            out@.map_values(|b| binding_text(b)) == slot_bindings(
                *p,
                *rule,
                item_definition_id@,
                equipment@.take(i as int),
            ),
        decreases equipment.len() - i,
    {
        let e = &equipment[i];
        proof {
            assert(equipment@.take(i + 1).drop_last() =~= equipment@.take(i as int));
            assert(equipment@.take(i + 1).last() == *e);
        }
        let allowed = contains_text(&rule.slot_ids, &e.slot_id);
        proof {
            if allowed {
                let j = choose|j: int| 0 <= j < rule.slot_ids@.len() && (#[trigger] rule.slot_ids@[j])@ == e.slot_id@;
                assert(texts(rule.slot_ids@)[j] == e.slot_id@);
            }
            if texts(rule.slot_ids@).contains(e.slot_id@) {
                let j = choose|j: int| 0 <= j < texts(rule.slot_ids@).len() && texts(rule.slot_ids@)[j] == e.slot_id@;
                assert(rule.slot_ids@[j]@ == e.slot_id@);
            }
        }
        if allowed && carries_instance(p, &e.item_instance_id, item_definition_id) {
            let binding = RpgIntentItemBinding {
                binding_id: rule.binding_id.clone(),
                slot_id: e.slot_id.clone(),
                item_definition_id: item_definition_id.clone(),
                item_instance_id: e.item_instance_id.clone(),
            };
            let ghost before = out@;
            out.push(binding);
            proof {
                assert(out@.map_values(|b| binding_text(b)) =~= before.map_values(|b| binding_text(b)).push(
                    binding_text(binding),
                ));
            }
        }
        i = i + 1;
    }
    proof {
        assert(equipment@.take(equipment@.len() as int) =~= equipment@);
    }
    out
}

/// Why the item binding of an intent is refused: one where the action binds
/// no item, none where it binds one, another binding identity than the
/// action's, or a binding that the actor's current equipment does not offer.
pub open spec fn item_binding_refusal(
    participants: Seq<RpgParticipantSetup>,
    rules: Seq<RpgItemBindingRule>,
    actor_id: Seq<char>,
    action_id: Seq<char>,
    binding: Option<RpgIntentItemBinding>,
) -> Option<RejectionText> {
    let r = first_index_where(rules, rule_for(action_id));
    match binding {
        None => if r < 0 {
            None
        } else {
            Some(
                refusal(
                    "RPG_ACTION_ITEM_BINDING_REQUIRED"@,
                    "$.command.intent.itemBinding"@,
                    "this action requires a compatible equipped item binding"@,
                ),
            )
        },
        Some(b) => if r < 0 {
            Some(
                refusal(
                    "RPG_ACTION_ITEM_BINDING_UNEXPECTED"@,
                    "$.command.intent.itemBinding"@,
                    "this action does not accept an equipped item binding"@,
                ),
            )
        } else if b.binding_id@ != rules[r].binding_id@ {
            Some(
                refusal(
                    "RPG_ACTION_ITEM_BINDING_ID_MISMATCH"@,
                    "$.command.intent.itemBinding.bindingId"@,
                    "expected item binding "@ + rules[r].binding_id@,
                ),
            )
        } else if actor_item_bindings(
            participants,
            rules,
            actor_id,
            action_id,
            b.item_definition_id@,
        ).contains(binding_text(b)) {
            None
        } else {
            Some(
                refusal(
                    "RPG_ACTION_ITEM_BINDING_STALE"@,
                    "$.command.intent.itemBinding"@,
                    "the submitted item binding is not the actor's current compatible equipment"@,
                ),
            )
        },
    }
}

fn same_binding(a: &RpgIntentItemBinding, b: &RpgIntentItemBinding) -> (r: bool)
    ensures
        r == (binding_text(*a) == binding_text(*b)),
{
    a.binding_id == b.binding_id && a.slot_id == b.slot_id && a.item_definition_id
        == b.item_definition_id && a.item_instance_id == b.item_instance_id
}

fn binding_listed(offered: &Vec<RpgIntentItemBinding>, b: &RpgIntentItemBinding) -> (r: bool)
    ensures
        r == offered@.map_values(|x| binding_text(x)).contains(binding_text(*b)),
{
    let ghost listed = offered@.map_values(|x| binding_text(x));
    let mut i: usize = 0;
    while i < offered.len()
        invariant
            i <= offered@.len(),
            listed == offered@.map_values(|x| binding_text(x)),
            forall|q: int| 0 <= q < i ==> listed[q] != binding_text(*b),
        decreases offered.len() - i,
    {
        if same_binding(&offered[i], b) {
            assert(listed[i as int] == binding_text(*b));
            return true;
        }
        i = i + 1;
    }
    false
}

/// Refuses the item binding of an actor's intent for an action.
pub fn item_binding_rejection(
    participants: &Vec<RpgParticipantSetup>,
    rules: &Vec<RpgItemBindingRule>,
    actor_id: &String,
    action_id: &String,
    binding: &Option<RpgIntentItemBinding>,
) -> (r: Option<RpgResolutionRejection>)
    ensures
        match r {
            None => item_binding_refusal(participants@, rules@, actor_id@, action_id@, *binding) is None,
            Some(x) => item_binding_refusal(participants@, rules@, actor_id@, action_id@, *binding)
                == Some(rejection_text(x)),
        },
{
    let rule = rule_of(rules, action_id);
    match (rule, binding) {
        (None, None) => None,
        (None, Some(_)) => Some(
            resolution_rejection(
                "RPG_ACTION_ITEM_BINDING_UNEXPECTED",
                text("$.command.intent.itemBinding"),
                text("this action does not accept an equipped item binding"),
            ),
        ),
        (Some(_), None) => Some(
            resolution_rejection(
                "RPG_ACTION_ITEM_BINDING_REQUIRED",
                text("$.command.intent.itemBinding"),
                text("this action requires a compatible equipped item binding"),
            ),
        ),
        (Some(k), Some(b)) => {
            if b.binding_id != rules[k].binding_id {
                return Some(
                    resolution_rejection(
                        "RPG_ACTION_ITEM_BINDING_ID_MISMATCH",
                        text("$.command.intent.itemBinding.bindingId"),
                        join("expected item binding ", rules[k].binding_id.as_str()),
                    ),
                );
            }
            let offered = item_bindings_for_actor(
                participants,
                rules,
                actor_id,
                action_id,
                &b.item_definition_id,
            );
            if binding_listed(&offered, b) {
                return None;
            }
            Some(
                resolution_rejection(
                    "RPG_ACTION_ITEM_BINDING_STALE",
                    text("$.command.intent.itemBinding"),
                    text("the submitted item binding is not the actor's current compatible equipment"),
                ),
            )
        },
    }
}

} // verus!
