use rpg_runtime::board::GridPosition;
use rpg_runtime::items::{item_binding_rejection, item_bindings_for_actor};
use rpg_runtime::model::BoundedValue;
use rpg_runtime::restore::{RpgIntentItemBinding, RpgItemBindingRule};
use rpg_runtime::scenario::{
    RpgEquipmentSlotSetup, RpgInitialCapability, RpgItemInstanceSetup, RpgParticipantSetup,
};

fn fighter() -> RpgParticipantSetup {
    RpgParticipantSetup {
        id: "hero".to_owned(),
        label: "Hero".to_owned(),
        team_id: "heroes".to_owned(),
        position: GridPosition { x: 0, y: 0 },
        definition_ids: vec!["action.strike".to_owned()],
        class_definition_id: None,
        feature_definition_ids: Vec::new(),
        items: vec![
            RpgItemInstanceSetup {
                id: "sword-1".to_owned(),
                definition_id: "item.sword".to_owned(),
            },
            RpgItemInstanceSetup {
                id: "sword-2".to_owned(),
                definition_id: "item.sword".to_owned(),
            },
            RpgItemInstanceSetup {
                id: "shield-1".to_owned(),
                definition_id: "item.shield".to_owned(),
            },
        ],
        equipment: vec![
            RpgEquipmentSlotSetup {
                slot_id: "main-hand".to_owned(),
                item_instance_id: "sword-1".to_owned(),
            },
            RpgEquipmentSlotSetup {
                slot_id: "off-hand".to_owned(),
                item_instance_id: "sword-2".to_owned(),
            },
            RpgEquipmentSlotSetup {
                slot_id: "back".to_owned(),
                item_instance_id: "shield-1".to_owned(),
            },
        ],
        capabilities: vec![RpgInitialCapability::Vitality {
            value: BoundedValue { current: 10, max: 10 },
        }],
    }
}

fn strike_rule() -> RpgItemBindingRule {
    RpgItemBindingRule {
        action_id: "action.strike".to_owned(),
        binding_id: "binding.weapon".to_owned(),
        slot_ids: vec!["main-hand".to_owned(), "off-hand".to_owned()],
        item_definition_ids: vec!["item.sword".to_owned()],
    }
}

fn binding(binding_id: &str, slot: &str, definition: &str, instance: &str) -> RpgIntentItemBinding {
    RpgIntentItemBinding {
        binding_id: binding_id.to_owned(),
        slot_id: slot.to_owned(),
        item_definition_id: definition.to_owned(),
        item_instance_id: instance.to_owned(),
    }
}

#[test]
fn equipped_items_in_allowed_slots_offer_bindings_in_equipment_order() {
    let participants = vec![fighter()];
    let rules = vec![strike_rule()];
    let offered = item_bindings_for_actor(
        &participants,
        &rules,
        &"hero".to_owned(),
        &"action.strike".to_owned(),
        &"item.sword".to_owned(),
    );
    let texts: Vec<(&str, &str, &str)> = offered
        .iter()
        .map(|b| (b.binding_id.as_str(), b.slot_id.as_str(), b.item_instance_id.as_str()))
        .collect();
    assert_eq!(
        texts,
        vec![("binding.weapon", "main-hand", "sword-1"), ("binding.weapon", "off-hand", "sword-2")]
    );
    assert!(item_bindings_for_actor(
        &participants,
        &rules,
        &"hero".to_owned(),
        &"action.strike".to_owned(),
        &"item.shield".to_owned(),
    )
    .is_empty());
    assert!(item_bindings_for_actor(
        &participants,
        &rules,
        &"stranger".to_owned(),
        &"action.strike".to_owned(),
        &"item.sword".to_owned(),
    )
    .is_empty());
    assert!(item_bindings_for_actor(
        &participants,
        &rules,
        &"hero".to_owned(),
        &"action.shove".to_owned(),
        &"item.sword".to_owned(),
    )
    .is_empty());
}

#[test]
fn item_bindings_are_refused_for_each_mismatch() {
    let participants = vec![fighter()];
    let rules = vec![strike_rule()];
    let hero = "hero".to_owned();
    let strike = "action.strike".to_owned();
    let shove = "action.shove".to_owned();
    let current = Some(binding("binding.weapon", "off-hand", "item.sword", "sword-2"));

    assert!(item_binding_rejection(&participants, &rules, &hero, &strike, &current).is_none());
    assert!(item_binding_rejection(&participants, &rules, &hero, &shove, &None).is_none());

    let unexpected = item_binding_rejection(&participants, &rules, &hero, &shove, &current).unwrap();
    assert_eq!(unexpected.code, "RPG_ACTION_ITEM_BINDING_UNEXPECTED");
    assert_eq!(unexpected.path, "$.command.intent.itemBinding");

    let required = item_binding_rejection(&participants, &rules, &hero, &strike, &None).unwrap();
    assert_eq!(required.code, "RPG_ACTION_ITEM_BINDING_REQUIRED");

    let other = Some(binding("binding.other", "off-hand", "item.sword", "sword-2"));
    let mismatch = item_binding_rejection(&participants, &rules, &hero, &strike, &other).unwrap();
    assert_eq!(mismatch.code, "RPG_ACTION_ITEM_BINDING_ID_MISMATCH");
    assert_eq!(mismatch.path, "$.command.intent.itemBinding.bindingId");
    assert_eq!(mismatch.message, "expected item binding binding.weapon");

    let swapped = Some(binding("binding.weapon", "main-hand", "item.sword", "sword-2"));
    let stale = item_binding_rejection(&participants, &rules, &hero, &strike, &swapped).unwrap();
    assert_eq!(stale.code, "RPG_ACTION_ITEM_BINDING_STALE");
    assert_eq!(
        stale.message,
        "the submitted item binding is not the actor's current compatible equipment"
    );
}
