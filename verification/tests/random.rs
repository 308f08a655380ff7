use rpg_runtime::random::{
    accept_drawn_values, extend_random_values, first_random_value_out_of_range,
    random_values_out_of_range, require_random_source, requests_equal, RpgRandomRequest,
    RpgRandomRequestKind,
    RpgRandomSource, RpgRandomTerm, RpgRollTapeEntry, RpgRollTapeSource,
};
use rpg_runtime::scenario::RpgRandomSourceBinding;

fn binding() -> RpgRandomSourceBinding {
    RpgRandomSourceBinding {
        policy_id: "test.policy".to_owned(),
        policy_version: 1,
        source_id: "test.tape".to_owned(),
        source_version: 1,
    }
}

fn damage_request() -> RpgRandomRequest {
    RpgRandomRequest {
        kind: RpgRandomRequestKind::FormulaDice,
        count: 2,
        sides: 6,
        path: "$.damage".to_owned(),
        heterogeneous_terms: Vec::new(),
    }
}

#[test]
fn bounded_roll_tape_classifies_exhaustion_range_unused_and_order_failures() {
    let binding = binding();
    let request = damage_request();
    let exhausted = RpgRollTapeSource::new(binding.clone(), Vec::new())
        .draw(&request)
        .unwrap_err();
    assert_eq!(exhausted.code, "RPG_RANDOM_TAPE_EXHAUSTED");

    let different = RpgRandomRequest {
        path: "$.other".to_owned(),
        ..request.clone()
    };
    let order = RpgRollTapeSource::new(
        binding.clone(),
        vec![RpgRollTapeEntry {
            request: different,
            values: vec![1, 1],
        }],
    )
    .draw(&request)
    .unwrap_err();
    assert_eq!(order.code, "RPG_RANDOM_TAPE_REQUEST_ORDER_MISMATCH");
    assert!(order.expected_request.is_some());
    assert!(order.actual_request.is_some());

    let range = RpgRollTapeSource::new(
        binding.clone(),
        vec![RpgRollTapeEntry {
            request: request.clone(),
            values: vec![1, 7],
        }],
    )
    .draw(&request)
    .unwrap_err();
    assert_eq!(range.code, "RPG_RANDOM_TAPE_VALUE_OUT_OF_RANGE");

    let unused = RpgRollTapeSource::new(
        binding,
        vec![RpgRollTapeEntry {
            request: request.clone(),
            values: vec![1, 2, 3],
        }],
    )
    .draw(&request)
    .unwrap_err();
    assert_eq!(unused.code, "RPG_RANDOM_TAPE_UNUSED_EVIDENCE");
}

#[test]
fn tape_draw_consumes_entries_in_order_and_counts_values() {
    let request = damage_request();
    let mut tape = RpgRollTapeSource::new(
        binding(),
        vec![
            RpgRollTapeEntry {
                request: request.clone(),
                values: vec![3, 6],
            },
            RpgRollTapeEntry {
                request: request.clone(),
                values: vec![1, 2],
            },
        ],
    );
    assert_eq!(tape.remaining_entries(), 2);
    assert_eq!(tape.draw(&request).unwrap(), vec![3, 6]);
    assert_eq!(tape.remaining_entries(), 1);
    assert_eq!(tape.consumed_entries(), 1);
    assert_eq!(tape.consumed_values(), 2);
    assert!(tape.require_exhausted().is_err());
    assert_eq!(tape.draw(&request).unwrap(), vec![1, 2]);
    assert!(tape.require_exhausted().is_ok());
    assert_eq!(tape.binding().source_id, "test.tape");
}

#[test]
fn refused_draw_leaves_the_tape_unchanged() {
    let request = damage_request();
    let mut tape = RpgRollTapeSource::new(
        binding(),
        vec![RpgRollTapeEntry {
            request: request.clone(),
            values: vec![0, 2],
        }],
    );
    let failure = tape.draw(&request).unwrap_err();
    assert_eq!(failure.code, "RPG_RANDOM_TAPE_VALUE_OUT_OF_RANGE");
    assert_eq!(failure.path, "$.damage");
    assert_eq!(failure.message, "roll-tape value 0 at offset 0 is outside 1..=6");
    assert_eq!(tape.remaining_entries(), 1);
    assert_eq!(tape.consumed_entries(), 0);
    assert_eq!(tape.consumed_values(), 0);
}

#[test]
fn tape_messages_report_counts() {
    let request = damage_request();
    let exhausted = RpgRollTapeSource::new(binding(), Vec::new())
        .draw(&request)
        .unwrap_err();
    assert_eq!(
        exhausted.message,
        "authority requested 2 bounded value(s), but the roll tape is exhausted"
    );
    let short = RpgRollTapeSource::new(
        binding(),
        vec![RpgRollTapeEntry {
            request: request.clone(),
            values: vec![4],
        }],
    )
    .draw(&request)
    .unwrap_err();
    assert_eq!(short.code, "RPG_RANDOM_TAPE_EXHAUSTED");
    assert_eq!(
        short.message,
        "roll-tape entry contains 1 value(s), but authority requested 2"
    );
    let leftover = RpgRollTapeSource::new(
        binding(),
        vec![RpgRollTapeEntry {
            request: request.clone(),
            values: Vec::new(),
        }],
    );
    let failure = leftover.require_exhausted().unwrap_err();
    assert_eq!(failure.code, "RPG_RANDOM_TAPE_UNUSED_EVIDENCE");
    assert_eq!(failure.path, "$.rollTape");
    assert_eq!(failure.message, "1 roll-tape request entrie(s) were not consumed");
}

fn pool_request() -> RpgRandomRequest {
    RpgRandomRequest {
        kind: RpgRandomRequestKind::FormulaDice,
        count: 3,
        sides: 0,
        path: "$.pool".to_owned(),
        heterogeneous_terms: vec![
            RpgRandomTerm { count: 2, sides: 4 },
            RpgRandomTerm { count: 1, sides: 8 },
        ],
    }
}

#[test]
fn heterogeneous_terms_check_each_die_against_its_own_faces() {
    let request = pool_request();
    assert_eq!(first_random_value_out_of_range(&request, &[4, 4, 8]), None);
    assert_eq!(
        first_random_value_out_of_range(&request, &[4, 5, 8]),
        Some((1, 5, 4))
    );
    assert_eq!(
        first_random_value_out_of_range(&request, &[1, 2]),
        Some((2, 0, 8))
    );
    assert!(!random_values_out_of_range(&request, &[1, 2, 3]));
    assert!(random_values_out_of_range(&request, &[1, 2, 3, 4]));
    assert!(random_values_out_of_range(&request, &[1, 2]));
}

#[test]
fn homogeneous_requests_check_every_supplied_value() {
    let request = damage_request();
    assert_eq!(first_random_value_out_of_range(&request, &[6, 6, 6]), None);
    assert_eq!(
        first_random_value_out_of_range(&request, &[6, 7]),
        Some((1, 7, 6))
    );
    assert!(!random_values_out_of_range(&request, &[1]));
    assert!(random_values_out_of_range(&request, &[0]));
}

#[test]
fn requests_compare_every_field() {
    let request = damage_request();
    assert!(requests_equal(&request, &request.clone()));
    let mut other = request.clone();
    other.kind = RpgRandomRequestKind::AttackCheck;
    assert!(!requests_equal(&request, &other));
    assert!(!requests_equal(&pool_request(), &{
        let mut changed = pool_request();
        changed.heterogeneous_terms[1].sides = 10;
        changed
    }));
}

#[test]
fn accepted_values_are_appended_and_checked() {
    let request = damage_request();
    let mut values = vec![9];
    assert!(accept_drawn_values(&mut values, &request, Ok(vec![2, 5])).is_ok());
    assert_eq!(values, vec![9, 2, 5]);
    let failure = accept_drawn_values(&mut values, &request, Ok(vec![2])).unwrap_err();
    assert_eq!(failure.code, "RPG_RANDOM_SOURCE_COUNT_MISMATCH");
    assert_eq!(
        failure.message,
        "random source returned 1 values for an authority request of 2"
    );
    let failure = accept_drawn_values(&mut values, &request, Ok(vec![2, 7])).unwrap_err();
    assert_eq!(failure.code, "RPG_RANDOM_SOURCE_VALUE_OUT_OF_RANGE");
    assert_eq!(values, vec![9, 2, 5]);
}

#[test]
fn extension_draws_from_the_source_within_the_evidence_limit() {
    let request = damage_request();
    let mut tape = RpgRollTapeSource::new(
        binding(),
        vec![RpgRollTapeEntry {
            request: request.clone(),
            values: vec![1, 6],
        }],
    );
    let mut values = Vec::new();
    extend_random_values(&mut values, &request, &mut tape).unwrap();
    assert_eq!(values, vec![1, 6]);

    let mut full = vec![1; 4095];
    let failure = extend_random_values(&mut full, &request, &mut tape).unwrap_err();
    assert_eq!(failure.code, "RPG_RANDOM_VALUE_LIMIT_EXCEEDED");
    assert_eq!(full.len(), 4095);

    let failure = extend_random_values(&mut values, &request, &mut tape).unwrap_err();
    assert_eq!(failure.code, "RPG_RANDOM_TAPE_EXHAUSTED");
    assert_eq!(values, vec![1, 6]);
}

#[test]
fn random_sources_must_carry_the_encounter_binding() {
    let tape = RpgRollTapeSource::new(binding(), Vec::new());
    assert!(require_random_source(&tape, &binding()).is_ok());
    let other = RpgRandomSourceBinding {
        source_id: "test.other-source".to_owned(),
        ..binding()
    };
    let failure = require_random_source(&tape, &other).unwrap_err();
    assert_eq!(failure.code, "RPG_RANDOM_SOURCE_BINDING_MISMATCH");
    assert_eq!(failure.path, "$.randomSource");
    assert!(failure.message.starts_with("source binding "));
    assert!(failure.message.contains(" does not match encounter binding "));
}
