use ciphercore_base::data_types::{array_type, scalar_type, Type, INT32, INT64};
use ciphercore_base::data_values::Value;
use ciphercore_base::typed_value::TypedValue;
use multi_parti_evaluator::redact::{keeps_slot, redact_inputs, RedactError};
use multi_parti_evaluator::tags::InputTag;

fn scalar(x: i32) -> TypedValue {
    TypedValue::new(scalar_type(INT32), Value::from_scalar(x, INT32).unwrap()).unwrap()
}

fn matrix(xs: &[i64]) -> TypedValue {
    let t = array_type(vec![2, 2], INT64);
    TypedValue::new(t, Value::from_flattened_array(xs, INT64).unwrap()).unwrap()
}

#[test]
fn owner_keeps_and_others_see_zero_scalar() {
    let tags = vec![InputTag::Party(1)];
    for party in 0..3u64 {
        let out = redact_inputs(vec![scalar(42)], &tags, party).unwrap();
        assert_eq!(out.len(), 1);
        if party == 1 {
            assert_eq!(out[0].value, scalar(42).value);
        } else {
            assert_eq!(out[0].value, Value::zero_of_type(scalar_type(INT32)));
            assert_ne!(out[0].value, scalar(42).value);
        }
        assert_eq!(out[0].t, scalar_type(INT32));
    }
}

#[test]
fn owner_keeps_and_others_see_zero_array() {
    let inputs = vec![matrix(&[1, 2, 3, 4]), matrix(&[5, 6, 7, 8])];
    let tags = vec![InputTag::Party(0), InputTag::Party(1)];
    let p0 = redact_inputs(inputs.clone(), &tags, 0).unwrap();
    let p1 = redact_inputs(inputs.clone(), &tags, 1).unwrap();
    let p2 = redact_inputs(inputs.clone(), &tags, 2).unwrap();
    let zero = Value::zero_of_type(array_type(vec![2, 2], INT64));
    assert_eq!(p0[0].value, inputs[0].value);
    assert_eq!(p0[1].value, zero);
    assert_eq!(p1[0].value, zero);
    assert_eq!(p1[1].value, inputs[1].value);
    assert_eq!(p2[0].value, zero);
    assert_eq!(p2[1].value, zero);
    assert_eq!(
        p2[0].value.to_flattened_array_i64(array_type(vec![2, 2], INT64)).unwrap(),
        vec![0, 0, 0, 0]
    );
}

#[test]
fn public_and_shared_slots_are_kept_by_all() {
    let inputs = vec![scalar(10), scalar(20)];
    let tags = vec![InputTag::Public, InputTag::Shared];
    for party in 0..3u64 {
        let out = redact_inputs(inputs.clone(), &tags, party).unwrap();
        assert_eq!(out[0].value, inputs[0].value);
        assert_eq!(out[1].value, inputs[1].value);
    }
}

#[test]
fn redacting_nothing_gives_nothing() {
    assert_eq!(redact_inputs(vec![], &vec![], 0).unwrap().len(), 0);
}

#[test]
fn names_survive_redaction() {
    let mut v = scalar(7);
    v.name = Some("a".to_string());
    let out = redact_inputs(vec![v], &vec![InputTag::Party(2)], 0).unwrap();
    assert_eq!(out[0].name, Some("a".to_string()));
    assert_eq!(out[0].value, Value::zero_of_type(scalar_type(INT32)));
}

#[test]
fn unsized_slot_that_must_be_zeroed_is_an_error() {
    let bad = TypedValue {
        value: Value::from_bytes(vec![]),
        t: Type::Array(vec![0], INT32),
        name: None,
    };
    let tags = vec![InputTag::Public, InputTag::Party(1)];
    let r = redact_inputs(vec![scalar(1), bad.clone()], &tags, 0);
    assert!(matches!(r, Err(RedactError::UnsizedType(1))));
    let kept = redact_inputs(vec![scalar(1), bad], &tags, 1).unwrap();
    assert_eq!(kept.len(), 2);
}

#[test]
fn slot_keeping_rule() {
    assert!(keeps_slot(InputTag::Party(2), 2));
    assert!(!keeps_slot(InputTag::Party(2), 0));
    assert!(keeps_slot(InputTag::Public, 1));
    assert!(keeps_slot(InputTag::Shared, 1));
}
