use execution_engine::key::Key;
use execution_engine::message::{ParsingError, TransformInstance, TransformMessage};
use execution_engine::transform::{Transform, TransformError};
use execution_engine::uint::U512;
use execution_engine::value::{NamedKey, Value, ValueKind};

fn named(name: &str, k: Key) -> NamedKey {
    NamedKey { name: name.to_string(), key: k }
}

#[test]
fn add_u512_saturates_at_max() {
    let r = Transform::AddUInt512(U512::max_value()).apply(Value::UInt512(U512::max_value()));
    match r {
        Ok(Value::UInt512(v)) => assert_eq!(v, U512::max_value()),
        other => panic!("unexpected {:?}", other),
    }
}

#[test]
fn add_u64_saturates_and_adds() {
    match Transform::AddUInt64(5).apply(Value::UInt64(u64::MAX - 2)) {
        Ok(Value::UInt64(v)) => assert_eq!(v, u64::MAX),
        other => panic!("unexpected {:?}", other),
    }
    match Transform::AddUInt64(5).apply(Value::UInt64(10)) {
        Ok(Value::UInt64(v)) => assert_eq!(v, 15),
        other => panic!("unexpected {:?}", other),
    }
    match Transform::AddInt32(-10).apply(Value::Int32(i32::MIN + 3)) {
        Ok(Value::Int32(v)) => assert_eq!(v, i32::MIN),
        other => panic!("unexpected {:?}", other),
    }
}

#[test]
fn add_of_wrong_width_is_type_mismatch() {
    match Transform::AddUInt64(1).apply(Value::Int32(1)) {
        Err(e) => assert_eq!(
            e,
            TransformError::TypeMismatch { expected: ValueKind::UInt64, found: ValueKind::Int32 }
        ),
        other => panic!("unexpected {:?}", other),
    }
    match Transform::AddKeys(vec![]).apply(Value::Unit) {
        Err(e) => assert_eq!(
            e,
            TransformError::TypeMismatch { expected: ValueKind::NamedKeys, found: ValueKind::Unit }
        ),
        other => panic!("unexpected {:?}", other),
    }
}

#[test]
fn write_and_identity() {
    match Transform::Write(Value::UInt64(7)).apply(Value::Unit) {
        Ok(Value::UInt64(7)) => {}
        other => panic!("unexpected {:?}", other),
    }
    match Transform::Identity.apply(Value::Int32(3)) {
        Ok(Value::Int32(3)) => {}
        other => panic!("unexpected {:?}", other),
    }
}

#[test]
fn merge_rules() {
    match Transform::Identity.merge(Transform::AddUInt64(3)) {
        Transform::AddUInt64(3) => {}
        other => panic!("unexpected {:?}", other),
    }
    match Transform::AddUInt64(3).merge(Transform::AddUInt64(4)) {
        Transform::AddUInt64(7) => {}
        other => panic!("unexpected {:?}", other),
    }
    match Transform::Write(Value::UInt64(1)).merge(Transform::AddUInt64(4)) {
        Transform::Write(Value::UInt64(5)) => {}
        other => panic!("unexpected {:?}", other),
    }
    match Transform::AddUInt64(3).merge(Transform::Write(Value::Unit)) {
        Transform::Write(Value::Unit) => {}
        other => panic!("unexpected {:?}", other),
    }
    let e = TransformError::TypeMismatch { expected: ValueKind::Unit, found: ValueKind::Unit };
    match Transform::Failure(e).merge(Transform::Identity) {
        Transform::Failure(x) => assert_eq!(x, e),
        other => panic!("unexpected {:?}", other),
    }
    match Transform::AddUInt64(3).merge(Transform::AddInt32(1)) {
        Transform::Failure(x) => assert_eq!(
            x,
            TransformError::TypeMismatch { expected: ValueKind::UInt64, found: ValueKind::Int32 }
        ),
        other => panic!("unexpected {:?}", other),
    }
}

#[test]
fn add_keys_later_binding_wins() {
    let a = Key::Hash([1; 32]);
    let b = Key::Hash([2; 32]);
    let merged = Transform::AddKeys(vec![named("x", a)]).merge(Transform::AddKeys(vec![named("x", b)]));
    match merged.apply(Value::NamedKeys(vec![])) {
        Ok(Value::NamedKeys(m)) => {
            assert_eq!(m.len(), 2);
            assert_eq!(m[1].key, b);
        }
        other => panic!("unexpected {:?}", other),
    }
}

#[test]
fn message_round_trip_for_every_variant() {
    let ts = vec![
        Transform::Identity,
        Transform::Write(Value::Str("s".to_string())),
        Transform::AddInt32(-4),
        Transform::AddUInt64(9),
        Transform::AddUInt128(1u128 << 100),
        Transform::AddUInt256(execution_engine::uint::U256::from_u64(11)),
        Transform::AddUInt512(U512::from_u64(12)),
        Transform::AddKeys(vec![named("k", Key::Account([7; 32]))]),
        Transform::Failure(TransformError::TypeMismatch { expected: ValueKind::Unit, found: ValueKind::Str }),
    ];
    for t in ts {
        let before = format!("{:?}", t);
        let back = Transform::try_from_message(TransformMessage::from_transform(t)).unwrap();
        assert_eq!(format!("{:?}", back), before);
    }
}

#[test]
fn wide_adds_share_the_big_int_case() {
    let m = TransformMessage::from_transform(Transform::AddUInt512(U512::from_u64(1)));
    match m.transform_instance {
        Some(TransformInstance::AddBigInt(Value::UInt512(_))) => {}
        other => panic!("unexpected {:?}", other),
    }
}

#[test]
fn message_errors() {
    let empty = TransformMessage { transform_instance: None };
    assert_eq!(Transform::try_from_message(empty).unwrap_err(), ParsingError::MissingTransform);
    let bad = TransformMessage { transform_instance: Some(TransformInstance::AddBigInt(Value::UInt64(1))) };
    assert_eq!(
        Transform::try_from_message(bad).unwrap_err(),
        ParsingError::NonUintBigInt(ValueKind::UInt64)
    );
}
