use reconciler::object::values_equal;
use reconciler::state::rows::{decode_rows, encode_id, encode_object};
use reconciler::state::StoreError;
use reconciler::Object;

#[test]
fn ids_are_written_as_hyphenated_lower_case_uuids() {
    let id: u128 = 0x550e8400_e29b_41d4_a716_446655440000;
    assert_eq!(encode_id(&id), "550e8400-e29b-41d4-a716-446655440000");
}

#[test]
fn encoded_rows_decode_back_to_the_objects() {
    let objects = vec![
        Object { id: 0x550e8400_e29b_41d4_a716_446655440000, value: 2.5f64.to_bits() },
        Object::new(7.0f64.to_bits()),
    ];
    let rows: Vec<(String, u64)> = objects.iter().map(encode_object).collect();
    assert_eq!(rows[0].1, 2.5f64.to_bits());
    assert_eq!(decode_rows(&rows), Ok(objects));
}

#[test]
fn decoding_accepts_other_uuid_forms() {
    let rows = vec![("550E8400E29B41D4A716446655440000".to_string(), 1)];
    assert_eq!(
        decode_rows(&rows),
        Ok(vec![Object { id: 0x550e8400_e29b_41d4_a716_446655440000, value: 1 }])
    );
}

#[test]
fn a_malformed_id_fails_the_whole_decode() {
    let rows = vec![
        ("550e8400-e29b-41d4-a716-446655440000".to_string(), 1),
        ("not-a-uuid".to_string(), 2),
        ("also bad".to_string(), 3),
    ];
    assert_eq!(decode_rows(&rows), Err(StoreError::InvalidId("not-a-uuid".to_string())));
}

#[test]
fn no_rows_decode_to_no_objects() {
    assert_eq!(decode_rows(&vec![]), Ok(vec![]));
}

#[test]
fn float_equality_follows_ieee() {
    assert!(values_equal(1.5f64.to_bits(), 1.5f64.to_bits()));
    assert!(!values_equal(1.5f64.to_bits(), 2.5f64.to_bits()));
    assert!(values_equal(0.0f64.to_bits(), (-0.0f64).to_bits()));
    assert!(!values_equal(f64::NAN.to_bits(), f64::NAN.to_bits()));
    assert!(values_equal(f64::INFINITY.to_bits(), f64::INFINITY.to_bits()));
    assert!(!values_equal(f64::INFINITY.to_bits(), f64::NEG_INFINITY.to_bits()));
}
