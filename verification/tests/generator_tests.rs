use hrpc::generator::{unknown_field_id, DuplicateServiceId, ServiceIds, UnknownField, METHOD_ID_TAG, SERVICE_ID_TAG};
use hrpc::varint::decodable_varint;

#[test]
fn declared_id_is_read_from_the_first_matching_field() {
    let fields = vec![
        UnknownField { tag: 1, value: vec![5] },
        UnknownField { tag: SERVICE_ID_TAG, value: vec![0x96, 0x01] },
        UnknownField { tag: SERVICE_ID_TAG, value: vec![3] },
    ];
    assert_eq!(unknown_field_id(&fields, SERVICE_ID_TAG), Some(150));
    assert_eq!(unknown_field_id(&fields, METHOD_ID_TAG), None);
    assert_eq!(unknown_field_id(&vec![], SERVICE_ID_TAG), None);
}

#[test]
fn service_ids_from_counter_and_declarations() {
    let mut ids = ServiceIds::new();
    assert_eq!(ids.assign(None), Ok(1));
    assert_eq!(ids.assign(Some(5)), Ok(5));
    assert_eq!(ids.assign(Some(1)), Err(DuplicateServiceId(1)));
    assert_eq!(ids.assign(None), Ok(2));
    assert_eq!(ids.assign(Some(3)), Ok(3));
    assert_eq!(ids.assign(None), Err(DuplicateServiceId(3)));
    assert_eq!(ids.assign(None), Ok(4));
}

#[test]
fn declared_id_with_padding_past_ten_bytes() {
    let mut value = vec![0x80u8; 10];
    value.push(0x00);
    let fields = vec![UnknownField { tag: METHOD_ID_TAG, value }];
    assert_eq!(unknown_field_id(&fields, METHOD_ID_TAG), Some(0));
    // bits past the tenth byte are shifted out
    let mut value = vec![0x81u8; 10];
    value.push(0x05);
    let fields = vec![UnknownField { tag: METHOD_ID_TAG, value }];
    let expected: u64 = (0..9).map(|i| 1u64 << (7 * i)).sum::<u64>() + (1u64 << 63);
    assert_eq!(unknown_field_id(&fields, METHOD_ID_TAG), Some(expected));
}

#[test]
fn decodable_values() {
    assert!(decodable_varint(&[0x96, 0x01, 0xff]));
    assert!(!decodable_varint(&[0x96, 0x81]));
    assert!(!decodable_varint(&[]));
    let mut max = vec![0xffu8; 9];
    max.push(0x01);
    assert!(decodable_varint(&max));
    let mut over = vec![0xffu8; 9];
    over.push(0x02);
    assert!(!decodable_varint(&over));
    let mut long = vec![0x80u8; 15];
    long.push(0x7f);
    assert!(decodable_varint(&long));
}
