use field_codecs::stringified::{read_u64, read_u64_key_map, read_u64_list, write_u64,
    write_u64_key_map, write_u64_list, MapKeyError};

#[test]
fn stringified_scalar_round_trip() {
    assert_eq!(read_u64("42").unwrap(), 42);
    assert_eq!(write_u64(42), "42");
    assert_eq!(read_u64("0").unwrap(), 0);
    assert_eq!(write_u64(0), "0");
    assert_eq!(read_u64("18446744073709551615").unwrap(), u64::MAX);
    assert_eq!(write_u64(u64::MAX), "18446744073709551615");
}

#[test]
fn stringified_scalar_rejects_bad_input() {
    let e = read_u64("abc").unwrap_err();
    assert_eq!(e.input, "abc");
    assert_eq!(e.reason, "not a decimal number");
    assert!(read_u64("").is_err());
    assert!(read_u64("-1").is_err());
    assert!(read_u64("4 2").is_err());
    let e = read_u64("18446744073709551616").unwrap_err();
    assert_eq!(e.reason, "number does not fit in 64 bits");
}

#[test]
fn stringified_list_preserves_order() {
    let wire: Vec<String> = vec!["1".to_owned(), "2".to_owned(), "3".to_owned()];
    assert_eq!(read_u64_list(&wire).unwrap(), vec![1, 2, 3]);
    let reversed: Vec<String> = wire.iter().rev().cloned().collect();
    assert_eq!(read_u64_list(&reversed).unwrap(), vec![3, 2, 1]);
    assert_eq!(write_u64_list(&vec![1, 2, 3]), wire);
}

#[test]
fn stringified_list_fails_fast() {
    let wire: Vec<String> = vec!["1".to_owned(), "x".to_owned(), "3".to_owned()];
    let e = read_u64_list(&wire).unwrap_err();
    assert_eq!(e.input, "x");
}

fn serialized_value() -> Vec<(String, Vec<String>)> {
    vec![
        ("1".to_owned(), vec!["a".to_owned(), "b".to_owned()]),
        ("2".to_owned(), vec!["c".to_owned(), "d".to_owned()]),
    ]
}

fn deserialized_value() -> Vec<(u64, Vec<String>)> {
    vec![
        (1, vec!["a".to_owned(), "b".to_owned()]),
        (2, vec!["c".to_owned(), "d".to_owned()]),
    ]
}

#[test]
fn deserialize() {
    let actual_value = read_u64_key_map(serialized_value()).unwrap();
    assert_eq!(actual_value, deserialized_value());
}

#[test]
fn serialize() {
    let actual_value = write_u64_key_map(deserialized_value());
    assert_eq!(actual_value, serialized_value());
}

#[test]
fn map_rejects_unparsable_key() {
    let wire = vec![
        ("1".to_owned(), "v1".to_owned()),
        ("two".to_owned(), "v2".to_owned()),
    ];
    match read_u64_key_map(wire) {
        Err(MapKeyError::BadKey(e)) => assert_eq!(e.input, "two"),
        other => panic!("expected a bad-key error, got {:?}", other),
    }
}

#[test]
fn map_rejects_colliding_keys() {
    let wire = vec![
        ("1".to_owned(), "v1".to_owned()),
        ("01".to_owned(), "v2".to_owned()),
    ];
    match read_u64_key_map(wire) {
        Err(MapKeyError::KeyCollision { input, key }) => {
            assert_eq!(input, "01");
            assert_eq!(key, 1);
        },
        other => panic!("expected a key-collision error, got {:?}", other),
    }
}
