use scylla_core::codec::{read_consistency, read_inet, read_value, Consistency, RawValue, TableSpec};
use scylla_core::codec::{read_int, read_short, read_string, write_string, SetKeyspace};
use scylla_core::errors::{
    FrameError, LowLevelDeserializationError, ParseError, SetKeyspaceParseError, TableSpecParseError,
};

fn is_too_few(e: &LowLevelDeserializationError, expected: usize, received: usize) -> bool {
    matches!(e, LowLevelDeserializationError::TooFewBytesReceived { expected: x, received: y } if *x == expected && *y == received)
}

#[test]
fn short_and_int_values() {
    assert_eq!(read_short(&[0x12, 0x34, 0xff], 0).unwrap(), (0x1234, 2));
    assert_eq!(read_short(&[0x00, 0xff, 0xfe], 1).unwrap(), (0xfffe, 3));
    assert_eq!(read_int(&[0, 0, 1, 2], 0).unwrap(), (258, 4));
    assert_eq!(read_int(&[0xff, 0xff, 0xff, 0xfe], 0).unwrap(), (-2, 4));
    assert_eq!(read_int(&[9, 0x80, 0, 0, 0], 1).unwrap(), (i32::MIN, 5));
}

#[test]
fn short_reads_fail_with_too_few_bytes() {
    assert!(is_too_few(&read_short(&[0x12], 0).unwrap_err(), 2, 1));
    assert!(is_too_few(&read_short(&[], 0).unwrap_err(), 2, 0));
    assert!(is_too_few(&read_int(&[1, 2, 3], 0).unwrap_err(), 4, 3));
    assert!(is_too_few(&read_int(&[1, 2, 3, 4, 5], 2).unwrap_err(), 4, 3));
}

#[test]
fn string_reads() {
    let buf = [0, 3, b'a', b'b', b'c', 7];
    let (s, end) = read_string(&buf, 0).unwrap();
    assert_eq!(s, "abc");
    assert_eq!(end, 5);
    assert!(is_too_few(&read_string(&[0, 5, b'a'], 0).unwrap_err(), 5, 1));
    assert!(matches!(
        read_string(&[0, 2, 0xc3, 0x28], 0).unwrap_err(),
        LowLevelDeserializationError::UTF8DeserializationError(_)
    ));
    let (e, end) = read_string(&[0, 0], 0).unwrap();
    assert_eq!(e, "");
    assert_eq!(end, 2);
}

#[test]
fn string_writes() {
    let mut out = vec![9];
    write_string("zé", &mut out).unwrap();
    assert_eq!(out, vec![9, 0, 3, b'z', 0xc3, 0xa9]);
    let long = "x".repeat(70000);
    let mut out2 = vec![];
    assert!(matches!(write_string(&long, &mut out2), Err(ParseError::BadDataToSerialize(_))));
    assert!(out2.is_empty());
}

#[test]
fn set_keyspace_round_trip() {
    for name in ["ks", "", "keyspace_with_a_long_name_1", "ключ"] {
        let body = SetKeyspace { keyspace_name: name.to_string() }.serialize().unwrap();
        let back = SetKeyspace::deserialize(&body).unwrap();
        assert_eq!(back.keyspace_name, name);
    }
}

#[test]
fn set_keyspace_truncated() {
    let body = SetKeyspace { keyspace_name: "ks1".to_string() }.serialize().unwrap();
    assert_eq!(body, vec![0, 3, b'k', b's', b'1']);
    for cut in 0..body.len() {
        let err = SetKeyspace::deserialize(&body[..cut]).unwrap_err();
        match err {
            SetKeyspaceParseError::MalformedKeyspaceName(e) => {
                if cut < 2 {
                    assert!(is_too_few(&e, 2, cut));
                } else {
                    assert!(is_too_few(&e, 3, cut - 2));
                }
            }
            other => panic!("unexpected {:?}", other),
        }
    }
}

#[test]
fn causes_are_found_through_layers() {
    let err = SetKeyspace::deserialize(&[0]).unwrap_err();
    let frame = FrameError::Parse(ParseError::SetKeyspaceParseError(err));
    assert!(frame.low_level_cause().unwrap().is_too_few_bytes());
    let table = FrameError::Parse(ParseError::TableSpecParseError(TableSpecParseError::MalformedTableName(
        LowLevelDeserializationError::InvalidValueLength(-7),
    )));
    assert!(matches!(
        table.low_level_cause(),
        Some(LowLevelDeserializationError::InvalidValueLength(-7))
    ));
    assert!(FrameError::FrameFromClient.low_level_cause().is_none());
    assert!(FrameError::Parse(ParseError::BadIncomingData("x".to_string())).low_level_cause().is_none());
}

#[test]
fn consistency_codes() {
    assert_eq!(read_consistency(&[0, 1], 0).unwrap(), (Consistency::One, 2));
    assert_eq!(read_consistency(&[0, 10], 0).unwrap(), (Consistency::LocalOne, 2));
    assert!(matches!(
        read_consistency(&[0, 11], 0).unwrap_err(),
        LowLevelDeserializationError::UnknownConsistency(11)
    ));
    assert!(is_too_few(&read_consistency(&[0], 0).unwrap_err(), 2, 1));
}

#[test]
fn value_lengths() {
    assert_eq!(read_value(&[0xff, 0xff, 0xff, 0xff], 0).unwrap(), (RawValue::Null, 4));
    assert_eq!(read_value(&[0xff, 0xff, 0xff, 0xfe], 0).unwrap(), (RawValue::Unset, 4));
    assert!(matches!(
        read_value(&[0xff, 0xff, 0xff, 0xfd], 0).unwrap_err(),
        LowLevelDeserializationError::InvalidValueLength(-3)
    ));
    assert_eq!(read_value(&[0, 0, 0, 2, 7, 8, 9], 0).unwrap(), (RawValue::Value(vec![7, 8]), 6));
    assert!(is_too_few(&read_value(&[0, 0, 0, 5, 7], 0).unwrap_err(), 5, 1));
}

#[test]
fn inet_lengths() {
    let (a, end) = read_inet(&[4, 127, 0, 0, 1, 0, 0, 0x23, 0x52], 0).unwrap();
    assert_eq!(a.ip, vec![127, 0, 0, 1]);
    assert_eq!(a.port, 9042);
    assert_eq!(end, 9);
    assert!(matches!(read_inet(&[5, 1, 2, 3, 4, 5], 0).unwrap_err(), LowLevelDeserializationError::InvalidInetLength(5)));
    assert!(is_too_few(&read_inet(&[16, 1, 2], 0).unwrap_err(), 16, 2));
    assert!(is_too_few(&read_inet(&[4, 1, 2, 3, 4, 0], 0).unwrap_err(), 4, 1));
}

#[test]
fn table_spec_names() {
    let buf = [0, 2, b'k', b's', 0, 1, b't'];
    let (spec, end) = TableSpec::deserialize(&buf, 0).unwrap();
    assert_eq!(spec.ks_name, "ks");
    assert_eq!(spec.table_name, "t");
    assert_eq!(end, 7);
    assert!(matches!(
        TableSpec::deserialize(&buf[..5], 0).unwrap_err(),
        TableSpecParseError::MalformedTableName(LowLevelDeserializationError::TooFewBytesReceived { expected: 2, received: 1 })
    ));
    assert!(matches!(
        TableSpec::deserialize(&buf[..3], 0).unwrap_err(),
        TableSpecParseError::MalformedKeyspaceName(LowLevelDeserializationError::TooFewBytesReceived { expected: 2, received: 1 })
    ));
}
