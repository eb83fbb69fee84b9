use toi_server::serializer::{
    deserialize_layout, deserialize_str, serialize_layout, serialize_str, ColumnType, Layout,
};

#[test]
fn str_serialize() {
    let serialized = serialize_str(b"foo", 150);
    assert_eq!(serialized.length, 158);
    assert_eq!(serialized.array.len(), 158);
    let result = deserialize_str(&serialized.array).expect("a fixed-size string encodes cleanly");
    assert_eq!(result, b"foo".to_vec());
}

#[test]
fn str_serialize_exact_fit() {
    let serialized = serialize_str(b"abc", 3);
    let result = deserialize_str(&serialized.array).unwrap();
    assert_eq!(result, b"abc".to_vec());
}

#[test]
fn str_serialize_truncates_beyond_size() {
    let serialized = serialize_str(b"abcdef", 4);
    let result = deserialize_str(&serialized.array).unwrap();
    assert_eq!(result, b"abcd".to_vec());
}

#[test]
fn str_length_prefix_is_checked() {
    let mut bytes = serialize_str(b"foo", 10).array;
    bytes.pop();
    assert!(deserialize_str(&bytes).is_none());
    assert!(deserialize_str(&[1, 2, 3]).is_none());
}

#[test]
fn layout_roundtrip() {
    let layouts = [
        Layout { size: 8, optional: false, typ: ColumnType::U64 },
        Layout { size: 1, optional: true, typ: ColumnType::RBool },
        Layout { size: 150, optional: false, typ: ColumnType::Str },
        Layout { size: u64::MAX, optional: true, typ: ColumnType::I32 },
    ];
    for l in layouts {
        let ser = serialize_layout(l);
        assert_eq!(ser.length, 13);
        assert_eq!(deserialize_layout(&ser.array), Some(l));
    }
}

#[test]
fn layout_exact_bytes() {
    let ser = serialize_layout(Layout { size: 1, optional: false, typ: ColumnType::U16 });
    assert_eq!(ser.array, vec![1, 0, 0, 0, 0, 0, 0, 0, 0, 1, 0, 0, 0]);
}

#[test]
fn layout_rejects_malformed() {
    // Wrong length.
    assert!(deserialize_layout(&[0u8; 12]).is_none());
    // A flag byte beyond 0 and 1.
    let mut bytes = serialize_layout(Layout { size: 4, optional: false, typ: ColumnType::U32 }).array;
    bytes[8] = 2;
    assert!(deserialize_layout(&bytes).is_none());
    // An unknown column-type index.
    let mut bytes = serialize_layout(Layout { size: 4, optional: false, typ: ColumnType::U32 }).array;
    bytes[9] = 12;
    assert!(deserialize_layout(&bytes).is_none());
}
