//! Concrete checks of the codec's stated properties: round trips,
//! injectivity, the single-field collapse, cross-type isolation, the error
//! taxonomy, and the batch lifecycle.

use leveldb_orm::codec::encode_single;

use leveldb_orm::store::{decode_entry, put_entry, read_record};
use leveldb_orm::{
    BatchError, DecodeError, EncodedKey, EncodeError, FieldDef, FieldType, FieldValue, KeyAttr,
    TypeData, TypeInput, ValidationError, WriteBatch,
};

struct CommandTag;
struct OtherTag;
struct ThirdTag;

fn command_input() -> TypeInput {
    TypeInput {
        data: TypeData::Struct(vec![
            FieldDef { name: "executable".to_string(), ty: FieldType::Byte },
            FieldDef { name: "args".to_string(), ty: FieldType::TextList },
            FieldDef { name: "current_dir".to_string(), ty: FieldType::OptText },
        ]),
        attrs: vec![KeyAttr {
            path: "leveldb_key".to_string(),
            idents: vec!["executable".to_string(), "args".to_string()],
        }],
    }
}

fn command_record(executable: u8) -> Vec<FieldValue> {
    vec![
        FieldValue::Byte(executable),
        FieldValue::TextList(vec!["arg1".into(), "arg2".into(), "arg3".into()]),
        FieldValue::OptText(Some("\\dir".into())),
    ]
}

#[test]
fn key_round_trip_every_shape() {
    let input = TypeInput {
        data: TypeData::Struct(vec![
            FieldDef { name: "b".to_string(), ty: FieldType::Byte },
            FieldDef { name: "u".to_string(), ty: FieldType::UInt },
            FieldDef { name: "t".to_string(), ty: FieldType::Text },
            FieldDef { name: "l".to_string(), ty: FieldType::TextList },
            FieldDef { name: "o".to_string(), ty: FieldType::OptText },
        ]),
        attrs: vec![KeyAttr {
            path: "leveldb_key".to_string(),
            idents: vec![
                "b".to_string(),
                "u".to_string(),
                "t".to_string(),
                "l".to_string(),
                "o".to_string(),
            ],
        }],
    };
    let desc = leveldb_orm::orm::derive::<CommandTag>(input).unwrap();
    let tuple = vec![
        FieldValue::Byte(0xAB),
        FieldValue::UInt(u64::MAX - 7),
        FieldValue::Text("naïve 日本語".to_string()),
        FieldValue::TextList(vec!["".to_string(), "x".to_string()]),
        FieldValue::OptText(None),
    ];
    let key = desc.encode_key(&tuple).unwrap();
    assert_eq!(desc.decode_key(&key).unwrap(), tuple);
}

#[test]
fn record_round_trip() {
    let desc = leveldb_orm::orm::derive::<CommandTag>(command_input()).unwrap();
    let cmd = command_record(9);
    let bytes = desc.encode(&cmd).unwrap();
    assert_eq!(desc.decode(&bytes).unwrap(), cmd);
}

#[test]
fn distinct_tuples_distinct_bytes() {
    let desc = leveldb_orm::orm::derive::<CommandTag>(command_input()).unwrap();
    let t1 = vec![
        FieldValue::Byte(1),
        FieldValue::TextList(vec!["a".to_string()]),
    ];
    let t2 = vec![
        FieldValue::Byte(2),
        FieldValue::TextList(vec!["a".to_string()]),
    ];
    let t3 = vec![
        FieldValue::Byte(1),
        FieldValue::TextList(vec!["a".to_string(), "b".to_string()]),
    ];
    let k1 = desc.encode_key(&t1).unwrap();
    let k2 = desc.encode_key(&t2).unwrap();
    let k3 = desc.encode_key(&t3).unwrap();
    assert_ne!(k1.inner, k2.inner);
    assert_ne!(k1.inner, k3.inner);
    assert_ne!(k2.inner, k3.inner);
}

#[test]
fn single_field_key_collapses() {
    let input = TypeInput {
        data: TypeData::Struct(vec![
            FieldDef { name: "executable".to_string(), ty: FieldType::Byte },
            FieldDef { name: "args".to_string(), ty: FieldType::TextList },
        ]),
        attrs: vec![KeyAttr {
            path: "leveldb_key".to_string(),
            idents: vec!["executable".to_string()],
        }],
    };
    let desc = leveldb_orm::orm::derive::<CommandTag>(input).unwrap();
    let key = desc.encode_key(&vec![FieldValue::Byte(42)]).unwrap();
    assert_eq!(key.inner, encode_single(&FieldValue::Byte(42)));
}

#[test]
fn exact_bytes_of_an_encoded_key() {
    let input = TypeInput {
        data: TypeData::Struct(vec![
            FieldDef { name: "b".to_string(), ty: FieldType::Byte },
            FieldDef { name: "t".to_string(), ty: FieldType::Text },
        ]),
        attrs: vec![KeyAttr {
            path: "leveldb_key".to_string(),
            idents: vec!["b".to_string(), "t".to_string()],
        }],
    };
    let desc = leveldb_orm::orm::derive::<CommandTag>(input).unwrap();
    let key = desc
        .encode_key(&vec![FieldValue::Byte(7), FieldValue::Text("ab".to_string())])
        .unwrap();
    let expected = vec![
        2, 0, 0, 0, 0, 0, 0, 0, // two key fields
        0, 2, // their shape tags
        7, // the byte payload
        2, 0, 0, 0, 0, 0, 0, 0, 97, 98, // the text payload
    ];
    assert_eq!(key.inner, expected);
}

#[test]
fn exact_bytes_of_an_integer_field() {
    let input = TypeInput {
        data: TypeData::Struct(vec![FieldDef { name: "u".to_string(), ty: FieldType::UInt }]),
        attrs: vec![KeyAttr { path: "leveldb_key".to_string(), idents: vec!["u".to_string()] }],
    };
    let desc = leveldb_orm::orm::derive::<CommandTag>(input).unwrap();
    let key = desc.encode_key(&vec![FieldValue::UInt(0x0102)]).unwrap();
    let expected = vec![1, 0, 0, 0, 0, 0, 0, 0, 1, 2, 1, 0, 0, 0, 0, 0, 0];
    assert_eq!(key.inner, expected);
}

#[test]
fn cross_type_key_is_a_schema_mismatch() {
    let desc_a = leveldb_orm::orm::derive::<CommandTag>(command_input()).unwrap();
    let key_a = desc_a
        .encode_key(&vec![
            FieldValue::Byte(1),
            FieldValue::TextList(vec!["a".to_string()]),
        ])
        .unwrap();

    // Same field count, different shapes.
    let input_b = TypeInput {
        data: TypeData::Struct(vec![
            FieldDef { name: "id".to_string(), ty: FieldType::Byte },
            FieldDef { name: "name".to_string(), ty: FieldType::Text },
        ]),
        attrs: vec![KeyAttr {
            path: "leveldb_key".to_string(),
            idents: vec!["id".to_string(), "name".to_string()],
        }],
    };
    let desc_b = leveldb_orm::orm::derive::<OtherTag>(input_b).unwrap();
    let alien = EncodedKey::<OtherTag>::from(key_a.inner.clone());
    assert_eq!(desc_b.decode_key(&alien), Err(DecodeError::SchemaMismatch));

    // Different field count.
    let input_c = TypeInput {
        data: TypeData::Struct(vec![FieldDef { name: "id".to_string(), ty: FieldType::Byte }]),
        attrs: vec![KeyAttr { path: "leveldb_key".to_string(), idents: vec!["id".to_string()] }],
    };
    let desc_c = leveldb_orm::orm::derive::<ThirdTag>(input_c).unwrap();
    let alien = EncodedKey::<ThirdTag>::from(key_a.inner.clone());
    assert_eq!(desc_c.decode_key(&alien), Err(DecodeError::SchemaMismatch));
}

#[test]
fn validation_errors() {
    let unknown = TypeInput {
        data: TypeData::Struct(vec![FieldDef { name: "id".to_string(), ty: FieldType::Byte }]),
        attrs: vec![KeyAttr {
            path: "leveldb_key".to_string(),
            idents: vec!["id".to_string(), "missing".to_string()],
        }],
    };
    assert_eq!(
        leveldb_orm::orm::derive::<CommandTag>(unknown).err().unwrap(),
        ValidationError::UnknownField("missing".to_string())
    );

    let no_attr = TypeInput {
        data: TypeData::Struct(vec![FieldDef { name: "id".to_string(), ty: FieldType::Byte }]),
        attrs: vec![],
    };
    assert_eq!(
        leveldb_orm::orm::derive::<CommandTag>(no_attr).err().unwrap(),
        ValidationError::EmptyKeySpec
    );

    let empty_attr = TypeInput {
        data: TypeData::Struct(vec![FieldDef { name: "id".to_string(), ty: FieldType::Byte }]),
        attrs: vec![KeyAttr { path: "leveldb_key".to_string(), idents: vec![] }],
    };
    assert_eq!(
        leveldb_orm::orm::derive::<CommandTag>(empty_attr).err().unwrap(),
        ValidationError::EmptyKeySpec
    );

    let wrong_path = TypeInput {
        data: TypeData::Struct(vec![FieldDef { name: "id".to_string(), ty: FieldType::Byte }]),
        attrs: vec![KeyAttr { path: "other".to_string(), idents: vec!["id".to_string()] }],
    };
    assert_eq!(
        leveldb_orm::orm::derive::<CommandTag>(wrong_path).err().unwrap(),
        ValidationError::EmptyKeySpec
    );

    let unsupported = TypeInput {
        data: TypeData::Unsupported,
        attrs: vec![KeyAttr { path: "leveldb_key".to_string(), idents: vec!["id".to_string()] }],
    };
    assert_eq!(
        leveldb_orm::orm::derive::<CommandTag>(unsupported).err().unwrap(),
        ValidationError::UnsupportedShape
    );
}

#[test]
fn shape_mismatch_on_encode() {
    let desc = leveldb_orm::orm::derive::<CommandTag>(command_input()).unwrap();
    // A key tuple with the shapes swapped.
    let bad_tuple = vec![
        FieldValue::TextList(vec!["a".to_string()]),
        FieldValue::Byte(1),
    ];
    assert_eq!(desc.encode_key(&bad_tuple).err(), Some(EncodeError::ShapeMismatch));
    // A record with a missing field.
    let bad_record = vec![FieldValue::Byte(1)];
    assert_eq!(desc.encode(&bad_record), Err(EncodeError::ShapeMismatch));
    assert_eq!(desc.key(&bad_record).err(), Some(EncodeError::ShapeMismatch));
}

#[test]
fn malformed_inputs() {
    let desc = leveldb_orm::orm::derive::<CommandTag>(command_input()).unwrap();
    let cmd = command_record(1);
    let good = desc.encode(&cmd).unwrap();

    // Truncated.
    let mut truncated = good.clone();
    truncated.pop();
    assert_eq!(desc.decode(&truncated), Err(DecodeError::Malformed));

    // Trailing bytes.
    let mut trailing = good.clone();
    trailing.push(0);
    assert_eq!(desc.decode(&trailing), Err(DecodeError::Malformed));

    // Too short for even a count.
    assert_eq!(desc.decode(&vec![1, 2, 3]), Err(DecodeError::Malformed));

    // Invalid UTF-8 inside a text payload.
    let text_input = TypeInput {
        data: TypeData::Struct(vec![FieldDef { name: "t".to_string(), ty: FieldType::Text }]),
        attrs: vec![KeyAttr { path: "leveldb_key".to_string(), idents: vec!["t".to_string()] }],
    };
    let text_desc = leveldb_orm::orm::derive::<OtherTag>(text_input).unwrap();
    let bad_utf8 = vec![
        1, 0, 0, 0, 0, 0, 0, 0, // one field
        2, // a text
        2, 0, 0, 0, 0, 0, 0, 0, 0xFF, 0xFE, // two bytes that are not UTF-8
    ];
    assert_eq!(text_desc.decode(&bad_utf8), Err(DecodeError::Malformed));

    // An option payload whose presence tag is neither absent nor present.
    let opt_input = TypeInput {
        data: TypeData::Struct(vec![FieldDef { name: "o".to_string(), ty: FieldType::OptText }]),
        attrs: vec![KeyAttr { path: "leveldb_key".to_string(), idents: vec!["o".to_string()] }],
    };
    let opt_desc = leveldb_orm::orm::derive::<ThirdTag>(opt_input).unwrap();
    let bad_tag = vec![1, 0, 0, 0, 0, 0, 0, 0, 4, 5];
    assert_eq!(opt_desc.decode(&bad_tag), Err(DecodeError::Malformed));
}

#[test]
fn batch_is_atomic_and_terminal() {
    let desc = leveldb_orm::orm::derive::<CommandTag>(command_input()).unwrap();
    let cmd1 = command_record(1);
    let cmd2 = command_record(2);
    let key1 = desc.key(&cmd1).unwrap();
    let key2 = desc.key(&cmd2).unwrap();

    let mut store: Vec<(Vec<u8>, Vec<u8>)> = Vec::new();

    let mut batch = WriteBatch::<CommandTag>::new();
    batch.put_batch(&desc, &cmd1).unwrap();
    batch.put_batch(&desc, &cmd2).unwrap();

    // Nothing reaches the store while the batch builds.
    assert!(!store.iter().any(|e| e.0 == key1.inner));
    assert!(!store.iter().any(|e| e.0 == key2.inner));

    for (k, v) in batch.submit().unwrap() {
        store.push((k.inner, v));
    }

    // Both entries are present after the one submission.
    assert!(store.iter().any(|e| e.0 == key1.inner));
    assert!(store.iter().any(|e| e.0 == key2.inner));

    // A submitted batch is terminal.
    assert_eq!(batch.submit().err().unwrap(), BatchError::AlreadySubmitted);
    assert_eq!(
        batch.put_batch(&desc, &cmd1).err().unwrap(),
        BatchError::AlreadySubmitted
    );

    // A mis-shaped record is refused while building.
    let mut fresh = WriteBatch::<CommandTag>::new();
    assert_eq!(
        fresh.put_batch(&desc, &vec![FieldValue::Byte(1)]).err().unwrap(),
        BatchError::ShapeMismatch
    );
}

#[test]
fn iteration_yields_every_distinct_record() {
    let desc = leveldb_orm::orm::derive::<CommandTag>(command_input()).unwrap();
    let records = vec![command_record(1), command_record(2), command_record(3)];

    let mut store: Vec<(Vec<u8>, Vec<u8>)> = Vec::new();
    for r in &records {
        let (k, v) = put_entry(&desc, r).unwrap();
        if let Some(e) = store.iter_mut().find(|e| e.0 == k.inner) {
            e.1 = v;
        } else {
            store.push((k.inner, v));
        }
    }
    assert_eq!(store.len(), records.len());

    let mut seen = vec![false; records.len()];
    for (kb, vb) in &store {
        let (_, rec) = decode_entry(&desc, &EncodedKey::from(kb.clone()), vb).unwrap();
        let pos = records.iter().position(|r| *r == rec).unwrap();
        assert!(!seen[pos]);
        seen[pos] = true;
    }
    assert!(seen.iter().all(|s| *s));
}

#[test]
fn get_of_absent_key_is_none() {
    let desc = leveldb_orm::orm::derive::<CommandTag>(command_input()).unwrap();
    assert_eq!(read_record(&desc, None).unwrap(), None);
}
