//! The record used throughout: a command with a byte `executable`, a list
//! of `args`, and an optional `current_dir`, keyed by `(executable, args)`.
//! The external store is stood in for by an in-memory table of raw byte
//! pairs, since only raw bytes ever cross the store boundary.


use leveldb_orm::store::{decode_entry, put_entry, read_record};
use leveldb_orm::{
    EncodedKey, FieldDef, FieldType, FieldValue, KeyAttr, TypeData, TypeInput, WriteBatch,
};

struct CommandTag;

struct FakeStore {
    entries: Vec<(Vec<u8>, Vec<u8>)>,
}

impl FakeStore {
    fn new() -> Self {
        FakeStore { entries: Vec::new() }
    }

    fn put(&mut self, key: Vec<u8>, value: Vec<u8>) {
        for e in self.entries.iter_mut() {
            if e.0 == key {
                e.1 = value;
                return;
            }
        }
        self.entries.push((key, value));
    }

    fn get(&self, key: &[u8]) -> Option<Vec<u8>> {
        self.entries.iter().find(|e| e.0 == key).map(|e| e.1.clone())
    }

    fn delete(&mut self, key: &[u8]) {
        self.entries.retain(|e| e.0 != key);
    }
}

fn command_input() -> TypeInput {
    TypeInput {
        data: TypeData::Struct(vec![
            FieldDef { name: "executable".to_string(), ty: FieldType::Byte },
            FieldDef { name: "args".to_string(), ty: FieldType::TextList },
            FieldDef { name: "current_dir".to_string(), ty: FieldType::OptText },
        ]),
        attrs: vec![KeyAttr {
            path: "leveldb_key".to_string(),
            idents: vec!["executable".to_string(), "args".to_string()],
        }],
    }
}

fn command_args() -> Vec<String> {
    vec!["arg1".into(), "arg2".into(), "arg3".into()]
}

fn command_record() -> Vec<FieldValue> {
    vec![
        FieldValue::Byte(1),
        FieldValue::TextList(command_args()),
        FieldValue::OptText(Some("\\dir".into())),
    ]
}

#[test]
fn t02_methods_test_methods() {
    let desc = leveldb_orm::orm::derive::<CommandTag>(command_input()).unwrap();
    let cmd = command_record();
    let key = desc.key(&cmd).unwrap();

    let mut database = FakeStore::new();

    let (k, v) = put_entry(&desc, &cmd).unwrap();
    database.put(k.inner, v);

    let res = read_record(&desc, database.get(&key.inner)).unwrap();
    assert_eq!(res, Some(cmd.clone()));

    let (kb, vb) = database.entries.first().unwrap();
    let entry = decode_entry(&desc, &EncodedKey::from(kb.clone()), vb).unwrap();
    assert_eq!(
        entry,
        (
            vec![FieldValue::Byte(1), FieldValue::TextList(command_args())],
            cmd.clone()
        )
    );

    database.delete(&key.inner);

    assert!(read_record(&desc, database.get(&key.inner)).unwrap().is_none());
}

#[test]
fn t03_iter_test_methods() {
    let desc = leveldb_orm::orm::derive::<CommandTag>(command_input()).unwrap();
    let cmd = command_record();

    let mut database = FakeStore::new();

    let (k, v) = put_entry(&desc, &cmd).unwrap();
    database.put(k.inner, v);

    let (kb, vb) = database.entries.first().unwrap();
    let entry = decode_entry(&desc, &EncodedKey::from(kb.clone()), vb).unwrap();
    assert_eq!(
        entry,
        (
            vec![FieldValue::Byte(1), FieldValue::TextList(command_args())],
            cmd
        )
    );
}

#[test]
fn test_single_key_field() {
    let input = TypeInput {
        data: TypeData::Struct(vec![
            FieldDef { name: "executable".to_string(), ty: FieldType::Byte },
            FieldDef { name: "args".to_string(), ty: FieldType::TextList },
            FieldDef { name: "current_dir".to_string(), ty: FieldType::OptText },
        ]),
        attrs: vec![KeyAttr {
            path: "leveldb_key".to_string(),
            idents: vec!["executable".to_string()],
        }],
    };
    let desc = leveldb_orm::orm::derive::<CommandTag>(input).unwrap();
    let cmd = command_record();
    let key = desc.key(&cmd).unwrap();

    let mut database = FakeStore::new();

    let (k, v) = put_entry(&desc, &cmd).unwrap();
    database.put(k.inner, v);

    let res = read_record(&desc, database.get(&key.inner)).unwrap();
    assert_eq!(res, Some(cmd.clone()));

    database.delete(&key.inner);

    assert!(read_record(&desc, database.get(&key.inner)).unwrap().is_none());
}

#[test]
fn drive_impl_test_methods() {
    let desc = leveldb_orm::orm::derive::<CommandTag>(command_input()).unwrap();
    let cmd = command_record();
    let key = desc.key(&cmd).unwrap();

    let mut database = FakeStore::new();

    let (k, v) = put_entry(&desc, &cmd).unwrap();
    database.put(k.inner, v);

    let res = read_record(&desc, database.get(&key.inner)).unwrap();
    assert_eq!(res, Some(cmd.clone()));

    database.delete(&key.inner);

    assert!(read_record(&desc, database.get(&key.inner)).unwrap().is_none());

    let mut batch = WriteBatch::<CommandTag>::new();
    batch.put_batch(&desc, &cmd).unwrap();
    for (bk, bv) in batch.submit().unwrap() {
        database.put(bk.inner, bv);
    }

    let (kb, vb) = database.entries.first().unwrap();
    let entry = decode_entry(&desc, &EncodedKey::from(kb.clone()), vb).unwrap();
    assert_eq!(
        entry,
        (
            vec![FieldValue::Byte(1), FieldValue::TextList(command_args())],
            cmd
        )
    );
}

#[test]
fn test_user_impl() {
    let desc = leveldb_orm::orm::derive::<CommandTag>(command_input()).unwrap();
    let cmd = command_record();
    let tuple = vec![FieldValue::Byte(1), FieldValue::TextList(command_args())];
    let key = desc.encode_key(&tuple).unwrap();
    assert_eq!(key.inner, desc.key(&cmd).unwrap().inner);

    let mut database = FakeStore::new();

    let (k, v) = put_entry(&desc, &cmd).unwrap();
    database.put(k.inner, v);

    let res = read_record(&desc, database.get(&key.inner)).unwrap();
    assert_eq!(res, Some(cmd.clone()));

    database.delete(&key.inner);

    assert!(read_record(&desc, database.get(&key.inner)).unwrap().is_none());
}
