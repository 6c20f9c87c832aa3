//! The store adapter's computing half.
//!
//! The external ordered key-value store is opened, read and written outside
//! this crate; these operations prepare what a put hands to it and
//! interpret what a get or an iteration hands back, against one record
//! type's descriptor.  Durability flags and read options pass through to
//! the store unchanged and are not interpreted here.

use vstd::prelude::*;

use crate::codec::{
    encoding_bytes, lemma_decode_encode, lemma_encode_injective, models_wf, spec_decode, types_of,
    views_of,
};
use crate::errors::{DecodeError, EncodeError};
use crate::orm::RecordDescriptor;
use crate::value::{model_wf, type_of, FieldValue, ValueModel};
use crate::EncodedKey;

verus! {

/// Prepare a put: the record's encoded key and encoded value, as the store
/// will persist them.  Succeeds exactly when the record matches its
/// declared shape.
pub fn put_entry<T>(desc: &RecordDescriptor<T>, record: &Vec<FieldValue>) -> (r: Result<
    (EncodedKey<T>, Vec<u8>),
    EncodeError,
>)
    requires
        desc.wf(),
    ensures
        match r {
            Ok(kv) => desc.record_matches(views_of(record@)) && kv.0.inner@ == encoding_bytes(
                desc.key_of(views_of(record@)),
            ) && kv.1@ == encoding_bytes(views_of(record@)),
            Err(e) => e == EncodeError::ShapeMismatch && !desc.record_matches(views_of(record@)),
        },
{
    let key = match desc.key(record) {
        Ok(key) => key,
        Err(e) => {
            return Err(e);
        },
    };
    match desc.encode(record) {
        Ok(value) => Ok((key, value)),
        Err(e) => Err(e),
    }
}

/// Interpret what a get handed back: nothing when the key was absent, the
/// decoded record when present, and a decode failure when the stored bytes
/// do not decode to this record type (treated as data corruption or schema
/// drift, never retried).
pub fn read_record<T>(desc: &RecordDescriptor<T>, fetched: Option<Vec<u8>>) -> (r: Result<
    Option<Vec<FieldValue>>,
    DecodeError,
>)
    requires
        desc.wf(),
    ensures
        match fetched {
            None => r == Ok::<Option<Vec<FieldValue>>, DecodeError>(None),
            Some(b) => match r {
                Ok(o) => o is Some && spec_decode(desc.record_schema(), b@) == Ok::<
                    Seq<ValueModel>,
                    DecodeError,
                >(views_of(o->0@)),
                Err(e) => spec_decode(desc.record_schema(), b@) == Err::<
                    Seq<ValueModel>,
                    DecodeError,
                >(e),
            },
        },
{
    match fetched {
        None => Ok(None),
        Some(bytes) => match desc.decode(&bytes) {
            Ok(record) => Ok(Some(record)),
            Err(e) => Err(e),
        },
    }
}

/// Interpret one entry of an iteration: decode the key against the key
/// shapes and the value against the record shape.
pub fn decode_entry<T>(
    desc: &RecordDescriptor<T>,
    key: &EncodedKey<T>,
    value: &Vec<u8>,
) -> (r: Result<(Vec<FieldValue>, Vec<FieldValue>), DecodeError>)
    requires
        desc.wf(),
    ensures
        match r {
            Ok(kv) => spec_decode(desc.key_schema(), key.inner@) == Ok::<
                Seq<ValueModel>,
                DecodeError,
            >(views_of(kv.0@)) && spec_decode(desc.record_schema(), value@) == Ok::<
                Seq<ValueModel>,
                DecodeError,
            >(views_of(kv.1@)),
            Err(e) => spec_decode(desc.key_schema(), key.inner@) == Err::<
                Seq<ValueModel>,
                DecodeError,
            >(e) || (spec_decode(desc.key_schema(), key.inner@) is Ok && spec_decode(
                desc.record_schema(),
                value@,
            ) == Err::<Seq<ValueModel>, DecodeError>(e)),
        },
{
    let tuple = match desc.decode_key(key) {
        Ok(tuple) => tuple,
        Err(e) => {
            return Err(e);
        },
    };
    match desc.decode(value) {
        Ok(record) => Ok((tuple, record)),
        Err(e) => Err(e),
    }
}

/// Decoding an encoded composite key against its own record type yields
/// the key tuple back.
pub proof fn lemma_key_round_trip<T>(desc: RecordDescriptor<T>, key: Seq<ValueModel>)
    requires
        types_of(key) == desc.key_schema(),
        models_wf(key),
    ensures
        spec_decode(desc.key_schema(), encoding_bytes(key)) == Ok::<Seq<ValueModel>, DecodeError>(
            key,
        ),
{
    lemma_decode_encode(key);
}

/// Decoding an encoded record against its own record type yields the
/// record back.
pub proof fn lemma_record_round_trip<T>(desc: RecordDescriptor<T>, record: Seq<ValueModel>)
    requires
        desc.record_matches(record),
        models_wf(record),
    ensures
        spec_decode(desc.record_schema(), encoding_bytes(record)) == Ok::<
            Seq<ValueModel>,
            DecodeError,
        >(record),
{
    lemma_decode_encode(record);
}

/// Two records of one type whose key fields differ somewhere map to
/// distinct store keys: putting both occupies two entries, and iterating a
/// store that holds records with pairwise distinct key tuples yields one
/// entry per record.
pub proof fn lemma_distinct_keys_distinct_entries<T>(
    desc: RecordDescriptor<T>,
    r1: Seq<ValueModel>,
    r2: Seq<ValueModel>,
)
    requires
        desc.wf(),
        desc.key_schema().len() <= u64::MAX,
        desc.record_matches(r1),
        desc.record_matches(r2),
        models_wf(r1),
        models_wf(r2),
        desc.key_of(r1) != desc.key_of(r2),
    ensures
        encoding_bytes(desc.key_of(r1)) != encoding_bytes(desc.key_of(r2)),
{
    lemma_key_fields_typed(desc, r1);
    lemma_key_fields_typed(desc, r2);
    lemma_encode_injective(desc.key_of(r1), desc.key_of(r2));
}

/// The extracted key fields of a well-shaped record have the declared key
/// shapes and are encodable.
pub proof fn lemma_key_fields_typed<T>(desc: RecordDescriptor<T>, record: Seq<ValueModel>)
    requires
        desc.wf(),
        desc.key_schema().len() <= u64::MAX,
        desc.record_matches(record),
        models_wf(record),
    ensures
        types_of(desc.key_of(record)) == desc.key_schema(),
        models_wf(desc.key_of(record)),
{
    let k = desc.key_of(record);
    assert(types_of(record).len() == record.len());
    assert(crate::derive::field_types(desc.fields@).len() == desc.fields@.len());
    assert(record.len() == desc.fields@.len());
    assert forall|q: int| 0 <= q < k.len() implies type_of(#[trigger] k[q]) == desc.key_schema()[q]
        && model_wf(k[q]) by {
        let idx = desc.plan.indices@[q] as int;
        assert(0 <= idx < desc.fields@.len());
        assert(types_of(record)[idx] == desc.record_schema()[idx]);
        assert(model_wf(record[idx]));
    }
    assert(types_of(k) =~= desc.key_schema());
}

} // verus!
