//! The typed mapping layer: a validated record descriptor and the key and
//! value codecs applied through it.
//!
//! A descriptor is registered once per record type by [`derive`], which
//! validates the declared key spec against the record's shape.  The
//! descriptor carries a phantom record-type tag, so keys encoded for one
//! record type cannot be handed to operations of another.

use vstd::prelude::*;

use crate::codec::{
    encode_fields, encoding_bytes, spec_decode, decode_fields, types_match, types_of, views_of,
};
use crate::derive::{
    declared_keys, derive_orm, field_types, is_key_attr, plan_wf, FieldDef, KeyPlan, TypeData,
    TypeInput,
};
use crate::errors::{DecodeError, EncodeError, ValidationError};
use crate::value::{clone_value, FieldType, FieldValue, ValueModel};
use crate::EncodedKey;

verus! {

/// The registered description of one record type: its fields, its
/// synthesized key plan, and its full run of field shapes, tagged with the
/// record type it describes.
#[verifier::reject_recursive_types(T)]
pub struct RecordDescriptor<T> {
    pub fields: Vec<FieldDef>,
    pub plan: KeyPlan,
    pub record_types: Vec<FieldType>,
    pub phantom: core::marker::PhantomData<T>,
}

impl<T> RecordDescriptor<T> {
    /// The descriptor is faithful to its fields: the key plan resolves
    /// every declared key name, and the cached shapes are the fields'.
    pub open spec fn wf(&self) -> bool {
        &&& plan_wf(self.plan, self.fields@)
        &&& self.record_types@ == field_types(self.fields@)
    }

    /// The shapes of a whole record, in field order.
    pub open spec fn record_schema(&self) -> Seq<FieldType> {
        field_types(self.fields@)
    }

    /// The shapes of the composite key, in declared order.
    pub open spec fn key_schema(&self) -> Seq<FieldType> {
        self.plan.types@
    }

    /// The composite key of a record: its key fields' values, in declared
    /// order.
    pub open spec fn key_of(&self, record: Seq<ValueModel>) -> Seq<ValueModel> {
        Seq::new(self.plan.indices@.len(), |k: int| record[self.plan.indices@[k] as int])
    }

    /// Whether a record value matches this record type's shape.
    pub open spec fn record_matches(&self, record: Seq<ValueModel>) -> bool {
        types_of(record) == self.record_schema()
    }

    /// Encode a composite key.  Succeeds exactly when the given values
    /// have the declared key shapes, and then returns their deterministic
    /// byte encoding, tagged with this record type.
    pub fn encode_key(&self, key: &Vec<FieldValue>) -> (r: Result<EncodedKey<T>, EncodeError>)
        ensures
            match r {
                Ok(k) => types_of(views_of(key@)) == self.key_schema() && k.inner@
                    == encoding_bytes(views_of(key@)),
                Err(e) => e == EncodeError::ShapeMismatch && types_of(views_of(key@))
                    != self.key_schema(),
            },
    {
        if types_match(key, &self.plan.types) {
            Ok(EncodedKey::from(encode_fields(key)))
        } else {
            Err(EncodeError::ShapeMismatch)
        }
    }

    /// Decode a composite key against the declared key shapes, as
    /// `spec_decode` describes.
    pub fn decode_key(&self, data: &EncodedKey<T>) -> (r: Result<Vec<FieldValue>, DecodeError>)
        ensures
            match r {
                Ok(vs) => spec_decode(self.key_schema(), data.inner@) == Ok::<
                    Seq<ValueModel>,
                    DecodeError,
                >(views_of(vs@)),
                Err(e) => spec_decode(self.key_schema(), data.inner@) == Err::<
                    Seq<ValueModel>,
                    DecodeError,
                >(e),
            },
    {
        decode_fields(&self.plan.types, &data.inner)
    }

    /// The derived accessor: extract a record's key fields, in declared
    /// order, and encode them.  Succeeds exactly when the record matches
    /// this record type's shape.
    pub fn key(&self, record: &Vec<FieldValue>) -> (r: Result<EncodedKey<T>, EncodeError>)
        requires
            self.wf(),
        ensures
            match r {
                Ok(k) => self.record_matches(views_of(record@)) && k.inner@ == encoding_bytes(
                    self.key_of(views_of(record@)),
                ),
                Err(e) => e == EncodeError::ShapeMismatch && !self.record_matches(
                    views_of(record@),
                ),
            },
    {
        if !types_match(record, &self.record_types) {
            return Err(EncodeError::ShapeMismatch);
        }
        let n = self.plan.indices.len();
        let mut tuple: Vec<FieldValue> = Vec::new();
        let mut k: usize = 0;
        while k < n
            invariant
                k <= n,
                n == self.plan.indices@.len(),
                self.wf(),
                types_of(views_of(record@)) == self.record_schema(),
                tuple@.len() == k,
                forall|q: int|
                    0 <= q < k ==> #[trigger] tuple@[q]@ == views_of(record@)[self.plan.indices@[q] as int],
            decreases n - k,
        {
            let idx = self.plan.indices[k];
            proof {
                assert(types_of(views_of(record@)).len() == record@.len());
            }
            tuple.push(clone_value(&record[idx]));
            k = k + 1;
        }
        proof {
            assert(views_of(tuple@) =~= self.key_of(views_of(record@)));
        }
        let bytes = encode_fields(&tuple);
        Ok(EncodedKey::from(bytes))
    }

    /// Encode a whole record.  Succeeds exactly when the record matches
    /// this record type's shape, and then returns its deterministic byte
    /// encoding.
    pub fn encode(&self, record: &Vec<FieldValue>) -> (r: Result<Vec<u8>, EncodeError>)
        requires
            self.wf(),
        ensures
            match r {
                Ok(b) => self.record_matches(views_of(record@)) && b@ == encoding_bytes(
                    views_of(record@),
                ),
                Err(e) => e == EncodeError::ShapeMismatch && !self.record_matches(
                    views_of(record@),
                ),
            },
    {
        if types_match(record, &self.record_types) {
            Ok(encode_fields(record))
        } else {
            Err(EncodeError::ShapeMismatch)
        }
    }

    /// Decode a whole record against this record type's shape, as
    /// `spec_decode` describes.
    pub fn decode(&self, data: &Vec<u8>) -> (r: Result<Vec<FieldValue>, DecodeError>)
        requires
            self.wf(),
        ensures
            match r {
                Ok(vs) => spec_decode(self.record_schema(), data@) == Ok::<
                    Seq<ValueModel>,
                    DecodeError,
                >(views_of(vs@)),
                Err(e) => spec_decode(self.record_schema(), data@) == Err::<
                    Seq<ValueModel>,
                    DecodeError,
                >(e),
            },
    {
        decode_fields(&self.record_types, data)
    }
}

/// Register a record type: validate its described shape and declared key
/// spec, and synthesize its descriptor.  The type parameter is the record
/// type's tag; every key the descriptor encodes carries it.
pub fn derive<T>(input: TypeInput) -> (r: Result<RecordDescriptor<T>, ValidationError>)
    ensures
        match input.data {
            TypeData::Unsupported => r == Err::<RecordDescriptor<T>, ValidationError>(
                ValidationError::UnsupportedShape,
            ),
            TypeData::Struct(fields) => match r {
                Ok(d) => d.wf() && d.fields@ == fields@ && declared_keys(
                    input.attrs@,
                    crate::value::texts_view(d.plan.keys@),
                ),
                Err(e) => match e {
                    ValidationError::EmptyKeySpec => forall|i: int|
                        0 <= i < input.attrs@.len() ==> !is_key_attr(input.attrs@[i]),
                    ValidationError::UnknownField(nm) => (forall|j: int|
                        0 <= j < fields@.len() ==> fields@[j].name@ != nm@) && (exists|
                        names: Seq<Seq<char>>,
                    |
                        #[trigger] declared_keys(input.attrs@, names) && names.contains(nm@)),
                    ValidationError::UnsupportedShape => false,
                },
            },
        },
{
    let plan = match derive_orm(&input) {
        Ok(plan) => plan,
        Err(e) => {
            return Err(e);
        },
    };
    let fields = match input.data {
        TypeData::Struct(fields) => fields,
        TypeData::Unsupported => {
            return Err(ValidationError::UnsupportedShape);
        },
    };
    let n = fields.len();
    let mut record_types: Vec<FieldType> = Vec::new();
    let mut i: usize = 0;
    while i < n
        invariant
            i <= n,
            n == fields@.len(),
            record_types@.len() == i,
            forall|j: int| 0 <= j < i ==> record_types@[j] == fields@[j].ty,
        decreases n - i,
    {
        record_types.push(fields[i].ty);
        i = i + 1;
    }
    proof {
        assert(record_types@ =~= field_types(fields@));
    }
    Ok(RecordDescriptor { fields, plan, record_types, phantom: core::marker::PhantomData })
}

} // verus!
