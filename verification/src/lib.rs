//! A typed mapping layer between record values and an ordered, byte-oriented
//! key-value store.
//!
//! A record type declares which of its fields compose the store's lookup key
//! (its key spec); this crate validates that declaration, derives a composite
//! key, and encodes keys and whole records to bytes that the external store
//! persists.  Encoding and decoding are verified inverses, distinct key tuples
//! are proved to encode to distinct bytes, and a write batch accumulates
//! encoded pairs for one atomic submission.
//!
//! The external store itself (open, close, on-disk format) stays outside this
//! crate: callers hand its raw bytes in and take encoded pairs out.

use vstd::prelude::*;

pub mod batch;
pub mod bytes;
pub mod codec;
pub mod derive;
pub mod errors;
pub mod orm;
pub mod store;
pub mod value;

pub use crate::batch::WriteBatch;
pub use crate::derive::{FieldDef, KeyAttr, KeyPlan, TypeData, TypeInput};
pub use crate::errors::{BatchError, DecodeError, EncodeError, StoreError, ValidationError};
pub use crate::orm::RecordDescriptor;
pub use crate::value::{FieldType, FieldValue};

verus! {

/// An encoded key for the store, tagged at the type level with the record
/// type it belongs to.  The tag has no runtime representation: only the raw
/// bytes persist, but a key produced for one record type cannot be passed
/// where a key for another record type is expected.
#[verifier::reject_recursive_types(T)]
pub struct EncodedKey<T> {
    pub inner: Vec<u8>,
    pub phantom: core::marker::PhantomData<T>,
}

impl<T> EncodedKey<T> {
    /// The raw bytes of the key.
    pub fn as_bytes(&self) -> (r: &Vec<u8>)
        ensures
            r@ == self.inner@,
    {
        &self.inner
    }
}

impl<T> From<Vec<u8>> for EncodedKey<T> {
    fn from(inner: Vec<u8>) -> (r: Self)
        ensures
            r.inner@ == inner@,
    {
        EncodedKey { inner, phantom: core::marker::PhantomData }
    }
}

impl<T> vstd::std_specs::convert::FromSpecImpl<Vec<u8>> for EncodedKey<T> {
    open spec fn obeys_from_spec() -> bool {
        true
    }

    open spec fn from_spec(inner: Vec<u8>) -> Self {
        EncodedKey { inner, phantom: core::marker::PhantomData }
    }
}

impl<'a, T> From<&'a [u8]> for EncodedKey<T> {
    fn from(v: &'a [u8]) -> (r: Self)
        ensures
            r.inner@ == v@,
    {
        EncodedKey { inner: vstd::slice::slice_to_vec(v), phantom: core::marker::PhantomData }
    }
}

impl<'a, T> vstd::std_specs::convert::FromSpecImpl<&'a [u8]> for EncodedKey<T> {
    open spec fn obeys_from_spec() -> bool {
        false
    }

    open spec fn from_spec(v: &'a [u8]) -> Self {
        arbitrary()
    }
}

} // verus!
