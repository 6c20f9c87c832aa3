//! The write-batch composer.
//!
//! A batch accumulates encoded key-value pairs purely in memory, with no
//! interaction with the store, and hands the whole set over in one call for
//! the external store's atomic batch write: all entries become visible
//! together or none do, which the store guarantees, not this layer.  A
//! submitted batch is terminal: further puts or a second submission are
//! errors.

use vstd::prelude::*;

use crate::codec::{encoding_bytes, views_of};
use crate::errors::BatchError;
use crate::orm::RecordDescriptor;
use crate::store::put_entry;
use crate::value::FieldValue;
use crate::EncodedKey;

verus! {

/// A client-side accumulation of pending writes for one record type,
/// submitted to the store atomically.
#[verifier::reject_recursive_types(T)]
pub struct WriteBatch<T> {
    pub entries: Vec<(EncodedKey<T>, Vec<u8>)>,
    pub submitted: bool,
}

impl<T> WriteBatch<T> {
    /// The accumulated entries, as the raw byte pairs the store will
    /// persist, in accumulation order.
    pub open spec fn entries_view(&self) -> Seq<(Seq<u8>, Seq<u8>)> {
        Seq::new(self.entries@.len(), |i: int| (self.entries@[i].0.inner@, self.entries@[i].1@))
    }

    /// Whether the batch still accumulates; a submitted batch is terminal.
    pub open spec fn is_building(&self) -> bool {
        !self.submitted
    }

    /// An empty batch, accumulating.
    pub fn new() -> (r: Self)
        ensures
            r.is_building(),
            r.entries_view() == Seq::<(Seq<u8>, Seq<u8>)>::empty(),
    {
        let r = WriteBatch { entries: Vec::new(), submitted: false };
        proof {
            assert(r.entries_view() =~= Seq::<(Seq<u8>, Seq<u8>)>::empty());
        }
        r
    }

    /// Accumulate one record's encoded put.  The record's key and value
    /// are encoded exactly as a direct put would encode them; nothing
    /// reaches the store.
    pub fn put_batch(&mut self, desc: &RecordDescriptor<T>, record: &Vec<FieldValue>) -> (r:
        Result<(), BatchError>)
        requires
            desc.wf(),
        ensures
            match r {
                Ok(_) => old(self).is_building() && desc.record_matches(views_of(record@))
                    && final(self).is_building() && final(self).entries_view() == old(
                    self,
                ).entries_view() + seq![
                    (
                        encoding_bytes(desc.key_of(views_of(record@))),
                        encoding_bytes(views_of(record@)),
                    ),
                ],
                Err(BatchError::AlreadySubmitted) => !old(self).is_building() && *final(self)
                    == *old(self),
                Err(BatchError::ShapeMismatch) => old(self).is_building() && !desc.record_matches(
                    views_of(record@),
                ) && *final(self) == *old(self),
            },
    {
        if self.submitted {
            return Err(BatchError::AlreadySubmitted);
        }
        match put_entry(desc, record) {
            Ok(kv) => {
                self.entries.push(kv);
                proof {
                    assert(self.entries_view() =~= old(self).entries_view() + seq![
                        (
                            encoding_bytes(desc.key_of(views_of(record@))),
                            encoding_bytes(views_of(record@)),
                        ),
                    ]);
                }
                Ok(())
            },
            Err(_) => Err(BatchError::ShapeMismatch),
        }
    }

    /// Submit: hand every accumulated entry over, in accumulation order,
    /// for the store's atomic batch write, and leave the batch terminal.
    /// All the entries are returned, and none is kept back.
    pub fn submit(&mut self) -> (r: Result<Vec<(EncodedKey<T>, Vec<u8>)>, BatchError>)
        ensures
            match r {
                Ok(out) => old(self).is_building() && out@ == old(self).entries@
                    && !final(self).is_building(),
                Err(e) => e == BatchError::AlreadySubmitted && !old(self).is_building()
                    && *final(self) == *old(self),
            },
    {
        if self.submitted {
            return Err(BatchError::AlreadySubmitted);
        }
        self.submitted = true;
        let mut out: Vec<(EncodedKey<T>, Vec<u8>)> = Vec::new();
        core::mem::swap(&mut out, &mut self.entries);
        Ok(out)
    }
}

} // verus!
