//! The error taxonomy of the mapping layer.
//!
//! Every operation returns exactly one success value or one of these kinds;
//! nothing is retried or silently recovered at this layer.

use vstd::prelude::*;

verus! {

/// A key spec failed validation at registration time.
#[derive(Debug, Clone, PartialEq, Eq)]
pub enum ValidationError {
    /// A declared key field name has no matching field; carries the name.
    UnknownField(String),
    /// The declared key field list is empty (or missing altogether).
    EmptyKeySpec,
    /// The key spec is declared on a shape that is not a struct with fields.
    UnsupportedShape,
}

/// Serialization of a key or a value failed: the given values do not have
/// the shape that the record type declares.
#[derive(Debug, Clone, PartialEq, Eq, Structural)]
pub enum EncodeError {
    /// The values' types do not match the declared field types.
    ShapeMismatch,
}

/// Bytes read back from the store could not be decoded.
#[derive(Debug, Clone, PartialEq, Eq, Structural)]
pub enum DecodeError {
    /// Truncated or structurally invalid input.
    Malformed,
    /// The bytes carry a shape that is not the expected one, for instance
    /// because they were produced for a different record type.
    SchemaMismatch,
}

/// A write batch was used in a way its lifecycle forbids, or was handed a
/// record that does not match its declared shape.
#[derive(Debug, Clone, PartialEq, Eq, Structural)]
pub enum BatchError {
    /// The batch was already submitted; a submitted batch is terminal.
    AlreadySubmitted,
    /// The record's values do not match its declared field shapes.
    ShapeMismatch,
}

/// A failure reported by the external store itself; this layer never
/// constructs one, it only defines the shape in which the caller's store
/// glue reports engine-level failures.
#[derive(Debug, Clone, PartialEq, Eq)]
pub struct StoreError {
    pub message: String,
}

} // verus!
