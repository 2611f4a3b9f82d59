//! An event-sourcing persistence layer: immutable domain events and
//! aggregate snapshots are mapped to and from a schemaless, tagged
//! attribute-value representation, and stored in a key-value table.
//!
//! The encoding/decoding scheme is the heart of the crate: it must be
//! bijective and free of silent data loss, and the proofs here establish
//! exactly that, together with the point-write/point-read semantics of
//! the stores.

use vstd::prelude::*;

pub mod aggregates;
pub mod attr;
pub mod codec;
pub mod decimal;
pub mod events;

verus! {

/// A decode failure: the stored record does not have the expected shape.
#[derive(Debug, Clone, Copy, PartialEq, Eq, Structural)]
pub enum DecodeError {
    /// A required field is absent from the record.
    MissingField,
    /// A field is present but holds the wrong kind of value.
    WrongType,
    /// A numeric field does not parse as an unsigned 64-bit integer.
    NumberParseError,
}

/// A store failure: the key is absent, or the record there does not
/// decode. A connection failure of an outside key-value service is the
/// concern of the code that owns the connection and is propagated there
/// unchanged; it never reaches these variants.
#[derive(Debug, Clone, Copy, PartialEq, Eq, Structural)]
pub enum StoreError {
    /// The read addressed a key with no existing record.
    NotFound,
    /// The record at the key violates the expected shape.
    Decode(DecodeError),
}

} // verus!
