//! The ways in which an operation on the store can fail.

use vstd::prelude::*;

verus! {

/// Why an operation on the store did not succeed.
#[derive(Clone, Copy, Debug, PartialEq, Eq, Structural)]
pub enum StoreError {
    /// The rows found at a location break a constraint of the schema.
    StoreOpen,
    /// A row could not be written.
    Write,
    /// A value could not be read in the type asked for.
    Read,
    /// A rep names a session that does not exist.
    ForeignKey,
    /// A delete matched no row.
    NotFound,
    /// A stored timestamp is not in the expected text form.
    CorruptData,
}

} // verus!
