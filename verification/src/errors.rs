//! Error values reported by the library.
//!
//! All failures are recoverable and are returned to the caller as explicit
//! values; no operation of this crate aborts the process.
use vstd::prelude::*;

verus! {

/// The ways a point-cloud or transform operation can fail.
#[derive(Clone, Copy, Debug, PartialEq, Eq, Structural)]
pub enum PclError {
    /// Matrix data did not conform to the required 4x4 shape, or a column's
    /// length diverged from the container's length. The payload is the
    /// offending shape (rows, then columns).
    ShapeError { rows: usize, cols: usize },
    /// An indexed access was out of range: `index` was not below `len`.
    IndexError { index: usize, len: usize },
    /// A bulk attribute column did not match the container's current length:
    /// `expected` points were stored but `got` values were supplied.
    SchemaMismatch { expected: usize, got: usize },
    /// An attribute installation named one of the fixed attributes (the
    /// coordinates, the color channels, intensity or classification). Those
    /// are not extension attributes: shadowing them would report the same
    /// name twice and make the schema ambiguous, so the name is refused.
    ReservedName,
}

} // verus!
