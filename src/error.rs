use vstd::prelude::*;

verus! {

/// The errors of the commitment scheme.
#[derive(Clone, Copy, Debug, PartialEq, Eq, Structural)]
pub enum KzgError {
    /// A polynomial's degree bounds exceed what the reference string holds,
    /// or a coefficient lies beyond the polynomial's declared bounds.
    DegreeExceeded,
    /// A batch of scalars and a batch of points differ in length.
    LengthMismatch,
    /// A basis index lies beyond the reference string's table.
    OutOfRange,
    /// A reference string's table does not match its declared dimensions.
    InvalidSrs,
    /// A byte string is not the encoding of a curve point or a scalar.
    InvalidEncoding,
}

} // verus!
