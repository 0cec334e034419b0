use vstd::prelude::*;

verus! {

/// What can go wrong when allocating or releasing a rectangle.
#[derive(Clone, Copy, Debug, PartialEq, Eq, Structural)]
pub enum Error {
    /// A requested dimension is zero or larger than the arena.
    InvalidSize,
    /// No free rectangle can hold the request.
    OutOfSpace,
    /// The rectangle given back is not currently allocated.
    RectangleNotFound,
}

impl Error {
    /// A short human-readable message for the error.
    pub fn message(&self) -> (r: &'static str)
        ensures
            *self == Error::InvalidSize ==> r@ == "Invalid size"@,
            *self == Error::OutOfSpace ==> r@ == "Out of space"@,
            *self == Error::RectangleNotFound ==> r@ == "Rectangle not found"@,
    {
        match self {
            Error::InvalidSize => "Invalid size",
            Error::OutOfSpace => "Out of space",
            Error::RectangleNotFound => "Rectangle not found",
        }
    }
}

} // verus!
