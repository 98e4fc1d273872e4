use vstd::prelude::*;

verus! {

/// The recoverable errors of this library, each carrying a human-readable cause.
#[derive(Debug)]
pub enum ArrowError {
    /// An argument does not fit the operation (for example two lengths that must agree).
    InvalidArgumentError(String),
    /// A window or an index falls outside the data it addresses.
    OutOfBounds(String),
    /// Data does not follow the layout that its declared type demands.
    OutOfSpec(String),
}

/// The result type of fallible operations of this library.
pub type Result<T> = core::result::Result<T, ArrowError>;

} // verus!
