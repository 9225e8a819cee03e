use vstd::prelude::*;

verus! {

/// Closed set of failure kinds produced by the stream reader, the byte
/// post-processors and the navigation graph.
#[derive(Debug, PartialEq, Eq, Clone)]
#[non_exhaustive]
pub enum KError {
    /// A read ran past the end of the source; carries how many bytes were
    /// asked for and how many were left.
    Eof { requested: usize, available: usize },
    EmptyIterator,
    /// No decoder is registered under the given label.
    UnknownEncoding { name: String },
    MissingRoot,
    /// A back-reference was dereferenced after its target was dropped.
    MissingParent,
    /// A bit read asked for more than 64 bits.
    ReadBitsTooLarge { requested: usize },
    ValidationFailed(ValidationFailedError),
    /// A fixed-contents check read bytes that differ from the expected ones;
    /// carries the bytes that were actually read.
    ValidationNotEqual { actual: Vec<u8> },
    NoTerminatorFound,
    IoError { msg: String },
    BytesDecodingError { msg: String },
    CastError,
    UndecidedEndianness { src_path: String },
}

pub type KResult<T> = Result<T, KError>;

/// Details of a failed validation.
#[derive(Debug, PartialEq, Eq, Clone)]
pub struct ValidationFailedError {
    pub kind: ValidationKind,
    pub src_path: String,
}

#[derive(Debug, PartialEq, Eq, Clone)]
#[non_exhaustive]
pub enum ValidationKind {
    NotEqual,
    LessThan,
    GreaterThan,
    NotAnyOf,
    NotInEnum,
    Expr,
}

/// A user-supplied byte-to-byte decoder for custom process routines.
pub trait CustomDecoder {
    fn decode(&self, bytes: &[u8]) -> Result<Vec<u8>, String>;
}

} // verus!
