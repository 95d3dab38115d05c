//! The error taxonomy shared by every table, history and command operation.
//!
//! Every fallible operation in this crate reports one of these kinds.  The
//! variants carry no message text: callers know the operation and its
//! arguments, and user-facing formatting belongs to the shell around the
//! library, not to the data model.

use vstd::prelude::*;

verus! {

/// `std::io::Error` carried by [`IoErrorWithMeta`]; the crate never inspects
/// it, it only stores it for the shell around the library.
#[verifier::external_type_specification]
#[verifier::external_body]
pub struct ExIoError(std::io::Error);

/// Result alias used by every fallible operation of the crate.
pub type CedResult<T> = Result<T, CedError>;

/// The kinds of failure the tabular data model can report.
#[derive(Debug)]
pub enum CedError {
    /// A textual command was empty or malformed.
    CommandError,
    /// An operation was addressed to a page that does not exist, or is not
    /// possible on the addressed page.
    InvalidPageOperation,
    /// A row or column index is at or beyond the respective count.
    OutOfRange,
    /// A name token resolves to no column and is not a valid positional index.
    UnknownColumn,
    /// Text could not be parsed as the target value type, or a value's type
    /// disagrees with a column's declared type.
    TypeMismatch,
    /// A value fails a column limiter's qualification test.
    ConstraintViolation,
    /// A supplied row's value count disagrees with the column count.
    RowLengthMismatch,
    /// A column insertion or rename uses a name that already exists or that
    /// itself parses as an integer.
    DuplicateOrInvalidColumnName,
    /// A limiter's own default fails its pattern or variants, or its pattern
    /// does not compile, or its description has the wrong shape.
    LimiterConstructionError,
    /// An error propagated from the I/O layer around the library.
    IoError(IoErrorWithMeta),
}

impl CedError {
    /// Wrap an I/O error with a short context description.
    pub fn io_error(err: std::io::Error, meta: &str) -> (r: CedError)
        ensures
            r is IoError,
    {
        CedError::IoError(IoErrorWithMeta::new(err, meta))
    }

    /// The kind of this error, as one short line of text.
    pub fn describe(&self) -> (r: String)
        ensures
            r@ == self.spec_describe(),
    {
        match self {
            CedError::CommandError => "ERR : Invalid command call".to_owned(),
            CedError::InvalidPageOperation => "ERR : Invalid page operation".to_owned(),
            CedError::OutOfRange => "ERR : Index out of range".to_owned(),
            CedError::UnknownColumn => "ERR : No such column".to_owned(),
            CedError::TypeMismatch => "ERR : Invalid value type".to_owned(),
            CedError::ConstraintViolation => {
                "ERR : Value doesn't qualify column limiter".to_owned()
            },
            CedError::RowLengthMismatch => "ERR : Invalid row data length".to_owned(),
            CedError::DuplicateOrInvalidColumnName => {
                "ERR : Duplicate or number named column".to_owned()
            },
            CedError::LimiterConstructionError => "ERR : Invalid limiter".to_owned(),
            CedError::IoError(e) => e.describe(),
        }
    }

    /// The line `describe` returns for each error kind.
    pub open spec fn spec_describe(&self) -> Seq<char> {
        match self {
            CedError::CommandError => "ERR : Invalid command call"@,
            CedError::InvalidPageOperation => "ERR : Invalid page operation"@,
            CedError::OutOfRange => "ERR : Index out of range"@,
            CedError::UnknownColumn => "ERR : No such column"@,
            CedError::TypeMismatch => "ERR : Invalid value type"@,
            CedError::ConstraintViolation => "ERR : Value doesn't qualify column limiter"@,
            CedError::RowLengthMismatch => "ERR : Invalid row data length"@,
            CedError::DuplicateOrInvalidColumnName => "ERR : Duplicate or number named column"@,
            CedError::LimiterConstructionError => "ERR : Invalid limiter"@,
            CedError::IoError(e) => e.meta@,
        }
    }
}

/// An I/O error together with a short description of what was being done.
#[derive(Debug)]
pub struct IoErrorWithMeta {
    /// The underlying I/O error, kept only so the shell can report it.
    pub error: std::io::Error,
    /// What the library's caller was doing when the error happened.
    pub meta: String,
}

impl IoErrorWithMeta {
    /// Pair an I/O error with its context description.
    pub fn new(error: std::io::Error, meta: &str) -> (r: IoErrorWithMeta)
        ensures
            r.meta@ == meta@,
    {
        IoErrorWithMeta { error, meta: meta.to_owned() }
    }

    /// The context description this error was created with.
    pub fn describe(&self) -> (r: String)
        ensures
            r@ == self.meta@,
    {
        self.meta.clone()
    }
}

} // verus!
