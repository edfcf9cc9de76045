//! The conditions under which a query fails.

use vstd::prelude::*;

verus! {

/// Why a query could not be answered. Each condition is final: none of
/// them is retried.
#[derive(Clone, Copy, Debug, PartialEq, Eq, Structural)]
pub enum Error {
    /// The index bytes fit no known index format.
    MalformedIndex,
    /// The region names a reference sequence that the index does not have.
    ReferenceNotFound,
    /// The region string does not follow the region syntax.
    InvalidRegionSyntax,
    /// A block or a record of the stream could not be decoded.
    CorruptStream,
    /// A batch builder was used after it had been finished.
    UseAfterFinish,
    /// The sink of columns took no batch: there was no room for its
    /// columns, or the batch could not be written.
    SinkRefused,
}

impl Error {
    /// A short description of the condition.
    pub fn message(&self) -> (r: &'static str)
        ensures
            r@ == match *self {
                Error::MalformedIndex => "malformed index"@,
                Error::ReferenceNotFound => "reference sequence not found"@,
                Error::InvalidRegionSyntax => "invalid region syntax"@,
                Error::CorruptStream => "corrupt stream"@,
                Error::UseAfterFinish => "use after finish"@,
                Error::SinkRefused => "sink refused the batch"@,
            },
    {
        match self {
            Error::MalformedIndex => "malformed index",
            Error::ReferenceNotFound => "reference sequence not found",
            Error::InvalidRegionSyntax => "invalid region syntax",
            Error::CorruptStream => "corrupt stream",
            Error::UseAfterFinish => "use after finish",
            Error::SinkRefused => "sink refused the batch",
        }
    }
}

} // verus!
