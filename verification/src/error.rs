//! The error kinds the library reports. All validation is eager: a
//! constructor or the package assembly either returns a fully formed value
//! or one of these errors; no partial output is produced.

use vstd::prelude::*;

verus! {

/// Why a construction or a package build was rejected.
#[derive(Debug, Clone, PartialEq, Eq)]
pub enum Error {
    /// A note's field-value count mismatches its model's field count.
    InvalidFieldCount,
    /// Two decks within one package share an id, or two models with
    /// differing content do.
    DuplicateId,
    /// A model referenced by a note has zero templates.
    EmptyTemplateSet,
    /// An archive or database sink failed; raised by the embedding sink,
    /// never by the assembly itself.
    IoFailure,
    /// A field value cannot be represented in the schema's text encoding:
    /// it contains the unit separator the schema joins field values with.
    EncodingFailure,
}

impl Error {
    /// A short description of the error, for callers that want a message.
    pub fn message(&self) -> (r: &'static str)
        ensures
            r@ == self.spec_message(),
    {
        match self {
            Error::InvalidFieldCount => "field value count does not match the model's field count",
            Error::DuplicateId => "two decks or two differing models share the same id",
            Error::EmptyTemplateSet => "a model has no templates",
            Error::IoFailure => "the archive or database sink failed",
            Error::EncodingFailure => "a field value cannot be encoded for the schema",
        }
    }

    /// What `message` returns for each variant.
    pub open spec fn spec_message(&self) -> Seq<char> {
        match self {
            Error::InvalidFieldCount => "field value count does not match the model's field count"@,
            Error::DuplicateId => "two decks or two differing models share the same id"@,
            Error::EmptyTemplateSet => "a model has no templates"@,
            Error::IoFailure => "the archive or database sink failed"@,
            Error::EncodingFailure => "a field value cannot be encoded for the schema"@,
        }
    }
}

} // verus!
