//! Why a contact cannot be turned into a record.

use vstd::prelude::*;
use vstd::string::*;

verus! {

/// Why a contact cannot be turned into a record.
#[derive(Debug)]
pub enum AssemblyError {
    /// Neither `FN` nor `N` gives a display name.
    MissingName,
    /// `VERSION` gives no value, so that no identifier can be derived.
    MissingVersion,
    /// A single-valued tag occurs more than once.
    Cardinality { tag: String },
    /// A single-valued tag occurs without a value.
    MissingValue { tag: String },
}

/// The view of an `AssemblyError`.
pub enum Failure {
    MissingName,
    MissingVersion,
    Cardinality { tag: Seq<char> },
    MissingValue { tag: Seq<char> },
}

impl View for AssemblyError {
    type V = Failure;

    open spec fn view(&self) -> Failure {
        match *self {
            AssemblyError::MissingName => Failure::MissingName,
            AssemblyError::MissingVersion => Failure::MissingVersion,
            AssemblyError::Cardinality { tag } => Failure::Cardinality { tag: tag@ },
            AssemblyError::MissingValue { tag } => Failure::MissingValue { tag: tag@ },
        }
    }
}

/// The message of a failure, for the one who reads the log.
pub open spec fn message_text(failure: Failure) -> Seq<char> {
    match failure {
        Failure::MissingName => "no name in VCard"@,
        Failure::MissingVersion => "no version in VCard"@,
        Failure::Cardinality { tag } => "too many "@ + tag,
        Failure::MissingValue { tag } => "no value for "@ + tag,
    }
}

impl AssemblyError {
    /// The message of this error, which names the tag at fault where there is one.
    pub fn message(&self) -> (text: String)
        ensures
            text@ == message_text(self@),
    {
        match self {
            AssemblyError::MissingName => String::from_str("no name in VCard"),
            AssemblyError::MissingVersion => String::from_str("no version in VCard"),
            AssemblyError::Cardinality { tag } => String::from_str("too many ").concat(tag.as_str()),
            AssemblyError::MissingValue { tag } => String::from_str("no value for ").concat(tag.as_str()),
        }
    }
}

} // verus!
