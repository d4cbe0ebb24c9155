//! The errors that the controller reports.

use vstd::prelude::*;
use vstd::string::*;

verus! {

/// What went wrong.
#[derive(Clone, Copy, Debug, PartialEq, Eq, Structural)]
pub enum ErrorKind {
    /// A topic segment that should name a device, node or property is not a
    /// legal identifier.
    InvalidIdentifier,
    /// The payload of a state attribute names no state.
    InvalidState,
    /// The payload of a data type attribute names no data type.
    InvalidDatatype,
    /// The payload of an extensions attribute does not describe extensions.
    InvalidExtension,
    /// The payload of a numeric or boolean attribute is not such a value.
    InvalidScalar,
    /// The property that should be set cannot be set by a controller.
    PropertyNotSettable,
    /// No device, node or property has the identifier.
    UnknownEntity,
}

/// An error, with the text that caused it: the payload that does not parse,
/// or the identifier that is malformed, names nothing or names a property
/// that cannot be set.
#[derive(Clone, Debug, PartialEq, Eq)]
pub struct Error {
    pub kind: ErrorKind,
    pub input: String,
}

/// What an [`Error`] holds.
pub struct ErrorView {
    pub kind: ErrorKind,
    pub input: Seq<char>,
}

impl View for Error {
    type V = ErrorView;

    open spec fn view(&self) -> ErrorView {
        ErrorView { kind: self.kind, input: self.input@ }
    }
}

/// The view of an optional error.
pub open spec fn opt_error_view(e: Option<Error>) -> Option<ErrorView> {
    match e {
        Some(e) => Some(e@),
        None => None,
    }
}

impl ErrorKind {
    /// The words that introduce the offending text in a message.
    pub open spec fn text(self) -> Seq<char> {
        match self {
            ErrorKind::InvalidIdentifier => "Invalid identifier"@,
            ErrorKind::InvalidState => "Invalid state"@,
            ErrorKind::InvalidDatatype => "Invalid datatype"@,
            ErrorKind::InvalidExtension => "Invalid extension"@,
            ErrorKind::InvalidScalar => "Invalid value"@,
            ErrorKind::PropertyNotSettable => "Property not settable"@,
            ErrorKind::UnknownEntity => "Unknown entity"@,
        }
    }

    /// The words that introduce the offending text in a message.
    pub fn as_str(&self) -> (words: &'static str)
        ensures
            words@ == self.text(),
    {
        match self {
            Self::InvalidIdentifier => "Invalid identifier",
            Self::InvalidState => "Invalid state",
            Self::InvalidDatatype => "Invalid datatype",
            Self::InvalidExtension => "Invalid extension",
            Self::InvalidScalar => "Invalid value",
            Self::PropertyNotSettable => "Property not settable",
            Self::UnknownEntity => "Unknown entity",
        }
    }
}

impl ErrorView {
    /// The message of the error.
    pub open spec fn message(self) -> Seq<char> {
        self.kind.text() + " '"@ + self.input + "'"@
    }
}

impl Error {
    /// An error of the given kind about `input`.
    pub fn new(kind: ErrorKind, input: &str) -> (error: Error)
        ensures
            error@ == (ErrorView { kind, input: input@ }),
    {
        Error { kind, input: input.to_owned() }
    }

    /// The message of the error.
    pub fn to_string(&self) -> (message: String)
        ensures
            message@ == self@.message(),
    {
        self.kind.as_str().to_owned().concat(" '").concat(self.input.as_str()).concat("'")
    }
}

} // verus!
