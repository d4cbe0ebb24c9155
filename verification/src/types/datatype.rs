//! The data type of a property.

use std::str::FromStr;
use vstd::prelude::*;
use vstd::string::*;

use crate::text::same_text;

verus! {

/// The data type of the values of a property.
#[derive(Clone, Copy, Debug, PartialEq, Eq, Structural)]
pub enum Datatype {
    Integer,
    Float,
    Boolean,
    String,
    Enum,
    Color,
}

/// The error of parsing a [`Datatype`] from text that names no data type. It
/// holds the text.
#[derive(Clone, Debug, PartialEq, Eq)]
pub struct ParseDatatypeError(pub String);

impl Datatype {
    /// The name of the data type.
    pub open spec fn text(self) -> Seq<char> {
        match self {
            Datatype::Integer => "integer"@,
            Datatype::Float => "float"@,
            Datatype::Boolean => "boolean"@,
            Datatype::String => "string"@,
            Datatype::Enum => "enum"@,
            Datatype::Color => "color"@,
        }
    }

    /// The data type that the text `s` names, if any.
    pub open spec fn from_text(s: Seq<char>) -> Option<Datatype> {
        if s == "integer"@ {
            Some(Datatype::Integer)
        } else if s == "float"@ {
            Some(Datatype::Float)
        } else if s == "boolean"@ {
            Some(Datatype::Boolean)
        } else if s == "string"@ {
            Some(Datatype::String)
        } else if s == "enum"@ {
            Some(Datatype::Enum)
        } else if s == "color"@ {
            Some(Datatype::Color)
        } else {
            None
        }
    }

    /// The name of the data type.
    pub fn as_str(&self) -> (name: &'static str)
        ensures
            name@ == self.text(),
    {
        match self {
            Self::Integer => "integer",
            Self::Float => "float",
            Self::Boolean => "boolean",
            Self::String => "string",
            Self::Enum => "enum",
            Self::Color => "color",
        }
    }

    /// Parses the name of a data type. Only the six names are accepted, in
    /// lower case.
    pub fn from_str(s: &str) -> (parsed: Result<Datatype, ParseDatatypeError>)
        ensures
            match Datatype::from_text(s@) {
                Some(datatype) => parsed == Ok::<Datatype, ParseDatatypeError>(datatype),
                None => parsed matches Err(e) && e.0@ == s@,
            },
    {
        if same_text(s, "integer") {
            Ok(Self::Integer)
        } else if same_text(s, "float") {
            Ok(Self::Float)
        } else if same_text(s, "boolean") {
            Ok(Self::Boolean)
        } else if same_text(s, "string") {
            Ok(Self::String)
        } else if same_text(s, "enum") {
            Ok(Self::Enum)
        } else if same_text(s, "color") {
            Ok(Self::Color)
        } else {
            Err(ParseDatatypeError(s.to_owned()))
        }
    }
}

impl ParseDatatypeError {
    /// The message of the error.
    pub open spec fn message(self) -> Seq<char> {
        "Invalid datatype '"@ + self.0@ + "'"@
    }

    /// The message of the error.
    pub fn to_string(&self) -> (message: String)
        ensures
            message@ == self.message(),
    {
        "Invalid datatype '".to_owned().concat(self.0.as_str()).concat("'")
    }
}

impl FromStr for Datatype {
    type Err = ParseDatatypeError;

    /// Parses the name of a data type, as [`Datatype::from_str`] does.
    fn from_str(s: &str) -> (parsed: Result<Self, Self::Err>)
        ensures
            match Datatype::from_text(s@) {
                Some(datatype) => parsed == Ok::<Datatype, ParseDatatypeError>(datatype),
                None => parsed matches Err(e) && e.0@ == s@,
            },
    {
        Datatype::from_str(s)
    }
}

/// Parsing accepts the name of every data type, gives that data type back,
/// and accepts nothing else.
pub proof fn lemma_datatype_text_round_trip(datatype: Datatype, s: Seq<char>)
    ensures
        Datatype::from_text(datatype.text()) == Some(datatype),
        Datatype::from_text(s) == Some(datatype) ==> s == datatype.text(),
{
    reveal_strlit("integer");
    reveal_strlit("float");
    reveal_strlit("boolean");
    reveal_strlit("string");
    reveal_strlit("enum");
    reveal_strlit("color");
    assert("integer"@[0] != "float"@[0]);
    assert("enum"@[0] != "integer"@[0]);
    assert("string"@[0] != "color"@[0]);
    assert("boolean"@[0] != "integer"@[0]);
}

} // verus!
