//! Error taxonomy of the schema parser.
//!
//! The kinds follow the failure classes of the grammar: lexical (token or
//! keyword not found), representation (unsupported representation token or a
//! bad stringpairs key set), semantic (well-formed but inconsistent, such as
//! an enum member tag that contradicts the declared representation), and
//! structural (input ended or trailed off mid-construct), with a
//! default-constructed fallback for anything unclassified.

use vstd::prelude::*;

verus! {

/// Why a schema text was rejected. Carried inside every labeled span of an
/// `ErrorDiagnose`.
#[derive(Debug, Clone, Copy, PartialEq, Eq, Structural)]
pub enum IpldSchemaParseError {
    /// A comment block was expected but not found.
    InvalidComment,
    /// A type name did not start with an uppercase ASCII letter, or was empty.
    InvalidTypeName,
    /// No type definition could be recognized after the name.
    InvalidTypeDefinition,
    /// A representation clause carried a token outside its closed vocabulary.
    InvalidRepresentation,
    /// A stringpairs block had a missing, duplicate, or unknown key.
    InvalidStringPairs,
    /// An enum member tag contradicts the declared enum representation.
    InvalidEnumMemberTag,
    /// Two top-level declarations share one type name.
    DuplicateTypeName,
    /// Top-level text that is neither a comment, a declaration, nor the end.
    UnexpectedToken,
    /// Fallback for unclassified low-level failures.
    Unknown,
}

impl Default for IpldSchemaParseError {
    fn default() -> (r: Self)
        ensures
            r == IpldSchemaParseError::Unknown,
    {
        IpldSchemaParseError::Unknown
    }
}

impl IpldSchemaParseError {
    /// One-line human-readable description, for rendering a diagnostic.
    pub fn message(&self) -> String {
        match self {
            IpldSchemaParseError::InvalidComment => String::from_str("expected a comment block"),
            IpldSchemaParseError::InvalidTypeName => String::from_str(
                "type names start with an uppercase ASCII letter followed by alphanumerics or underscores",
            ),
            IpldSchemaParseError::InvalidTypeDefinition => String::from_str(
                "expected a type definition",
            ),
            IpldSchemaParseError::InvalidRepresentation => String::from_str(
                "representation is invalid",
            ),
            IpldSchemaParseError::InvalidStringPairs => String::from_str(
                "stringpairs representation fields are invalid",
            ),
            IpldSchemaParseError::InvalidEnumMemberTag => String::from_str(
                "enum member tag does not match representation",
            ),
            IpldSchemaParseError::DuplicateTypeName => String::from_str(
                "a type with this name was already declared",
            ),
            IpldSchemaParseError::UnexpectedToken => String::from_str(
                "expected a comment or a type declaration",
            ),
            IpldSchemaParseError::Unknown => String::from_str("unknown error"),
        }
    }
}

/// Why an enum definition was rejected during cross-field validation.
#[derive(Debug, Clone, PartialEq, Eq)]
pub enum InvalidEnum {
    /// The representation clause carried something other than `int` or `string`.
    InvalidRepresentation(String),
    /// A member tag kind disagrees with the declared representation kind.
    InvalidMemberTag,
}

impl InvalidEnum {
    /// One-line human-readable description, for rendering a diagnostic.
    pub fn message(&self) -> String {
        match self {
            InvalidEnum::InvalidRepresentation(found) => {
                let mut m = String::from_str(
                    "enum representation must either be \"int\" or \"string\", found \"",
                );
                m.append(found.as_str());
                m.append("\"");
                m
            },
            InvalidEnum::InvalidMemberTag => String::from_str(
                "enum member tag does not match representation",
            ),
        }
    }
}

/// Why a representation clause was rejected.
#[derive(Debug, Clone, Copy, PartialEq, Eq, Structural)]
pub enum RepresentationParseError {
    /// A stringpairs block had a missing, duplicate, or unknown key.
    StringPair,
    /// The representation token is outside the accepted vocabulary.
    Invalid,
}

impl Default for RepresentationParseError {
    fn default() -> (r: Self)
        ensures
            r == RepresentationParseError::Invalid,
    {
        RepresentationParseError::Invalid
    }
}

impl RepresentationParseError {
    /// One-line human-readable description, for rendering a diagnostic.
    pub fn message(&self) -> String {
        match self {
            RepresentationParseError::StringPair => String::from_str(
                "stringpair representation fields are invalid",
            ),
            RepresentationParseError::Invalid => String::from_str("representation is invalid"),
        }
    }
}

/// Why a schemaless data value could not be converted to a native type.
#[derive(Debug, Clone, PartialEq, Eq)]
pub enum IpldConvertError {
    /// Expected a value of the named kind but found the described one.
    InvalidType(&'static str, String),
    /// The encoded integer value does not fit into the named native type.
    IntegerRangeError(&'static str),
}

impl IpldConvertError {
    /// One-line human-readable description.
    pub fn message(&self) -> String {
        match self {
            IpldConvertError::InvalidType(expected, found) => {
                let mut m = String::from_str("expected a value of type ");
                m.append(expected);
                m.append(" but this is a ");
                m.append(found.as_str());
                m
            },
            IpldConvertError::IntegerRangeError(ty) => {
                let mut m = String::from_str(
                    "the encoded IPLD integer value does not fit into a ",
                );
                m.append(ty);
                m
            },
        }
    }
}

} // verus!
