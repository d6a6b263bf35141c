//! Representation clauses shared between several composite types.

use vstd::prelude::*;

use crate::model::BytesReprModel;
use crate::model::UnitReprModel;

verus! {

/// The two delimiters of a stringpairs representation block.
#[derive(Debug, Clone, PartialEq, Eq)]
pub struct StringPairs {
    /// Separates a key from its value inside one entry.
    pub inner_delim: String,
    /// Separates one entry from the next.
    pub entry_delim: String,
}

/// How a `bytes` type is represented.
#[derive(Debug, Clone, PartialEq, Eq)]
pub enum BytesRepresentation {
    Bytes,
    Advanced(String),
}

impl BytesRepresentation {
    /// Mathematical model of this representation.
    pub open spec fn model(self) -> BytesReprModel {
        match self {
            BytesRepresentation::Bytes => BytesReprModel::Bytes,
            BytesRepresentation::Advanced(n) => BytesReprModel::Advanced(n@),
        }
    }
}

/// How a `unit` type is represented.
#[derive(Debug, Clone, Copy, PartialEq, Eq, Structural)]
pub enum UnitRepresentation {
    Null,
    True,
    False,
    EmptyMap,
}

impl UnitRepresentation {
    /// Mathematical model of this representation.
    pub open spec fn model(self) -> UnitReprModel {
        match self {
            UnitRepresentation::Null => UnitReprModel::Null,
            UnitRepresentation::True => UnitReprModel::True,
            UnitRepresentation::False => UnitReprModel::False,
            UnitRepresentation::EmptyMap => UnitReprModel::EmptyMap,
        }
    }
}

} // verus!
