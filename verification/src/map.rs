//! The map composite type.

use vstd::prelude::*;

use crate::model::MapModel;
use crate::model::MapReprModel;
use crate::representation::StringPairs;
use crate::InlineIpldType;

verus! {

/// How a map is represented.
#[derive(Debug, Clone, PartialEq, Eq)]
pub enum MapRepresentation {
    Mapping,
    ListPairs,
    StringPairs(StringPairs),
    Advanced(String),
}

impl MapRepresentation {
    /// Mathematical model of this representation.
    pub open spec fn model(self) -> MapReprModel {
        match self {
            MapRepresentation::Mapping => MapReprModel::Mapping,
            MapRepresentation::ListPairs => MapReprModel::ListPairs,
            MapRepresentation::StringPairs(sp) => MapReprModel::StringPairs(
                sp.inner_delim@,
                sp.entry_delim@,
            ),
            MapRepresentation::Advanced(n) => MapReprModel::Advanced(n@),
        }
    }
}

/// A map type: a named key type, an inline value type, whether values may be
/// null, and the representation.
#[derive(Debug, PartialEq, Eq)]
pub struct MapType {
    /// Name of the key type; always a bare name, never an inline composite.
    pub key: String,
    /// The value type.
    pub value: InlineIpldType,
    /// Whether values may be null.
    pub nullable: bool,
    /// How the map is represented.
    pub repr: MapRepresentation,
}

impl MapType {
    /// Mathematical model of this map type.
    pub open spec fn model(self) -> MapModel
        decreases self,
    {
        MapModel {
            key: self.key@,
            value: self.value.model(),
            nullable: self.nullable,
            repr: self.repr.model(),
        }
    }
}

} // verus!
