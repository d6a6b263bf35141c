//! The struct composite type.

use vstd::prelude::*;

use crate::model::FieldModel;
use crate::model::StructModel;
use crate::model::StructReprModel;
use crate::representation::StringPairs;
use crate::Doc;
use crate::InlineIpldType;

verus! {

/// How a struct is represented.
#[derive(Debug, Clone, PartialEq, Eq)]
pub enum StructRepresentation {
    Mapping,
    Tuple,
    ListPairs,
    StringPairs(StringPairs),
    Advanced(String),
}

impl StructRepresentation {
    /// Mathematical model of this representation.
    pub open spec fn model(self) -> StructReprModel {
        match self {
            StructRepresentation::Mapping => StructReprModel::Mapping,
            StructRepresentation::Tuple => StructReprModel::Tuple,
            StructRepresentation::ListPairs => StructReprModel::ListPairs,
            StructRepresentation::StringPairs(sp) => StructReprModel::StringPairs(
                sp.inner_delim@,
                sp.entry_delim@,
            ),
            StructRepresentation::Advanced(n) => StructReprModel::Advanced(n@),
        }
    }
}

/// One field of a struct: a documented key, an inline value type, the
/// `nullable`/`optional` modifiers, and the per-field representation
/// refinements.
#[derive(Debug, PartialEq, Eq)]
pub struct StructField {
    /// Doc comment attached to the field.
    pub doc: Option<String>,
    /// The field key.
    pub key: String,
    /// The value type.
    pub value: InlineIpldType,
    /// Whether the field may be absent.
    pub optional: bool,
    /// Whether the field value may be null.
    pub nullable: bool,
    /// Key under which the field is serialized, if renamed.
    pub rename: Option<String>,
    /// Default value implied when the field is absent.
    pub implicit: Option<String>,
}

impl StructField {
    /// The doc string as a character sequence, if one is attached.
    pub open spec fn doc_view(self) -> Option<Seq<char>> {
        match self.doc {
            Some(d) => Some(d@),
            None => None,
        }
    }

    /// The rename target as a character sequence, if one is given.
    pub open spec fn rename_view(self) -> Option<Seq<char>> {
        match self.rename {
            Some(r) => Some(r@),
            None => None,
        }
    }

    /// The implicit default as a character sequence, if one is given.
    pub open spec fn implicit_view(self) -> Option<Seq<char>> {
        match self.implicit {
            Some(i) => Some(i@),
            None => None,
        }
    }

    /// Mathematical model of this field.
    pub open spec fn model(self) -> FieldModel
        decreases self,
    {
        FieldModel {
            doc: self.doc_view(),
            key: self.key@,
            value: self.value.model(),
            optional: self.optional,
            nullable: self.nullable,
            rename: self.rename_view(),
            implicit: self.implicit_view(),
        }
    }
}

/// A struct type: its fields and its representation.
#[derive(Debug, PartialEq, Eq)]
pub struct StructType {
    /// The fields, in source order.
    pub fields: Vec<StructField>,
    /// How the struct is represented.
    pub repr: StructRepresentation,
}

impl StructType {
    /// Mathematical model of this struct type.
    pub open spec fn model(self) -> StructModel
        decreases self,
    {
        StructModel {
            fields: self.fields@.map_values(|f: StructField| f.model()),
            repr: self.repr.model(),
        }
    }
}

} // verus!
