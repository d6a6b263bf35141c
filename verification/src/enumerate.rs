//! The enum composite type.

use vstd::prelude::*;

use crate::model::DocModel;
use crate::model::EnumModel;
use crate::model::EnumReprModel;
use crate::Doc;

verus! {

/// How an enum is represented: by string tags or by integer tags, one per
/// member and index-aligned with the member list.
#[derive(Debug, Clone, PartialEq, Eq)]
pub enum EnumRepresentation {
    String(Vec<String>),
    Int(Vec<i128>),
}

impl EnumRepresentation {
    /// Mathematical model of this representation.
    pub open spec fn model(self) -> EnumReprModel {
        match self {
            EnumRepresentation::String(tags) => EnumReprModel::Str(
                tags@.map_values(|t: String| t@),
            ),
            EnumRepresentation::Int(tags) => EnumReprModel::IntRepr(
                tags@.map_values(|t: i128| t as int),
            ),
        }
    }

    /// Number of tags carried.
    pub open spec fn tag_count(self) -> nat {
        match self {
            EnumRepresentation::String(tags) => tags@.len(),
            EnumRepresentation::Int(tags) => tags@.len(),
        }
    }
}

/// An enum type: its documented members and, index-aligned, their tags.
#[derive(Debug, Clone, PartialEq, Eq)]
pub struct EnumType {
    /// The member names with their doc comments, in source order.
    pub members: Vec<Doc<String>>,
    /// The member tags, one per member.
    pub representation: EnumRepresentation,
}

impl EnumType {
    /// The tag list is index-aligned with the member list.
    pub open spec fn wf(self) -> bool {
        self.representation.tag_count() == self.members@.len()
    }

    /// Mathematical model of this enum type.
    pub open spec fn model(self) -> EnumModel {
        EnumModel {
            members: self.members@.map_values(
                |m: Doc<String>| DocModel { doc: m.doc_view(), ty: m.ty@ },
            ),
            representation: self.representation.model(),
        }
    }
}

} // verus!
