//! The list composite type.

use vstd::prelude::*;

use crate::model::ListModel;
use crate::InlineIpldType;

verus! {

/// A list type: an inline element type and whether elements may be null.
#[derive(Debug, PartialEq, Eq)]
pub struct ListType {
    /// The element type.
    pub ty: InlineIpldType,
    /// Whether elements may be null.
    pub nullable: bool,
}

impl ListType {
    /// Mathematical model of this list type.
    pub open spec fn model(self) -> ListModel
        decreases self,
    {
        ListModel { ty: self.ty.model(), nullable: self.nullable }
    }
}

} // verus!
