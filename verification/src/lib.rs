//! Parser for the IPLD schema definition language.
//!
//! The library turns a schema source text into an [`IpldSchema`]: an ordered
//! table from type names to documented type definitions. Parsing works on a
//! span-tracking cursor ([`diagnostic::InStr`]); every failure carries one or
//! more labeled source ranges ([`diagnostic::ErrorDiagnose`]).

use vstd::prelude::*;

pub mod diagnostic;
pub mod enumerate;
pub mod error;
pub mod list;
pub mod map;
pub mod model;
pub mod parse;
pub mod representation;
pub mod structural;

pub use diagnostic::ErrorDiagnose;
pub use diagnostic::InStr;
pub use diagnostic::Span;
pub use error::InvalidEnum;
pub use error::IpldConvertError;
pub use error::IpldSchemaParseError;
pub use error::RepresentationParseError;

use crate::enumerate::EnumType;
use crate::list::ListType;
use crate::map::MapType;
use crate::model::DocModel;
use crate::model::InlineModel;
use crate::model::SchemaModel;
use crate::model::TypeModel;
use crate::representation::BytesRepresentation;
use crate::representation::UnitRepresentation;
use crate::structural::StructType;

verus! {

/// The recursive-descent schema grammar. The type itself carries no state;
/// it names the parser that the grammar functions make up.
#[derive(Debug, Clone, Copy, PartialEq, Eq, Structural)]
pub struct SchemaParser;

/// A value together with the doc comment that immediately preceded it.
#[derive(Debug, Clone, PartialEq, Eq)]
pub struct Doc<T> {
    /// The attached documentation, newline-joined and trimmed per line.
    pub doc: Option<String>,
    /// The documented value.
    pub ty: T,
}

impl<T> Doc<T> {
    /// The doc string as a character sequence, if one is attached.
    pub open spec fn doc_view(self) -> Option<Seq<char>> {
        match self.doc {
            Some(d) => Some(d@),
            None => None,
        }
    }
}

/// A type definition of the schema language.
#[derive(Debug, PartialEq, Eq)]
pub enum IpldType {
    Bool,
    String,
    Bytes(BytesRepresentation),
    Int,
    Float,
    List(ListType),
    Mapping(MapType),
    Link(String),
    Struct(StructType),
    Enum(EnumType),
    Unit(UnitRepresentation),
    Any,
    Copy(String),
}

impl IpldType {
    /// Mathematical model of this type definition.
    pub open spec fn model(self) -> TypeModel
        decreases self,
    {
        match self {
            IpldType::Bool => TypeModel::Bool,
            IpldType::String => TypeModel::String,
            IpldType::Bytes(r) => TypeModel::Bytes(r.model()),
            IpldType::Int => TypeModel::Int,
            IpldType::Float => TypeModel::Float,
            IpldType::List(l) => TypeModel::List(l.model()),
            IpldType::Mapping(m) => TypeModel::Mapping(m.model()),
            IpldType::Link(n) => TypeModel::Link(n@),
            IpldType::Struct(s) => TypeModel::Struct(s.model()),
            IpldType::Enum(e) => TypeModel::Enum(e.model()),
            IpldType::Unit(u) => TypeModel::Unit(u.model()),
            IpldType::Any => TypeModel::Any,
            IpldType::Copy(n) => TypeModel::Copy(n@),
        }
    }
}

/// A type given anonymously inside a composite: a list element or a map
/// value.
#[derive(Debug, PartialEq, Eq)]
pub enum InlineIpldType {
    Name(String),
    List(Box<ListType>),
    Mapping(Box<MapType>),
    Link(String),
}

impl InlineIpldType {
    /// Mathematical model of this inline type.
    pub open spec fn model(self) -> InlineModel
        decreases self,
    {
        match self {
            InlineIpldType::Name(n) => InlineModel::Name(n@),
            InlineIpldType::List(l) => InlineModel::List(Box::new((*l).model())),
            InlineIpldType::Mapping(m) => InlineModel::Mapping(Box::new((*m).model())),
            InlineIpldType::Link(n) => InlineModel::Link(n@),
        }
    }
}

/// A parsed schema: the ordered table from each declared type name to its
/// documented definition.
#[derive(Debug, PartialEq, Eq)]
pub struct IpldSchema(pub Vec<(String, Doc<IpldType>)>);

impl IpldSchema {
    /// Mathematical model of the schema: the declarations in order.
    pub open spec fn model(self) -> SchemaModel {
        SchemaModel {
            defs: self.0@.map_values(
                |d: (String, Doc<IpldType>)|
                    (d.0@, DocModel { doc: d.1.doc_view(), ty: d.1.ty.model() }),
            ),
        }
    }
}

} // verus!
