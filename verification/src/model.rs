//! Mathematical model of the schema data types.
//!
//! Every executable data type of the library has a counterpart here whose
//! strings are `Seq<char>` and whose vectors are `Seq`, so that contracts can
//! speak about parsed values purely. The `model` functions on the executable
//! types map into these.

use vstd::prelude::*;

verus! {

/// Model of a documented value: an optional doc string and the value itself.
pub struct DocModel<T> {
    pub doc: Option<Seq<char>>,
    pub ty: T,
}

/// Model of an inline type: a type given anonymously inside a composite.
pub enum InlineModel {
    Name(Seq<char>),
    List(Box<ListModel>),
    Mapping(Box<MapModel>),
    Link(Seq<char>),
}

/// Model of a list type.
pub struct ListModel {
    pub ty: InlineModel,
    pub nullable: bool,
}

/// Model of a map representation.
pub enum MapReprModel {
    Mapping,
    ListPairs,
    StringPairs(Seq<char>, Seq<char>),
    Advanced(Seq<char>),
}

/// Model of a map type.
pub struct MapModel {
    pub key: Seq<char>,
    pub value: InlineModel,
    pub nullable: bool,
    pub repr: MapReprModel,
}

/// Model of a struct representation.
pub enum StructReprModel {
    Mapping,
    Tuple,
    ListPairs,
    StringPairs(Seq<char>, Seq<char>),
    Advanced(Seq<char>),
}

/// The map representations are the struct representations without `tuple`;
/// this maps a struct representation onto the map kinds (`tuple`, which a
/// map clause never yields, falls back to the plain map kind).
pub open spec fn to_map_repr(r: StructReprModel) -> MapReprModel {
    match r {
        StructReprModel::Mapping => MapReprModel::Mapping,
        StructReprModel::Tuple => MapReprModel::Mapping,
        StructReprModel::ListPairs => MapReprModel::ListPairs,
        StructReprModel::StringPairs(i, e) => MapReprModel::StringPairs(i, e),
        StructReprModel::Advanced(n) => MapReprModel::Advanced(n),
    }
}

/// Model of one struct field.
pub struct FieldModel {
    pub doc: Option<Seq<char>>,
    pub key: Seq<char>,
    pub value: InlineModel,
    pub optional: bool,
    pub nullable: bool,
    pub rename: Option<Seq<char>>,
    pub implicit: Option<Seq<char>>,
}

/// Model of a struct type.
pub struct StructModel {
    pub fields: Seq<FieldModel>,
    pub repr: StructReprModel,
}

/// Model of an enum representation: the member tags, index-aligned with the
/// member list, all strings or all integers.
pub enum EnumReprModel {
    Str(Seq<Seq<char>>),
    IntRepr(Seq<int>),
}

/// Model of an enum type.
pub struct EnumModel {
    pub members: Seq<DocModel<Seq<char>>>,
    pub representation: EnumReprModel,
}

/// Model of a bytes representation.
pub enum BytesReprModel {
    Bytes,
    Advanced(Seq<char>),
}

/// Model of a unit representation.
pub enum UnitReprModel {
    Null,
    True,
    False,
    EmptyMap,
}

/// Model of a type definition.
pub enum TypeModel {
    Bool,
    String,
    Bytes(BytesReprModel),
    Int,
    Float,
    List(ListModel),
    Mapping(MapModel),
    Link(Seq<char>),
    Struct(StructModel),
    Enum(EnumModel),
    Unit(UnitReprModel),
    Any,
    Copy(Seq<char>),
}

/// Model of a whole schema: the declarations in source order.
pub struct SchemaModel {
    pub defs: Seq<(Seq<char>, DocModel<TypeModel>)>,
}

impl SchemaModel {
    /// No two declarations share a name.
    pub open spec fn names_unique(self) -> bool {
        forall|i: int, j: int|
            0 <= i < j < self.defs.len() ==> self.defs[i].0 != self.defs[j].0
    }
}

/// An enum member tag as written in the source: an integer literal or a
/// string.
pub enum TagModel {
    IntTag(int),
    StrTag(Seq<char>),
}

} // verus!
