//! Whole-schema parsing tests over multi-declaration sources.

use ipld_schema::enumerate::EnumRepresentation;
use ipld_schema::enumerate::EnumType;
use ipld_schema::list::ListType;
use ipld_schema::map::MapRepresentation;
use ipld_schema::map::MapType;
use ipld_schema::representation::StringPairs;
use ipld_schema::representation::UnitRepresentation;
use ipld_schema::Doc;
use ipld_schema::InlineIpldType;
use ipld_schema::IpldSchema;
use ipld_schema::IpldType;

fn undocumented(ty: IpldType) -> Doc<IpldType> {
    Doc { doc: None, ty }
}

fn documented(doc: &str, ty: IpldType) -> Doc<IpldType> {
    Doc {
        doc: Some(doc.to_string()),
        ty,
    }
}

#[test]
fn primitives() {
    let file = "\
        # This string is documented\n\
        \n\
        # Skipping a line\n\
        type TestString string\n\
        type TestInt int\n\
        type TestLink &Link\n\
        type NullUnit unit representation null\n";
    let parsed_schema = IpldSchema::parse(file).unwrap();
    let expected_schema = IpldSchema(vec![
        (
            "TestString".to_string(),
            documented("This string is documented\nSkipping a line", IpldType::String),
        ),
        ("TestInt".to_string(), undocumented(IpldType::Int)),
        (
            "TestLink".to_string(),
            undocumented(IpldType::Link("Link".to_string())),
        ),
        (
            "NullUnit".to_string(),
            undocumented(IpldType::Unit(UnitRepresentation::Null)),
        ),
    ]);

    assert_eq!(parsed_schema, expected_schema);
}

fn enum_fixture() -> (&'static str, IpldSchema) {
    let file = "\
        # Enum using string representation\n\
        type StatusString enum {\n\
          | Nope (\"Nay\")\n\
          | Yep (\"Yay\")\n\
          # This variant is selfdescribing\n\
          | Maybe\n\
        } representation string\n\
        \n\
        # Enum using integer representation\n\
        type StatusInt enum {\n\
          | Nope (\"0\")\n\
          | Yep (\"1\")\n\
          | Maybe (\"100\")\n\
        } representation int\n";
    let expected = IpldSchema(vec![
        (
            "StatusString".to_string(),
            documented(
                "Enum using string representation",
                IpldType::Enum(EnumType {
                    members: vec![
                        Doc {
                            doc: None,
                            ty: "Nope".to_string(),
                        },
                        Doc {
                            doc: None,
                            ty: "Yep".to_string(),
                        },
                        Doc {
                            doc: Some("This variant is selfdescribing".to_string()),
                            ty: "Maybe".to_string(),
                        },
                    ],
                    representation: EnumRepresentation::String(vec![
                        "Nay".to_string(),
                        "Yay".to_string(),
                        "Maybe".to_string(),
                    ]),
                }),
            ),
        ),
        (
            "StatusInt".to_string(),
            documented(
                "Enum using integer representation",
                IpldType::Enum(EnumType {
                    members: vec![
                        Doc {
                            doc: None,
                            ty: "Nope".to_string(),
                        },
                        Doc {
                            doc: None,
                            ty: "Yep".to_string(),
                        },
                        Doc {
                            doc: None,
                            ty: "Maybe".to_string(),
                        },
                    ],
                    representation: EnumRepresentation::Int(vec![0, 1, 100]),
                }),
            ),
        ),
    ]);
    (file, expected)
}

#[test]
fn enumerate() {
    let (file, expected_schema) = enum_fixture();
    let parsed_schema = IpldSchema::parse(file).unwrap();
    assert_eq!(parsed_schema, expected_schema);
}

#[test]
fn test_enum_parse() {
    let (file, expected_schema) = enum_fixture();
    let parsed_schema = IpldSchema::parse(file).unwrap();
    assert_eq!(parsed_schema, expected_schema);
}

#[test]
fn list() {
    let file = "\
        # A list that is defined using another\n\
        type SimpleList list String\n\
        # A list that is nullable\n\
        type NullableList list nullable String\n\
        # A list of lists\n\
        type ListOfLists list list String\n\
        # A list of links\n\
        type LinkList list &String\n";
    let parsed_schema = IpldSchema::parse(file).unwrap();
    let expected_schema = IpldSchema(vec![
        (
            "SimpleList".to_string(),
            documented(
                "A list that is defined using another",
                IpldType::List(ListType {
                    ty: InlineIpldType::Name("String".to_string()),
                    nullable: false,
                }),
            ),
        ),
        (
            "NullableList".to_string(),
            documented(
                "A list that is nullable",
                IpldType::List(ListType {
                    ty: InlineIpldType::Name("String".to_string()),
                    nullable: true,
                }),
            ),
        ),
        (
            "ListOfLists".to_string(),
            documented(
                "A list of lists",
                IpldType::List(ListType {
                    ty: InlineIpldType::List(Box::new(ListType {
                        ty: InlineIpldType::Name("String".to_string()),
                        nullable: false,
                    })),
                    nullable: false,
                }),
            ),
        ),
        (
            "LinkList".to_string(),
            documented(
                "A list of links",
                IpldType::List(ListType {
                    ty: InlineIpldType::Link("String".to_string()),
                    nullable: false,
                }),
            ),
        ),
    ]);

    assert_eq!(parsed_schema, expected_schema);
}

#[test]
fn map() {
    let file = "\
        # A simple map that maps one type to another\n\
        type SimpleMap map { Int : Float }\n\
        # A composite type that maps one type to a Link that is also nullable\n\
        type NullableLink map { String : nullable &Any }\n\
        # A composite map that is internally rerpesented as a pair of lists\n\
        type MapOfLists map { String : list nullable Bool } representation listpairs\n\
        # A map that is represented as a String\n\
        type MountOptions map { String : String } representation stringpairs { innerDelim \"=\" entryDelim \",\" }\n";
    let parsed_schema = IpldSchema::parse(file).unwrap();
    let expected_schema = IpldSchema(vec![
        (
            "SimpleMap".to_string(),
            documented(
                "A simple map that maps one type to another",
                IpldType::Mapping(MapType {
                    key: "Int".to_string(),
                    value: InlineIpldType::Name("Float".to_string()),
                    nullable: false,
                    repr: MapRepresentation::Mapping,
                }),
            ),
        ),
        (
            "NullableLink".to_string(),
            documented(
                "A composite type that maps one type to a Link that is also nullable",
                IpldType::Mapping(MapType {
                    key: "String".to_string(),
                    value: InlineIpldType::Link("Any".to_string()),
                    nullable: true,
                    repr: MapRepresentation::Mapping,
                }),
            ),
        ),
        (
            "MapOfLists".to_string(),
            documented(
                "A composite map that is internally rerpesented as a pair of lists",
                IpldType::Mapping(MapType {
                    key: "String".to_string(),
                    value: InlineIpldType::List(Box::new(ListType {
                        ty: InlineIpldType::Name("Bool".to_string()),
                        nullable: true,
                    })),
                    nullable: false,
                    repr: MapRepresentation::ListPairs,
                }),
            ),
        ),
        (
            "MountOptions".to_string(),
            documented(
                "A map that is represented as a String",
                IpldType::Mapping(MapType {
                    key: "String".to_string(),
                    value: InlineIpldType::Name("String".to_string()),
                    nullable: false,
                    repr: MapRepresentation::StringPairs(StringPairs {
                        inner_delim: "=".to_string(),
                        entry_delim: ",".to_string(),
                    }),
                }),
            ),
        ),
    ]);

    assert_eq!(parsed_schema, expected_schema);
}

#[test]
fn structural() {
    let file = "";
    let parsed_schema = IpldSchema::parse(file).unwrap();
    let expected_schema = IpldSchema(vec![]);

    assert_eq!(parsed_schema, expected_schema);
}
