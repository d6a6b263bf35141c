//! Scenario tests for the documented behavior: determinism, name validity,
//! enum tag consistency, stringpairs key checking, doc attachment, and the
//! error taxonomy.

use ipld_schema::diagnostic::InStr;
use ipld_schema::error::IpldSchemaParseError;
use ipld_schema::list::ListType;
use ipld_schema::parse::parse_name;
use ipld_schema::parse::parse_type_declaration;
use ipld_schema::structural::StructField;
use ipld_schema::structural::StructRepresentation;
use ipld_schema::structural::StructType;
use ipld_schema::Doc;
use ipld_schema::InlineIpldType;
use ipld_schema::IpldSchema;
use ipld_schema::IpldType;

#[test]
fn deterministic_parsing() {
    let file = "\
        # A documented flag\n\
        type Flag bool\n\
        type Options map { String : String } representation stringpairs { innerDelim \"=\" entryDelim \",\" }\n";
    let first = IpldSchema::parse(file).unwrap();
    let second = IpldSchema::parse(file).unwrap();
    assert_eq!(first, second);
}

#[test]
fn name_must_start_uppercase() {
    let bad = IpldSchema::parse("type lowercase bool");
    assert!(bad.is_err());
    let d = bad.unwrap_err();
    assert!(matches!(
        d.errors[0].inner,
        IpldSchemaParseError::InvalidTypeName
    ));

    // A bad leading character is turned away without consuming input.
    let cur = InStr::new("9Name");
    assert!(parse_name(cur, true).is_err());
    let ok = parse_name(InStr::new("Name_2 rest"), true).unwrap();
    assert_eq!(ok.1, "Name_2");
}

#[test]
fn enum_tag_kind_must_match_representation() {
    let file = "type StatusBad enum { | A (\"1\") | B (\"x\") } representation int";
    let result = IpldSchema::parse(file);
    assert!(result.is_err());
    let d = result.unwrap_err();
    assert!(matches!(
        d.errors[0].inner,
        IpldSchemaParseError::InvalidEnumMemberTag
    ));
    // The failure is pinned at the first offending member.
    assert_eq!(d.errors[0].start, file.find("| B").unwrap() + 2);
    assert_eq!(
        d.errors[0].hint,
        Some("tag kind does not match declared representation")
    );
}

#[test]
fn enum_string_representation_rejects_int_only_when_mixed() {
    // All-string tags under the string representation succeed.
    let good = "type Status enum { | A (\"x\") | B } representation string";
    assert!(IpldSchema::parse(good).is_ok());
    // An integer tag under the string representation is rejected.
    let bad = "type Status enum { | A (\"1\") | B } representation string";
    let d = IpldSchema::parse(bad).unwrap_err();
    assert!(matches!(
        d.errors[0].inner,
        IpldSchemaParseError::InvalidEnumMemberTag
    ));
    assert_eq!(d.errors[0].start, bad.find('A').unwrap());
}

fn stringpairs_schema(block: &str) -> String {
    format!(
        "type MountOptions map {{ String : String }} representation stringpairs {{ {} }}",
        block
    )
}

#[test]
fn stringpairs_accepts_both_orders() {
    for block in [
        "innerDelim \"=\" entryDelim \",\"",
        "entryDelim \",\" innerDelim \"=\"",
    ] {
        let text = stringpairs_schema(block);
        let schema = IpldSchema::parse(&text).unwrap();
        let (_, def) = &schema.0[0];
        match &def.ty {
            IpldType::Mapping(m) => match &m.repr {
                ipld_schema::map::MapRepresentation::StringPairs(sp) => {
                    assert_eq!(sp.inner_delim, "=");
                    assert_eq!(sp.entry_delim, ",");
                },
                other => panic!("wrong representation: {:?}", other),
            },
            other => panic!("wrong type: {:?}", other),
        }
    }
}

#[test]
fn stringpairs_rejects_bad_key_sets() {
    for block in [
        "innerDelim \"=\"",
        "entryDelim \",\"",
        "innerDelim \"=\" separator \",\"",
        "innerDelim \"=\" innerDelim \",\"",
        "entryDelim \"=\" entryDelim \",\"",
        "",
    ] {
        let text = stringpairs_schema(block);
        let result = IpldSchema::parse(&text);
        assert!(result.is_err(), "accepted bad block: {}", block);
        let d = result.unwrap_err();
        assert!(matches!(
            d.errors[0].inner,
            IpldSchemaParseError::InvalidStringPairs
        ));
    }
}

#[test]
fn doc_attaches_across_blank_space() {
    let file = "# The flag\n\n\ntype Flag bool";
    let schema = IpldSchema::parse(file).unwrap();
    assert_eq!(schema.0[0].1.doc, Some("The flag".to_string()));
}

#[test]
fn trailing_comment_attaches_to_nothing() {
    let file = "type Flag bool\n# An afterthought, attached to no declaration\n";
    let schema = IpldSchema::parse(file).unwrap();
    assert_eq!(schema.0.len(), 1);
    assert_eq!(schema.0[0].1.doc, None);
}

#[test]
fn duplicate_type_names_are_rejected() {
    let file = "type Flag bool\ntype Flag int";
    let d = IpldSchema::parse(file).unwrap_err();
    assert!(matches!(
        d.errors[0].inner,
        IpldSchemaParseError::DuplicateTypeName
    ));
    // The failure points at the second declaration.
    assert_eq!(d.errors[0].start, file.find("\ntype").unwrap() + 1);
}

#[test]
fn unexpected_toplevel_token_is_rejected() {
    let d = IpldSchema::parse("type Flag bool\nbanana").unwrap_err();
    assert!(matches!(
        d.errors[0].inner,
        IpldSchemaParseError::UnexpectedToken
    ));
}

#[test]
fn missing_definition_is_rejected() {
    let d = IpldSchema::parse("type Flag zzz").unwrap_err();
    assert!(matches!(
        d.errors[0].inner,
        IpldSchemaParseError::InvalidTypeDefinition
    ));
}

#[test]
fn bad_unit_representation_is_rejected_with_hint() {
    let file = "type U unit representation maybe";
    let d = IpldSchema::parse(file).unwrap_err();
    assert!(matches!(
        d.errors[0].inner,
        IpldSchemaParseError::InvalidRepresentation
    ));
    assert_eq!(d.errors[0].start, file.find("maybe").unwrap());
    assert_eq!(
        d.errors[0].hint,
        Some("valid unit representations are null, true, false, and emptymap")
    );
}

#[test]
fn struct_fields_modifiers_and_refinements() {
    let file = "\
        type Person struct {\n\
          # The name\n\
          name String\n\
          age nullable optional Int (rename \"Age\" implicit \"0\")\n\
          friends list &Person\n\
        } representation tuple";
    let schema = IpldSchema::parse(file).unwrap();
    let expected = IpldType::Struct(StructType {
        fields: vec![
            StructField {
                doc: Some("The name".to_string()),
                key: "name".to_string(),
                value: InlineIpldType::Name("String".to_string()),
                optional: false,
                nullable: false,
                rename: None,
                implicit: None,
            },
            StructField {
                doc: None,
                key: "age".to_string(),
                value: InlineIpldType::Name("Int".to_string()),
                optional: true,
                nullable: true,
                rename: Some("Age".to_string()),
                implicit: Some("0".to_string()),
            },
            StructField {
                doc: None,
                key: "friends".to_string(),
                value: InlineIpldType::List(Box::new(ListType {
                    ty: InlineIpldType::Link("Person".to_string()),
                    nullable: false,
                })),
                optional: false,
                nullable: false,
                rename: None,
                implicit: None,
            },
        ],
        repr: StructRepresentation::Tuple,
    });
    assert_eq!(schema.0[0].0, "Person");
    assert_eq!(schema.0[0].1, Doc { doc: None, ty: expected });
}

#[test]
fn map_rejects_tuple_representation() {
    let d = IpldSchema::parse("type M map { String : Int } representation tuple").unwrap_err();
    assert!(matches!(
        d.errors[0].inner,
        IpldSchemaParseError::InvalidRepresentation
    ));
}

#[test]
fn copy_definition() {
    let decl = parse_type_declaration(InStr::new("type Alias = Original")).unwrap().1;
    assert_eq!(decl.0, "Alias");
    assert_eq!(decl.1.ty, IpldType::Copy("Original".to_string()));
}

#[test]
fn enum_members_default_to_their_names_as_string_tags() {
    let file = "\
        # Enum using string representation\n\
        type StatusString enum {\n\
          | Nope\n\
          | Yep\n\
          | Maybe\n\
        } representation string";
    let schema = IpldSchema::parse(file).unwrap();
    assert_eq!(schema.0[0].0, "StatusString");
    let def = &schema.0[0].1;
    assert_eq!(def.doc, Some("Enum using string representation".to_string()));
    match &def.ty {
        IpldType::Enum(e) => {
            let names: Vec<&str> = e.members.iter().map(|m| m.ty.as_str()).collect();
            assert_eq!(names, vec!["Nope", "Yep", "Maybe"]);
            match &e.representation {
                ipld_schema::enumerate::EnumRepresentation::String(tags) => {
                    assert_eq!(tags, &vec![
                        "Nope".to_string(),
                        "Yep".to_string(),
                        "Maybe".to_string()
                    ]);
                },
                other => panic!("wrong representation: {:?}", other),
            }
        },
        other => panic!("wrong type: {:?}", other),
    }
}

#[test]
fn enum_int_tags_cover_extremes() {
    let file = "type E enum { | A (\"-170141183460469231731687303715884105728\") | B (\"170141183460469231731687303715884105727\") } representation int";
    let schema = IpldSchema::parse(file).unwrap();
    match &schema.0[0].1.ty {
        IpldType::Enum(e) => match &e.representation {
            ipld_schema::enumerate::EnumRepresentation::Int(tags) => {
                assert_eq!(tags[0], i128::MIN);
                assert_eq!(tags[1], i128::MAX);
            },
            other => panic!("wrong representation: {:?}", other),
        },
        other => panic!("wrong type: {:?}", other),
    }
}

#[test]
fn overlong_int_tag_is_rejected() {
    // One digit past the largest 128-bit signed value: the tag cannot be an
    // integer literal, and as a tag it is not a name either, so the member
    // list ends early and the definition is rejected.
    let file = "type E enum { | A (\"170141183460469231731687303715884105728\") } representation int";
    assert!(IpldSchema::parse(file).is_err());
}

#[test]
fn unit_requires_representation() {
    assert!(IpldSchema::parse("type U unit").is_err());
}

#[test]
fn bytes_defaults_to_plain_representation() {
    let schema = IpldSchema::parse("type B bytes").unwrap();
    assert_eq!(
        schema.0[0].1.ty,
        IpldType::Bytes(ipld_schema::representation::BytesRepresentation::Bytes)
    );
}

#[test]
fn unit_representation_variants() {
    for (text, expected) in [
        (
            "type U unit representation null",
            ipld_schema::representation::UnitRepresentation::Null,
        ),
        (
            "type U unit representation true",
            ipld_schema::representation::UnitRepresentation::True,
        ),
        (
            "type U unit representation false",
            ipld_schema::representation::UnitRepresentation::False,
        ),
        (
            "type U unit representation emptymap",
            ipld_schema::representation::UnitRepresentation::EmptyMap,
        ),
    ] {
        let schema = IpldSchema::parse(text).unwrap();
        assert_eq!(schema.0[0].1.ty, IpldType::Unit(expected));
    }
}

#[test]
fn advanced_representations() {
    let b = IpldSchema::parse("type B bytes representation bytes").unwrap();
    assert_eq!(
        b.0[0].1.ty,
        IpldType::Bytes(ipld_schema::representation::BytesRepresentation::Bytes)
    );

    let m = IpldSchema::parse("type M map { String : Int } representation advanced Adv").unwrap();
    match &m.0[0].1.ty {
        IpldType::Mapping(mt) => assert_eq!(
            mt.repr,
            ipld_schema::map::MapRepresentation::Advanced("Adv".to_string())
        ),
        other => panic!("wrong type: {:?}", other),
    }

    let s = IpldSchema::parse("type S struct {\na Int\n} representation advanced Adv").unwrap();
    match &s.0[0].1.ty {
        IpldType::Struct(st) => assert_eq!(
            st.repr,
            StructRepresentation::Advanced("Adv".to_string())
        ),
        other => panic!("wrong type: {:?}", other),
    }
}

#[test]
fn error_messages_name_their_kind() {
    assert!(IpldSchemaParseError::InvalidStringPairs
        .message()
        .contains("stringpairs"));
    assert!(ipld_schema::error::RepresentationParseError::StringPair
        .message()
        .contains("invalid"));
    assert!(ipld_schema::error::InvalidEnum::InvalidRepresentation("zzz".to_string())
        .message()
        .contains("zzz"));
    assert!(
        ipld_schema::error::IpldConvertError::IntegerRangeError("u8").message().contains("u8")
    );
}

#[test]
fn finalize_reports_leftover_text() {
    let (rest, _) = parse_type_declaration(InStr::new("type Flag bool junk")).unwrap();
    let finalized = rest.finalize(IpldSchemaParseError::UnexpectedToken, "leftover input");
    assert!(finalized.is_err());
    let empty = InStr::new("");
    assert!(empty.finalize(IpldSchemaParseError::UnexpectedToken, "leftover input").is_ok());
}
