//! Declaration-level parsing tests.

use ipld_schema::diagnostic::InStr;
use ipld_schema::parse::parse_type_declaration;
use ipld_schema::representation::BytesRepresentation;
use ipld_schema::representation::UnitRepresentation;
use ipld_schema::Doc;
use ipld_schema::IpldType;

#[test]
fn test_bool_declaration_uncommented() {
    let uncommented_bool = "type UncommentedBool bool";
    let expected_result = (
        "UncommentedBool".to_string(),
        Doc {
            doc: None,
            ty: IpldType::Bool,
        },
    );

    assert_eq!(
        parse_type_declaration(InStr::new(uncommented_bool)).unwrap().1,
        expected_result
    );
}

#[test]
fn test_any_declaration_commented() {
    let commented_any = "\
            # This is the documentation of this type\n\
            #  \n\n\
            type Commented_Any any  \n";

    let expected_doc = "This is the documentation of this type\n";
    let expected_result = (
        "Commented_Any".to_string(),
        Doc {
            doc: Some(String::from(expected_doc)),
            ty: IpldType::Any,
        },
    );

    assert_eq!(
        parse_type_declaration(InStr::new(commented_any)).unwrap().1,
        expected_result
    );
}

#[test]
fn test_bytes_with_advances_repr() {
    let advanced_bytes = "\
        # These bytes are more advanced than normal bytes\n\
        type AdvancedBytes bytes representation advanced Taste\
        ";

    let expected_doc = "These bytes are more advanced than normal bytes";
    let expected_result = (
        "AdvancedBytes".to_string(),
        Doc {
            doc: Some(String::from(expected_doc)),
            ty: IpldType::Bytes(BytesRepresentation::Advanced("Taste".to_string())),
        },
    );

    assert_eq!(
        parse_type_declaration(InStr::new(advanced_bytes)).unwrap().1,
        expected_result
    );
}

#[test]
fn primitives_test_bytes_with_advances_repr() {
    let advanced_bytes = "\
        # These bytes are more advanced than normal bytes\n\
        type AdvancedBytes bytes representation advanced Taste\
        ";

    let expected_doc = "These bytes are more advanced than normal bytes";
    let expected_result = (
        "AdvancedBytes".to_string(),
        Doc {
            doc: Some(String::from(expected_doc)),
            ty: IpldType::Bytes(BytesRepresentation::Advanced("Taste".to_string())),
        },
    );

    assert_eq!(
        parse_type_declaration(InStr::new(advanced_bytes)).unwrap().1,
        expected_result
    );
}

#[test]
fn test_link() {
    let link = "type LinkedData &Data";
    let expected_result = (
        "LinkedData".to_string(),
        Doc {
            doc: None,
            ty: IpldType::Link("Data".to_string()),
        },
    );
    assert_eq!(
        parse_type_declaration(InStr::new(link)).unwrap().1,
        expected_result
    );
}

#[test]
fn test_unit() {
    let unit = "type MyUnit unit representation true";
    let expected_result = (
        "MyUnit".to_string(),
        Doc {
            doc: None,
            ty: IpldType::Unit(UnitRepresentation::True),
        },
    );
    assert_eq!(
        parse_type_declaration(InStr::new(unit)).unwrap().1,
        expected_result
    );
}

#[test]
fn primitives_test_unit() {
    let unit = "type MyUnit unit representation true";
    let expected_result = (
        "MyUnit".to_string(),
        Doc {
            doc: None,
            ty: IpldType::Unit(UnitRepresentation::True),
        },
    );
    assert_eq!(
        parse_type_declaration(InStr::new(unit)).unwrap().1,
        expected_result
    );
}

#[test]
fn unit_test_unit() {
    let unit = "type MyUnit unit representation true";
    let expected_result = (
        "MyUnit".to_string(),
        Doc {
            doc: None,
            ty: IpldType::Unit(UnitRepresentation::True),
        },
    );
    assert_eq!(
        parse_type_declaration(InStr::new(unit)).unwrap().1,
        expected_result
    );
}

#[test]
fn test_parse_comment_line() {
    let comment = InStr::new("    # This is a comment line\n");
    let not_comment = InStr::new("This is not a comment");

    assert!(ipld_schema::parse::comment::parse_comment_line(comment).is_ok());
    assert!(ipld_schema::parse::comment::parse_comment_line(not_comment).is_err());
}

#[test]
fn test_parse_comment_block() {
    let comment = InStr::new(
        "\
            # This is a comment block\n\
            # It starts with ## in the beginning\n\
               \n\
            # Empty lines are not a problem for it\n\
            This is no longer a comment\n\
        ",
    );

    let parsed_comment = "\
            This is a comment block\n\
            It starts with ## in the beginning\n\
            Empty lines are not a problem for it";

    let parsed = ipld_schema::parse::comment::parse_comment_block(comment).unwrap().1;
    assert_eq!(parsed, parsed_comment);
}
