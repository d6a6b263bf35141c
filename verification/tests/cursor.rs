//! Tests of the positioned cursor and the diagnostic model.

use ipld_schema::diagnostic::InStr;
use ipld_schema::diagnostic::Span;
use ipld_schema::error::IpldSchemaParseError;
use ipld_schema::Doc;
use ipld_schema::IpldSchema;
use ipld_schema::IpldType;

#[test]
fn cursor_views_and_splits() {
    let cur = InStr::new("hello world");
    assert_eq!(cur.inner(), "hello world");
    assert_eq!(cur.len(), 11);
    assert!(!cur.is_empty());
    assert_eq!(cur.char_at(6), 'w');

    let (suffix, prefix) = cur.take_split(5);
    assert_eq!(prefix.inner(), "hello");
    assert_eq!(suffix.inner(), " world");

    let named = InStr::new_with_filename("a b", "schema.ipldsch");
    assert_eq!(named.file, Some("schema.ipldsch"));
    assert_eq!(named.inner(), "a b");
}

#[test]
fn error_span_narrows_to_the_offending_run() {
    let cur = InStr::new("abc def");
    // The span covers the prefix up to the first space.
    let span = cur.error_span(|c| c == ' ', IpldSchemaParseError::Unknown);
    assert_eq!(span.start, 0);
    assert_eq!(span.end, 3);
    assert!(matches!(span.inner, IpldSchemaParseError::Unknown));

    // Without a matching character the span covers the whole view.
    let whole = cur.error_span(|c| c == 'z', IpldSchemaParseError::Unknown);
    assert_eq!((whole.start, whole.end), (0, 7));
}

#[test]
fn cursor_map_wraps_the_viewed_text() {
    let cur = InStr::new("12345");
    let span = cur.map(|text| text.len());
    assert_eq!(span.into_inner(), 5);
}

#[test]
fn span_hint_map_and_transform() {
    let span = Span {
        src: "abc",
        file: None,
        start: 1,
        end: 2,
        inner: 7u32,
        hint: None,
    };
    let hinted = span.with_hint("look here");
    assert_eq!(hinted.hint, Some("look here"));

    let doubled = hinted.map(|v| v * 2);
    assert_eq!(doubled.inner, 14);

    let ok: Span<'_, Result<u32, u32>> = Span {
        src: "abc",
        file: None,
        start: 0,
        end: 1,
        inner: Ok(3),
        hint: None,
    };
    assert_eq!(ok.transform().unwrap(), 3);

    let bad: Span<'_, Result<u32, u32>> = Span {
        src: "abc",
        file: None,
        start: 0,
        end: 2,
        inner: Err(9),
        hint: Some("broken"),
    };
    let err_span = bad.transform().unwrap_err();
    assert_eq!(err_span.inner, 9);
    assert_eq!(err_span.hint, Some("broken"));
    assert_eq!((err_span.start, err_span.end), (0, 2));
}

#[test]
fn single_declaration_schemas() {
    let bool_schema = IpldSchema::parse("type UncommentedBool bool").unwrap();
    assert_eq!(
        bool_schema,
        IpldSchema(vec![(
            "UncommentedBool".to_string(),
            Doc {
                doc: None,
                ty: IpldType::Bool,
            },
        )])
    );

    let link_schema = IpldSchema::parse("type LinkedData &Data").unwrap();
    assert_eq!(
        link_schema.0[0],
        (
            "LinkedData".to_string(),
            Doc {
                doc: None,
                ty: IpldType::Link("Data".to_string()),
            },
        )
    );

    let unit_schema = IpldSchema::parse("type MyUnit unit representation true").unwrap();
    assert_eq!(
        unit_schema.0[0],
        (
            "MyUnit".to_string(),
            Doc {
                doc: None,
                ty: IpldType::Unit(ipld_schema::representation::UnitRepresentation::True),
            },
        )
    );
}
