use tenhou_log_parser::ParserError;

#[test]
fn test_parser_error_constructors() {
    // Parse error constructor
    let parse_err = ParserError::parse("test message", "test context");
    match parse_err {
        ParserError::Parse { message, context } => {
            assert_eq!(message, "test message");
            assert_eq!(context, "test context");
        }
        _ => panic!("Expected Parse variant"),
    }

    // Encoding error constructor
    let encoding_err = ParserError::encoding("encoding test");
    match encoding_err {
        ParserError::Encoding(msg) => {
            assert_eq!(msg, "encoding test");
        }
        _ => panic!("Expected Encoding variant"),
    }

    // Schema error constructor
    let schema_err = ParserError::schema("schema test");
    match schema_err {
        ParserError::Schema(msg) => {
            assert_eq!(msg, "schema test");
        }
        _ => panic!("Expected Schema variant"),
    }

    // Invalid format error constructor
    let format_err = ParserError::invalid_format("format test");
    match format_err {
        ParserError::InvalidFormat(msg) => {
            assert_eq!(msg, "format test");
        }
        _ => panic!("Expected InvalidFormat variant"),
    }
}

#[test]
fn test_error_display() {
    let parse_err = ParserError::parse("parse failed", "line 42");
    assert_eq!(parse_err.describe(), "Parse error: parse failed at line 42");

    let encoding_err = ParserError::encoding("bad encoding");
    assert_eq!(encoding_err.describe(), "Encoding error: bad encoding");

    let schema_err = ParserError::schema("invalid schema");
    assert_eq!(schema_err.describe(), "Schema validation error: invalid schema");

    let format_err = ParserError::invalid_format("bad format");
    assert_eq!(format_err.describe(), "Invalid format: bad format");

    let tile_err = ParserError::InvalidTileId(999);
    assert_eq!(tile_err.describe(), "Invalid tile ID: 999");

    let attr_err = ParserError::Attr("missing attribute".to_string());
    assert_eq!(attr_err.describe(), "XML attribute error: missing attribute");
}

#[test]
fn test_error_debug() {
    let parse_err = ParserError::parse("debug test", "context");
    let debug_output = format!("{:?}", parse_err);
    assert!(debug_output.contains("Parse"));
    assert!(debug_output.contains("debug test"));
    assert!(debug_output.contains("context"));
}
