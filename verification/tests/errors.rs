use transtractor_rs::error::ParseError;

#[test]
fn messages_follow_each_variant() {
    assert_eq!(ParseError::PdfError("x".to_string()).message(), "PDF error: x");
    assert_eq!(ParseError::ParsingError("y".to_string()).message(), "Parsing error: y");
    assert_eq!(ParseError::ConfigError("z".to_string()).message(), "Configuration error: z");
    assert_eq!(
        ParseError::NoValidStatement("a, b".to_string()).message(),
        "No error-free statement data found. Applicable configs: a, b"
    );
}

#[test]
fn io_errors_convert_and_describe_themselves() {
    let io = std::io::Error::new(std::io::ErrorKind::NotFound, "missing file");
    let e: ParseError = io.into();
    assert!(matches!(e, ParseError::IoError(_)));
    assert_eq!(e.message(), "IO error: missing file");
}
