use vstd::prelude::*;

verus! {

#[verifier::external_type_specification]
#[verifier::external_body]
pub struct ExIoError(std::io::Error);

/// The ways in which reading a statement can fail.
#[derive(Debug)]
pub enum ParseError {
    /// The PDF could not be opened or held no text.
    PdfError(String),
    /// Reading from the operating system failed.
    IoError(std::io::Error),
    /// No configuration applied, or the statement parsers failed.
    ParsingError(String),
    /// A configuration could not be registered, read or found.
    ConfigError(String),
    /// Every parse result carried errors; the payload lists the keys tried.
    NoValidStatement(String),
}

/// Text of an operating-system error: std's `ToString::to_string`, through the
/// error's `Display`. Nothing is claimed of the text, which for errors of the
/// operating system comes from the system.
#[verifier::external_body]
fn io_error_text(e: &std::io::Error) -> String {
    e.to_string()
}

impl ParseError {
    /// The human-readable description of the error.
    pub fn message(&self) -> (s: String)
        ensures
            match self {
                ParseError::PdfError(m) => s@ == "PDF error: "@ + m@,
                ParseError::IoError(_) => s@.len() >= "IO error: "@.len()
                    && s@.subrange(0, "IO error: "@.len() as int) == "IO error: "@,
                ParseError::ParsingError(m) => s@ == "Parsing error: "@ + m@,
                ParseError::ConfigError(m) => s@ == "Configuration error: "@ + m@,
                ParseError::NoValidStatement(m) => s@
                    == "No error-free statement data found. Applicable configs: "@ + m@,
            },
    {
        let (prefix, rest) = match self {
            ParseError::PdfError(m) => ("PDF error: ", m.clone()),
            ParseError::IoError(e) => ("IO error: ", io_error_text(e)),
            ParseError::ParsingError(m) => ("Parsing error: ", m.clone()),
            ParseError::ConfigError(m) => ("Configuration error: ", m.clone()),
            ParseError::NoValidStatement(m) => (
                "No error-free statement data found. Applicable configs: ",
                m.clone(),
            ),
        };
        let mut s = prefix.to_owned();
        s.append(rest.as_str());
        proof {
            assert(s@.subrange(0, prefix@.len() as int) =~= prefix@);
        }
        s
    }
}

impl From<std::io::Error> for ParseError {
    fn from(e: std::io::Error) -> (res: ParseError) {
        ParseError::IoError(e)
    }
}

impl vstd::std_specs::convert::FromSpecImpl<std::io::Error> for ParseError {
    open spec fn obeys_from_spec() -> bool {
        true
    }

    open spec fn from_spec(v: std::io::Error) -> ParseError {
        ParseError::IoError(v)
    }
}

} // verus!
