//! Error taxonomy of the parser: every failure of a parse call is one
//! typed value of `ParserError`.

use vstd::prelude::*;
use vstd::string::*;
use crate::text::dec_str;
use crate::text::u32_to_dec_string;

verus! {

/// The kind of a `ParserError`, without its message text: contracts pin
/// the variant of every error while leaving the human-readable wording
/// free.
pub enum ErrorKind {
    Io,
    Xml,
    Utf8,
    ParseInt,
    Attr,
    Encoding,
    Schema,
    Parse,
    InvalidTileId(u32),
    InvalidFormat,
}

/// A fatal failure of a parse call.
#[derive(Debug, Clone, PartialEq)]
pub enum ParserError {
    Io(String),
    Xml(String),
    Utf8(String),
    ParseInt(String),
    Attr(String),
    Encoding(String),
    Schema(String),
    Parse { message: String, context: String },
    InvalidTileId(u32),
    InvalidFormat(String),
}

impl ParserError {
    /// The variant of this error, with the offending tile identifier kept.
    pub open spec fn kind(&self) -> ErrorKind {
        match self {
            ParserError::Io(_) => ErrorKind::Io,
            ParserError::Xml(_) => ErrorKind::Xml,
            ParserError::Utf8(_) => ErrorKind::Utf8,
            ParserError::ParseInt(_) => ErrorKind::ParseInt,
            ParserError::Attr(_) => ErrorKind::Attr,
            ParserError::Encoding(_) => ErrorKind::Encoding,
            ParserError::Schema(_) => ErrorKind::Schema,
            ParserError::Parse { .. } => ErrorKind::Parse,
            ParserError::InvalidTileId(id) => ErrorKind::InvalidTileId(*id),
            ParserError::InvalidFormat(_) => ErrorKind::InvalidFormat,
        }
    }

    /// The rendered message of this error.
    pub open spec fn describe_spec(&self) -> Seq<char> {
        match self {
            ParserError::Io(m) => "I/O error: "@ + m@,
            ParserError::Xml(m) => "XML parsing error: "@ + m@,
            ParserError::Utf8(m) => "UTF-8 encoding error: "@ + m@,
            ParserError::ParseInt(m) => "Parse integer error: "@ + m@,
            ParserError::Attr(m) => "XML attribute error: "@ + m@,
            ParserError::Encoding(m) => "Encoding error: "@ + m@,
            ParserError::Schema(m) => "Schema validation error: "@ + m@,
            ParserError::Parse { message, context } => "Parse error: "@ + message@ + " at "@
                + context@,
            ParserError::InvalidTileId(id) => "Invalid tile ID: "@ + dec_str(*id as int),
            ParserError::InvalidFormat(m) => "Invalid format: "@ + m@,
        }
    }

    /// Renders the error as a human-readable message.
    pub fn describe(&self) -> (r: String)
        ensures
            r@ == self.describe_spec(),
    {
        match self {
            ParserError::Io(m) => String::from_str("I/O error: ").concat(m.as_str()),
            ParserError::Xml(m) => String::from_str("XML parsing error: ").concat(m.as_str()),
            ParserError::Utf8(m) => String::from_str("UTF-8 encoding error: ").concat(m.as_str()),
            ParserError::ParseInt(m) => String::from_str("Parse integer error: ").concat(
                m.as_str(),
            ),
            ParserError::Attr(m) => String::from_str("XML attribute error: ").concat(m.as_str()),
            ParserError::Encoding(m) => String::from_str("Encoding error: ").concat(m.as_str()),
            ParserError::Schema(m) => String::from_str("Schema validation error: ").concat(
                m.as_str(),
            ),
            ParserError::Parse { message, context } => String::from_str("Parse error: ").concat(
                message.as_str(),
            ).concat(" at ").concat(context.as_str()),
            ParserError::InvalidTileId(id) => String::from_str("Invalid tile ID: ").concat(
                u32_to_dec_string(*id).as_str(),
            ),
            ParserError::InvalidFormat(m) => String::from_str("Invalid format: ").concat(
                m.as_str(),
            ),
        }
    }

    /// A generic parse error with a message and a context.
    pub fn parse(message: &str, context: &str) -> (r: ParserError)
        ensures
            r matches ParserError::Parse { message: m, context: c } && m@ == message@ && c@
                == context@,
    {
        ParserError::Parse { message: String::from_str(message), context: String::from_str(
            context,
        ) }
    }

    /// A text-encoding error.
    pub fn encoding(message: &str) -> (r: ParserError)
        ensures
            r matches ParserError::Encoding(m) && m@ == message@,
    {
        ParserError::Encoding(String::from_str(message))
    }

    /// A schema-validation error.
    pub fn schema(message: &str) -> (r: ParserError)
        ensures
            r matches ParserError::Schema(m) && m@ == message@,
    {
        ParserError::Schema(String::from_str(message))
    }

    /// An invalid-format error.
    pub fn invalid_format(message: &str) -> (r: ParserError)
        ensures
            r matches ParserError::InvalidFormat(m) && m@ == message@,
    {
        ParserError::InvalidFormat(String::from_str(message))
    }
}

} // verus!
