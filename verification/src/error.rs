//! The failure taxonomy of the parser. Every violation is terminal: the first
//! one short-circuits the whole parse and carries the byte offset and line
//! number of the cursor at the moment it was raised.
use vstd::prelude::*;

verus! {

/// What went wrong. `SyntaxError` covers the generic violations (a misspelled
/// keyword, a missing bracket, quote or colon); the rest are the specific
/// numeric, string, container and trailing-input violations.
#[derive(Clone, Copy, PartialEq, Eq, Structural, Debug)]
pub enum ErrorKind {
    UnexpectedEof,
    SyntaxError,
    LeadingZero,
    MissingFractionDigit,
    MissingExponentDigit,
    IntegerOverflow,
    InvalidFloat,
    MissingOpeningQuote,
    UnterminatedString,
    InvalidEscape,
    InvalidHexDigit,
    InvalidUnicodeCodePoint,
    InvalidControlCharacter,
    InvalidArraySeparator,
    InvalidObjectSeparator,
    NonStringKey,
    TrailingCharacters,
}

/// A positioned parse failure: the kind of violation, the byte offset and the
/// 1-based line number at which it was raised.
#[derive(Clone, Copy, PartialEq, Eq, Structural, Debug)]
pub struct ParseError {
    pub kind: ErrorKind,
    pub pos: usize,
    pub ln: usize,
}

/// The human-readable wording for each kind of violation.
pub open spec fn message_spec(k: ErrorKind) -> Seq<char> {
    match k {
        ErrorKind::UnexpectedEof => "Unexpected end of text"@,
        ErrorKind::SyntaxError => "Syntax error"@,
        ErrorKind::LeadingZero => "Leading zeros are not allowed in numbers"@,
        ErrorKind::MissingFractionDigit => "A digit is required after the decimal point"@,
        ErrorKind::MissingExponentDigit => "A digit is required in the exponent part"@,
        ErrorKind::IntegerOverflow => "Invalid integer value"@,
        ErrorKind::InvalidFloat => "Invalid numeric value"@,
        ErrorKind::MissingOpeningQuote => "Missing opening quotation for string"@,
        ErrorKind::UnterminatedString => "String is not properly terminated"@,
        ErrorKind::InvalidEscape => "Invalid escape sequence"@,
        ErrorKind::InvalidHexDigit => "Invalid hex digit"@,
        ErrorKind::InvalidUnicodeCodePoint => "Invalid unicode"@,
        ErrorKind::InvalidControlCharacter => "Invalid control character"@,
        ErrorKind::InvalidArraySeparator => "Invalid array separator"@,
        ErrorKind::InvalidObjectSeparator => "Invalid object separator"@,
        ErrorKind::NonStringKey => "Keys must be strings"@,
        ErrorKind::TrailingCharacters => "Unexpected trailing characters"@,
    }
}

impl ParseError {
    /// The human-readable message for this failure.
    pub fn message(&self) -> (r: &'static str)
        ensures
            r@ == message_spec(self.kind),
    {
        match self.kind {
            ErrorKind::UnexpectedEof => "Unexpected end of text",
            ErrorKind::SyntaxError => "Syntax error",
            ErrorKind::LeadingZero => "Leading zeros are not allowed in numbers",
            ErrorKind::MissingFractionDigit => "A digit is required after the decimal point",
            ErrorKind::MissingExponentDigit => "A digit is required in the exponent part",
            ErrorKind::IntegerOverflow => "Invalid integer value",
            ErrorKind::InvalidFloat => "Invalid numeric value",
            ErrorKind::MissingOpeningQuote => "Missing opening quotation for string",
            ErrorKind::UnterminatedString => "String is not properly terminated",
            ErrorKind::InvalidEscape => "Invalid escape sequence",
            ErrorKind::InvalidHexDigit => "Invalid hex digit",
            ErrorKind::InvalidUnicodeCodePoint => "Invalid unicode",
            ErrorKind::InvalidControlCharacter => "Invalid control character",
            ErrorKind::InvalidArraySeparator => "Invalid array separator",
            ErrorKind::InvalidObjectSeparator => "Invalid object separator",
            ErrorKind::NonStringKey => "Keys must be strings",
            ErrorKind::TrailingCharacters => "Unexpected trailing characters",
        }
    }
}

} // verus!
