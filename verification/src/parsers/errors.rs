//! What loading a grammar and matching a statement can report.

use crate::text::{chars_of, extend_chars, string_of};
use vstd::prelude::*;

verus! {

/// What can go wrong while a grammar is loaded or a statement is matched.
#[derive(Debug, PartialEq)]
pub enum SentenceParseError {
    /// The configuration is no valid YAML; the text is the loader's.
    YamlParseError(String),
    /// The configuration holds no document.
    EmptyYaml,
    /// The regex crate refused the pattern (first) with the message (second).
    RegexError(String, String),
    /// The template or the entry around it is malformed.
    InvalidPattern(String),
    /// No sentence of the grammar matches the statement.
    NoMatch(String),
    /// Resolving the statement went deeper than [`MAX_DEPTH`].
    MaxRecursionDepthExceeded(String),
    /// The translation catalog could not be read.
    TranslationWriteError(String),
}

/// A [`SentenceParseError`] as plain values.
pub enum ParseFailure {
    YamlParseError(Seq<char>),
    EmptyYaml,
    RegexError(Seq<char>, Seq<char>),
    InvalidPattern(Seq<char>),
    NoMatch(Seq<char>),
    MaxRecursionDepthExceeded(Seq<char>),
    TranslationWriteError(Seq<char>),
}

impl View for SentenceParseError {
    type V = ParseFailure;

    open spec fn view(&self) -> ParseFailure {
        match self {
            SentenceParseError::YamlParseError(m) => ParseFailure::YamlParseError(m@),
            SentenceParseError::EmptyYaml => ParseFailure::EmptyYaml,
            SentenceParseError::RegexError(p, m) => ParseFailure::RegexError(p@, m@),
            SentenceParseError::InvalidPattern(m) => ParseFailure::InvalidPattern(m@),
            SentenceParseError::NoMatch(m) => ParseFailure::NoMatch(m@),
            SentenceParseError::MaxRecursionDepthExceeded(m) => {
                ParseFailure::MaxRecursionDepthExceeded(m@)
            },
            SentenceParseError::TranslationWriteError(m) => ParseFailure::TranslationWriteError(m@),
        }
    }
}

/// The text of an error.
pub open spec fn failure_text(e: ParseFailure) -> Seq<char> {
    match e {
        ParseFailure::YamlParseError(m) => "YAML parse error: "@ + m,
        ParseFailure::EmptyYaml => "Empty YAML document"@,
        ParseFailure::RegexError(p, m) => "Regex error for pattern '"@ + p + "': "@ + m,
        ParseFailure::InvalidPattern(m) => "Invalid pattern: "@ + m,
        ParseFailure::NoMatch(m) => seq!['"'] + m + "\" : No sentence match"@,
        ParseFailure::MaxRecursionDepthExceeded(m) => "Max recursion depth exceeded : "@ + m,
        ParseFailure::TranslationWriteError(m) => "Could not read translation file : "@ + m,
    }
}

impl Clone for SentenceParseError {
    fn clone(&self) -> (r: Self)
        ensures
            r@ == self@,
    {
        match self {
            SentenceParseError::YamlParseError(m) => SentenceParseError::YamlParseError(m.clone()),
            SentenceParseError::EmptyYaml => SentenceParseError::EmptyYaml,
            SentenceParseError::RegexError(p, m) => SentenceParseError::RegexError(
                p.clone(),
                m.clone(),
            ),
            SentenceParseError::InvalidPattern(m) => SentenceParseError::InvalidPattern(m.clone()),
            SentenceParseError::NoMatch(m) => SentenceParseError::NoMatch(m.clone()),
            SentenceParseError::MaxRecursionDepthExceeded(m) => {
                SentenceParseError::MaxRecursionDepthExceeded(m.clone())
            },
            SentenceParseError::TranslationWriteError(m) => {
                SentenceParseError::TranslationWriteError(m.clone())
            },
        }
    }
}

impl SentenceParseError {
    /// The text of this error, as [`failure_text`] says.
    pub fn message(&self) -> (r: String)
        ensures
            r@ == failure_text(self@),
    {
        match self {
            SentenceParseError::YamlParseError(m) => String::from_str("YAML parse error: ").concat(
                m.as_str(),
            ),
            SentenceParseError::EmptyYaml => String::from_str("Empty YAML document"),
            SentenceParseError::RegexError(p, m) => String::from_str(
                "Regex error for pattern '",
            ).concat(p.as_str()).concat("': ").concat(m.as_str()),
            SentenceParseError::InvalidPattern(m) => String::from_str("Invalid pattern: ").concat(
                m.as_str(),
            ),
            SentenceParseError::NoMatch(m) => {
                let mut text: Vec<char> = Vec::new();
                text.push('"');
                let body = chars_of(m.as_str());
                extend_chars(&mut text, &body);
                let tail = chars_of("\" : No sentence match");
                extend_chars(&mut text, &tail);
                string_of(&text)
            },
            SentenceParseError::MaxRecursionDepthExceeded(m) => String::from_str(
                "Max recursion depth exceeded : ",
            ).concat(m.as_str()),
            SentenceParseError::TranslationWriteError(m) => String::from_str(
                "Could not read translation file : ",
            ).concat(m.as_str()),
        }
    }
}

/// Whether the error `e` is the failure `f`; of the text that the regex
/// crate gives for a pattern it refuses nothing is asked.
pub open spec fn same_failure(e: ParseFailure, f: ParseFailure) -> bool {
    match f {
        ParseFailure::RegexError(p, _) => e matches ParseFailure::RegexError(q, _) && q == p,
        ParseFailure::YamlParseError(_) => e is YamlParseError,
        _ => e == f,
    }
}

} // verus!
