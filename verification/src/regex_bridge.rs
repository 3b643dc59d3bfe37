//! What the library takes from the `regex` crate: escaping, compiling and
//! capturing, each behind a contract that is taken on trust.

use regex::Regex;
use vstd::prelude::*;

verus! {

/// `regex::Error`, carried as it is from the crate to the text of the
/// error.
#[verifier::external_type_specification]
#[verifier::external_body]
pub struct ExRegexError(regex::Error);

/// Whether the regex crate compiles `pattern`: what `Regex::new` answers
/// with `Ok`.
pub uninterp spec fn pattern_compiles(pattern: Seq<char>) -> bool;

/// The capture groups of the leftmost match of `pattern` in `text`, group 0
/// (the whole match) first and a group that took no part as `None`: what
/// `Regex::captures` yields. `None` when `pattern` does not compile or
/// `text` holds no match.
pub uninterp spec fn capture_groups(pattern: Seq<char>, text: Seq<char>) -> Option<
    Seq<Option<Seq<char>>>,
>;

/// The characters that have a meaning of their own in a pattern.
pub open spec fn is_meta(c: char) -> bool {
    ||| c == '\\'
    ||| c == '.'
    ||| c == '+'
    ||| c == '*'
    ||| c == '?'
    ||| c == '('
    ||| c == ')'
    ||| c == '|'
    ||| c == '['
    ||| c == ']'
    ||| c == '{'
    ||| c == '}'
    ||| c == '^'
    ||| c == '$'
    ||| c == '#'
    ||| c == '&'
    ||| c == '-'
    ||| c == '~'
}

/// The pattern that matches exactly the character `c`.
pub open spec fn escaped(c: char) -> Seq<char> {
    if is_meta(c) {
        seq!['\\', c]
    } else {
        seq![c]
    }
}

/// `regex::escape` on the one-character string `c`: the character itself,
/// behind a backslash when it is one of the crate's meta characters.
#[verifier::external_body]
pub(crate) fn escape_char(c: char) -> (r: String)
    ensures
        r@ == escaped(c),
{
    regex::escape(&c.to_string())
}

/// `Regex::new`, keeping only whether the pattern was accepted and, if not,
/// the crate's error.
#[verifier::external_body]
pub(crate) fn check_pattern(pattern: &str) -> (r: Result<(), regex::Error>)
    ensures
        r is Ok <==> pattern_compiles(pattern@),
{
    Regex::new(pattern).map(|_| ())
}

/// The text that the regex crate prints for its error (`Display`). Nothing
/// is claimed of it.
#[verifier::external_body]
pub(crate) fn pattern_error_text(e: &regex::Error) -> String {
    e.to_string()
}

/// `Regex::captures` with the regex compiled from `pattern`: every group of
/// the match as an owned string.
#[verifier::external_body]
pub(crate) fn find_captures(pattern: &str, text: &str) -> (r: Option<Vec<Option<String>>>)
    ensures
        r.deep_view() == capture_groups(pattern@, text@),
{
    let re = Regex::new(pattern).ok()?;
    let caps = re.captures(text)?;
    Some(caps.iter().map(|m| m.map(|m| m.as_str().to_string())).collect())
}

} // verus!
