//! Compiles a sentence template into an anchored pattern and the list of
//! its parameters.

use crate::parsers::errors::SentenceParseError;
use crate::regex_bridge::{
    check_pattern, escape_char, escaped, pattern_compiles, pattern_error_text,
};
use crate::text::{
    chars_of, end_of_text, extend_chars, find_char, first_non_space, index_of, is_space,
    is_whitespace, is_word_ignoring_case, lower_seq, skip_spaces, string_of, sub_vec, text_end,
    trim_chars, trimmed,
};
use vstd::prelude::*;

verus! {

/// One declared parameter of a sentence template.
#[derive(Debug, Clone, PartialEq)]
pub struct ParameterDefinition {
    pub name: String,
    pub param_type: String,
    pub optional: bool,
}

/// A [`ParameterDefinition`] as plain values.
pub struct Param {
    pub name: Seq<char>,
    pub param_type: Seq<char>,
    pub optional: bool,
}

impl View for ParameterDefinition {
    type V = Param;

    open spec fn view(&self) -> Param {
        Param { name: self.name@, param_type: self.param_type@, optional: self.optional }
    }
}

/// The parameters of a list as plain values.
pub open spec fn params_view(params: Seq<ParameterDefinition>) -> Seq<Param> {
    Seq::new(params.len(), |i: int| params[i]@)
}

/// One part of a template: text to be matched as it stands, or a
/// placeholder.
pub enum Piece {
    Literal(Seq<char>),
    Placeholder(Param),
}

/// The type that a placeholder without a type has.
pub open spec fn default_type() -> Seq<char> {
    "string"@
}

/// What the text between a `{` and its `}` declares, or `None` where it
/// declares nothing valid.
///
/// The body reads `name`, `name: type`, `name:?` or `name:?: type`. The
/// name ends at the first colon; name and type are taken without the white
/// space around them and neither may be empty. `:?` behind the name marks
/// the parameter optional. Without a type the parameter is a `string`.
pub open spec fn parse_placeholder(body: Seq<char>) -> Option<Param> {
    let c = index_of(body, ':', 0);
    let name = trimmed(body.subrange(0, c));
    let rest = body.subrange(c + 1, body.len() as int);
    let after = rest.subrange(1, rest.len() as int);
    let a = first_non_space(after, 0);
    if name.len() == 0 {
        None
    } else if c >= body.len() {
        Some(Param { name, param_type: default_type(), optional: false })
    } else if rest.len() > 0 && rest[0] == '?' && a >= after.len() {
        Some(Param { name, param_type: default_type(), optional: true })
    } else if rest.len() > 0 && rest[0] == '?' && after[a] == ':' {
        let ty = trimmed(after.subrange(a + 1, after.len() as int));
        if ty.len() == 0 {
            None
        } else {
            Some(Param { name, param_type: ty, optional: true })
        }
    } else {
        let ty = trimmed(rest);
        if ty.len() == 0 {
            None
        } else {
            Some(Param { name, param_type: ty, optional: false })
        }
    }
}

/// Executable form of [`parse_placeholder`].
pub fn read_placeholder(body: &Vec<char>) -> (r: Option<ParameterDefinition>)
    ensures
        match parse_placeholder(body@) {
            Some(p) => r matches Some(d) && d@ == p,
            None => r is None,
        },
{
    let c = find_char(body, ':', 0);
    let name = trim_chars(&sub_vec(body, 0, c));
    if name.len() == 0 {
        return None;
    }
    if c >= body.len() {
        return Some(
            ParameterDefinition {
                name: string_of(&name),
                param_type: String::from_str("string"),
                optional: false,
            },
        );
    }
    let rest = sub_vec(body, c + 1, body.len());
    if rest.len() > 0 && rest[0] == '?' {
        let after = sub_vec(&rest, 1, rest.len());
        let a = skip_spaces(&after, 0);
        if a >= after.len() {
            return Some(
                ParameterDefinition {
                    name: string_of(&name),
                    param_type: String::from_str("string"),
                    optional: true,
                },
            );
        }
        if after[a] == ':' {
            let ty = trim_chars(&sub_vec(&after, a + 1, after.len()));
            if ty.len() == 0 {
                return None;
            }
            return Some(
                ParameterDefinition {
                    name: string_of(&name),
                    param_type: string_of(&ty),
                    optional: true,
                },
            );
        }
    }
    let ty = trim_chars(&rest);
    if ty.len() == 0 {
        return None;
    }
    Some(ParameterDefinition { name: string_of(&name), param_type: string_of(&ty), optional: false })
}

/// The first index at or after `from` that holds a brace, or the length of
/// `s` when none follows.
pub open spec fn next_brace(s: Seq<char>, from: int) -> int
    decreases s.len() - from,
{
    if from < 0 || from >= s.len() || s[from] == '{' || s[from] == '}' {
        from
    } else {
        next_brace(s, from + 1)
    }
}

/// Index form of [`next_brace`].
pub(crate) fn find_brace(v: &Vec<char>, from: usize) -> (r: usize)
    requires
        from <= v.len(),
    ensures
        r == next_brace(v@, from as int),
        from <= r <= v.len(),
{
    let mut i: usize = from;
    while i < v.len() && v[i] != '{' && v[i] != '}'
        invariant
            from <= i <= v.len(),
            next_brace(v@, from as int) == next_brace(v@, i as int),
        decreases v.len() - i,
    {
        i += 1;
    }
    i
}

/// The literal text as it is matched in front of a placeholder: before an
/// optional placeholder it loses its trailing white space, which the
/// placeholder's own group asks for.
pub open spec fn literal_before(text: Seq<char>, p: Param) -> Seq<char> {
    if p.optional {
        text.subrange(0, end_of_text(text, text.len() as int))
    } else {
        text
    }
}

/// The pieces of the template `s` from index `from` on, or `None` where
/// the template is malformed: a `}` with no `{` before it, a `{` that is
/// not closed before the next `{` or the end, or a placeholder that
/// [`parse_placeholder`] refuses.
///
/// Literals and placeholders alternate; the list starts and ends with a
/// literal, which may be empty.
pub open spec fn template_pieces(s: Seq<char>, from: int) -> Option<Seq<Piece>>
    decreases s.len() - from,
{
    let j = next_brace(s, from);
    let k = next_brace(s, j + 1);
    if from < 0 || from > s.len() {
        None
    } else if j >= s.len() {
        Some(seq![Piece::Literal(s.subrange(from, s.len() as int))])
    } else if s[j] == '}' || k >= s.len() || s[k] == '{' {
        None
    } else if !(from <= j < k) {
        None
    } else {
        match parse_placeholder(s.subrange(j + 1, k)) {
            None => None,
            Some(p) => match template_pieces(s, k + 1) {
                None => None,
                Some(rest) => Some(
                    seq![Piece::Literal(literal_before(s.subrange(from, j), p)), Piece::Placeholder(p)]
                        + rest,
                ),
            },
        }
    }
}

/// What one white-space run becomes in a pattern.
pub open spec fn space_pattern() -> Seq<char> {
    seq!['\\', 's', '+']
}

/// The pattern for the first `n` characters of the literal `s`: each run
/// of white space becomes "one or more white space", every other
/// character matches itself.
pub open spec fn literal_pattern_upto(s: Seq<char>, n: int) -> Seq<char>
    decreases n,
{
    if n <= 0 || n > s.len() {
        Seq::empty()
    } else if !is_space(s[n - 1]) {
        literal_pattern_upto(s, n - 1) + escaped(s[n - 1])
    } else if n >= 2 && is_space(s[n - 2]) {
        literal_pattern_upto(s, n - 1)
    } else {
        literal_pattern_upto(s, n - 1) + space_pattern()
    }
}

/// The pattern that matches the literal `s`.
pub open spec fn literal_pattern(s: Seq<char>) -> Seq<char> {
    literal_pattern_upto(s, s.len() as int)
}

/// The capture group of an `int`: a sign if any, then binary, octal,
/// hexadecimal or decimal digits.
pub open spec fn int_group() -> Seq<char> {
    "([-+]?(?:0[bB][01]+|0[oO][0-7]+|0[xX][0-9a-fA-F]+|\\d+))"@
}

/// The capture group of a `float`: a decimal number with a fraction and an
/// exponent if any.
pub open spec fn float_group() -> Seq<char> {
    "([-+]?(?:\\d+\\.\\d*|\\.\\d+|\\d+)(?:[eE][-+]?\\d+)?)"@
}

/// The capture group of a `bool`.
pub open spec fn bool_group() -> Seq<char> {
    "(true|false|yes|no|1|0)"@
}

/// The capture group of any other type: as few characters as will do, at
/// least one.
pub open spec fn any_group() -> Seq<char> {
    "(.+?)"@
}

/// The capture group for a parameter of type `ty`, whose ASCII case does
/// not count.
pub open spec fn capture_group(ty: Seq<char>) -> Seq<char> {
    if lower_seq(ty) == "int"@ {
        int_group()
    } else if lower_seq(ty) == "float"@ {
        float_group()
    } else if lower_seq(ty) == "bool"@ {
        bool_group()
    } else {
        any_group()
    }
}

/// The pattern of a placeholder: its capture group; for an optional one
/// the group and the white space in front of it, the whole being optional.
pub open spec fn placeholder_pattern(p: Param) -> Seq<char> {
    if p.optional {
        "(?:\\s+"@ + capture_group(p.param_type) + ")?"@
    } else {
        capture_group(p.param_type)
    }
}

/// The pattern of one piece.
pub open spec fn piece_pattern(piece: Piece) -> Seq<char> {
    match piece {
        Piece::Literal(text) => literal_pattern(text),
        Piece::Placeholder(p) => placeholder_pattern(p),
    }
}

/// The patterns of the first `n` pieces, one after the other.
pub open spec fn pieces_pattern(pieces: Seq<Piece>, n: int) -> Seq<char>
    decreases n,
{
    if n <= 0 || n > pieces.len() {
        Seq::empty()
    } else {
        pieces_pattern(pieces, n - 1) + piece_pattern(pieces[n - 1])
    }
}

/// The parameters among the first `n` pieces, in order.
pub open spec fn pieces_params(pieces: Seq<Piece>, n: int) -> Seq<Param>
    decreases n,
{
    if n <= 0 || n > pieces.len() {
        Seq::empty()
    } else {
        match pieces[n - 1] {
            Piece::Literal(_) => pieces_params(pieces, n - 1),
            Piece::Placeholder(p) => pieces_params(pieces, n - 1).push(p),
        }
    }
}

/// The pattern of a whole template: the patterns of its pieces between the
/// anchors of start and end, so that only a whole statement matches.
pub open spec fn anchored_pattern(pieces: Seq<Piece>) -> Seq<char> {
    seq!['^'] + pieces_pattern(pieces, pieces.len() as int) + seq!['$']
}

/// What a template compiles to: its anchored pattern and its parameters
/// in the order of their capture groups. `None` for a malformed template.
pub open spec fn compiled_template(template: Seq<char>) -> Option<(Seq<char>, Seq<Param>)> {
    match template_pieces(template, 0) {
        None => None,
        Some(pieces) => Some(
            (anchored_pattern(pieces), pieces_params(pieces, pieces.len() as int)),
        ),
    }
}

/// Appends to `buf` the pattern that matches the literal `s`: contiguous
/// white space becomes `\s+`, any other character is escaped.
pub fn push_literal(buf: &mut Vec<char>, s: &Vec<char>)
    ensures
        final(buf)@ == old(buf)@ + literal_pattern(s@),
{
    let mut in_space = false;
    let mut i: usize = 0;
    while i < s.len()
        invariant
            i <= s.len(),
            in_space == (i > 0 && is_space(s@[i - 1])),
            buf@ == old(buf)@ + literal_pattern_upto(s@, i as int),
        decreases s.len() - i,
    {
        let ch = s[i];
        if is_whitespace(ch) {
            if !in_space {
                buf.push('\\');
                buf.push('s');
                buf.push('+');
                in_space = true;
            }
        } else {
            in_space = false;
            let e = escape_char(ch);
            let ev = chars_of(e.as_str());
            extend_chars(buf, &ev);
        }
        i += 1;
        assert(buf@ == old(buf)@ + literal_pattern_upto(s@, i as int));
    }
}

/// Splits the trailing white space from a literal: the text without it,
/// and whether there was any.
pub fn split_trailing_ws(s: &str) -> (r: (&str, bool))
    ensures
        r.0@ == s@.subrange(0, end_of_text(s@, s@.len() as int)),
        r.1 == (end_of_text(s@, s@.len() as int) < s@.len()),
{
    let v = chars_of(s);
    let b = text_end(&v, v.len());
    (s.substring_char(0, b), b < v.len())
}

/// Appends to `buf` the capture group for a parameter of type `ty`.
fn push_capture_group(buf: &mut Vec<char>, ty: &Vec<char>)
    ensures
        final(buf)@ == old(buf)@ + capture_group(ty@),
{
    let group = if is_word_ignoring_case(ty, "int") {
        chars_of("([-+]?(?:0[bB][01]+|0[oO][0-7]+|0[xX][0-9a-fA-F]+|\\d+))")
    } else if is_word_ignoring_case(ty, "float") {
        chars_of("([-+]?(?:\\d+\\.\\d*|\\.\\d+|\\d+)(?:[eE][-+]?\\d+)?)")
    } else if is_word_ignoring_case(ty, "bool") {
        chars_of("(true|false|yes|no|1|0)")
    } else {
        chars_of("(.+?)")
    };
    extend_chars(buf, &group);
}

/// Appends to `buf` the pattern of a placeholder.
fn push_placeholder(buf: &mut Vec<char>, p: &ParameterDefinition)
    ensures
        final(buf)@ == old(buf)@ + placeholder_pattern(p@),
{
    let ty = chars_of(p.param_type.as_str());
    if p.optional {
        let open = chars_of("(?:\\s+");
        extend_chars(buf, &open);
        push_capture_group(buf, &ty);
        let close = chars_of(")?");
        extend_chars(buf, &close);
        assert(buf@ =~= old(buf)@ + placeholder_pattern(p@));
    } else {
        push_capture_group(buf, &ty);
    }
}

/// The first `n` pieces do not depend on what follows them.
proof fn lemma_pieces_prefix(pieces: Seq<Piece>, more: Seq<Piece>, n: int)
    requires
        0 <= n <= pieces.len(),
    ensures
        pieces_pattern(pieces + more, n) == pieces_pattern(pieces, n),
        pieces_params(pieces + more, n) == pieces_params(pieces, n),
    decreases n,
{
    if n > 0 {
        lemma_pieces_prefix(pieces, more, n - 1);
        assert((pieces + more)[n - 1] == pieces[n - 1]);
    }
}

/// Pattern and parameters of a list with one more piece.
proof fn lemma_pieces_push(pieces: Seq<Piece>, piece: Piece)
    ensures
        pieces_pattern(pieces.push(piece), pieces.len() as int + 1) == pieces_pattern(
            pieces,
            pieces.len() as int,
        ) + piece_pattern(piece),
        pieces_params(pieces.push(piece), pieces.len() as int + 1) == match piece {
            Piece::Literal(_) => pieces_params(pieces, pieces.len() as int),
            Piece::Placeholder(p) => pieces_params(pieces, pieces.len() as int).push(p),
        },
{
    assert(pieces.push(piece) =~= pieces + seq![piece]);
    lemma_pieces_prefix(pieces, seq![piece], pieces.len() as int);
}

/// `rest` behind the pieces already read, where there is a rest.
pub open spec fn pieces_then(read: Seq<Piece>, rest: Option<Seq<Piece>>) -> Option<Seq<Piece>> {
    match rest {
        None => None,
        Some(more) => Some(read + more),
    }
}

/// Compiles a sentence template into an anchored pattern and the list of
/// its parameters, as [`compiled_template`] says.
///
/// A malformed template is refused with `InvalidPattern` and the template;
/// a pattern that the regex crate does not accept with `RegexError`, the
/// pattern and the crate's message.
pub fn build_regex_for_phrase(phrase: &str) -> (r: Result<
    (String, Vec<ParameterDefinition>),
    SentenceParseError,
>)
    ensures
        match compiled_template(phrase@) {
            None => r matches Err(SentenceParseError::InvalidPattern(t)) && t@ == phrase@,
            Some((pattern, params)) => if pattern_compiles(pattern) {
                r matches Ok((re, ps)) && re@ == pattern && params_view(ps@) == params
            } else {
                r matches Err(SentenceParseError::RegexError(p, _)) && p@ == pattern
            },
        },
{
    let s = chars_of(phrase);
    let mut pattern: Vec<char> = Vec::new();
    pattern.push('^');
    let mut params: Vec<ParameterDefinition> = Vec::new();
    let ghost mut read: Seq<Piece> = Seq::empty();
    let mut i: usize = 0;
    let mut done = false;
    assert(pieces_then(read, template_pieces(s@, 0)) == template_pieces(s@, 0)) by {
        if template_pieces(s@, 0) is Some {
            assert(read + template_pieces(s@, 0).unwrap() =~= template_pieces(s@, 0).unwrap());
        }
    }
    while !done
        invariant
            i <= s.len(),
            s@ == phrase@,
            !done ==> template_pieces(s@, 0) == pieces_then(read, template_pieces(s@, i as int)),
            done ==> template_pieces(s@, 0) == Some(read),
            pattern@ == seq!['^'] + pieces_pattern(read, read.len() as int),
            params_view(params@) == pieces_params(read, read.len() as int),
        decreases s.len() - i + (if done { 0int } else { 1int }),
    {
        let j = find_brace(&s, i);
        if j >= s.len() {
            let text = sub_vec(&s, i, s.len());
            push_literal(&mut pattern, &text);
            proof {
                let piece = Piece::Literal(text@);
                lemma_pieces_push(read, piece);
                assert(read + seq![piece] =~= read.push(piece));
                read = read.push(piece);
                assert(pattern@ =~= seq!['^'] + pieces_pattern(read, read.len() as int));
            }
            done = true;
        } else {
            if s[j] == '}' {
                return Err(SentenceParseError::InvalidPattern(String::from_str(phrase)));
            }
            let k = find_brace(&s, j + 1);
            if k >= s.len() || s[k] == '{' {
                return Err(SentenceParseError::InvalidPattern(String::from_str(phrase)));
            }
            let body = sub_vec(&s, j + 1, k);
            match read_placeholder(&body) {
                None => {
                    return Err(SentenceParseError::InvalidPattern(String::from_str(phrase)));
                },
                Some(p) => {
                    let text = sub_vec(&s, i, j);
                    let b = if p.optional {
                        text_end(&text, text.len())
                    } else {
                        text.len()
                    };
                    let lit = sub_vec(&text, 0, b);
                    assert(lit@ =~= literal_before(text@, p@));
                    push_literal(&mut pattern, &lit);
                    push_placeholder(&mut pattern, &p);
                    proof {
                        let first = Piece::Literal(lit@);
                        let second = Piece::Placeholder(p@);
                        lemma_pieces_push(read, first);
                        lemma_pieces_push(read.push(first), second);
                        let next = read.push(first).push(second);
                        if template_pieces(s@, k + 1) is Some {
                            let rest = template_pieces(s@, k + 1).unwrap();
                            assert(read + (seq![first, second] + rest) =~= next + rest);
                        }
                        assert(params_view(params@.push(p)) =~= params_view(params@).push(p@));
                        read = next;
                        assert(pattern@ =~= seq!['^'] + pieces_pattern(read, read.len() as int));
                    }
                    params.push(p);
                    i = k + 1;
                },
            }
        }
    }
    pattern.push('$');
    assert(pattern@ =~= anchored_pattern(read));
    let re = string_of(&pattern);
    match check_pattern(re.as_str()) {
        Ok(()) => Ok((re, params)),
        Err(e) => Err(SentenceParseError::RegexError(re, pattern_error_text(&e))),
    }
}

/// A template without braces is one literal.
proof fn lemma_no_brace(s: Seq<char>, from: int)
    requires
        0 <= from <= s.len(),
        forall|i: int| 0 <= i < s.len() ==> s[i] != '{' && s[i] != '}',
    ensures
        next_brace(s, from) == s.len(),
    decreases s.len() - from,
{
    if from < s.len() {
        lemma_no_brace(s, from + 1);
    }
}

/// A template without placeholders compiles to the pattern of its literal
/// text between the anchors, with no capture group and no parameter: a
/// statement has to be that text from its first character to its last,
/// and only the width of the white space is free.
pub proof fn lemma_plain_template_is_its_literal(template: Seq<char>)
    requires
        forall|i: int| 0 <= i < template.len() ==> template[i] != '{' && template[i] != '}',
    ensures
        compiled_template(template) == Some(
            (seq!['^'] + literal_pattern(template) + seq!['$'], Seq::<Param>::empty()),
        ),
{
    lemma_no_brace(template, 0);
    let pieces = seq![Piece::Literal(template)];
    assert(template.subrange(0, template.len() as int) =~= template);
    assert(template_pieces(template, 0) == Some(pieces));
    assert(pieces_pattern(pieces, 1) =~= literal_pattern(template)) by {
        assert(pieces_pattern(pieces, 0) =~= Seq::<char>::empty());
    }
    assert(pieces_params(pieces, 1) =~= Seq::<Param>::empty()) by {
        assert(pieces_params(pieces, 0) =~= Seq::<Param>::empty());
    }
}

} // verus!
