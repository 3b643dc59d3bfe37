//! Strings as sequences of characters: conversion, white space, search.

use vstd::prelude::*;

verus! {

/// Whether `c` is white space: the code points that carry the Unicode
/// `White_Space` property.
pub open spec fn is_space(c: char) -> bool {
    let n = c as u32;
    ||| 0x09 <= n <= 0x0D
    ||| n == 0x20
    ||| n == 0x85
    ||| n == 0xA0
    ||| n == 0x1680
    ||| 0x2000 <= n <= 0x200A
    ||| n == 0x2028
    ||| n == 0x2029
    ||| n == 0x202F
    ||| n == 0x205F
    ||| n == 0x3000
}

/// Executable form of [`is_space`].
pub fn is_whitespace(c: char) -> (r: bool)
    ensures
        r == is_space(c),
{
    let n: u32 = c as u32;
    (0x09 <= n && n <= 0x0D) || n == 0x20 || n == 0x85 || n == 0xA0 || n == 0x1680 || (0x2000 <= n
        && n <= 0x200A) || n == 0x2028 || n == 0x2029 || n == 0x202F || n == 0x205F || n == 0x3000
}

/// The lower-case form of an ASCII capital; any other character unchanged.
pub open spec fn ascii_lower(c: char) -> char {
    if 'A' <= c <= 'Z' {
        ((c as u8) + 32) as char
    } else {
        c
    }
}

/// Executable form of [`ascii_lower`].
pub fn to_ascii_lower(c: char) -> (r: char)
    ensures
        r == ascii_lower(c),
{
    if 'A' <= c && c <= 'Z' {
        ((c as u8) + 32) as char
    } else {
        c
    }
}

/// Appends one character to a string (`String::push`): the view grows by
/// exactly that character.
#[verifier::external_body]
pub(crate) fn push_char(s: &mut String, c: char)
    ensures
        final(s)@ == old(s)@.push(c),
{
    s.push(c)
}

/// The characters of a string slice, in order.
pub fn chars_of(s: &str) -> (v: Vec<char>)
    ensures
        v@ == s@,
{
    let mut v: Vec<char> = Vec::new();
    for c in it: s.chars()
        invariant
            v@ == it.seq().take(it.index() as int),
            it.seq() == s@,
    {
        v.push(c);
    }
    v
}

/// The string made of the given characters, in order.
pub fn string_of(v: &Vec<char>) -> (s: String)
    ensures
        s@ == v@,
{
    let mut s = String::new();
    let mut i: usize = 0;
    while i < v.len()
        invariant
            i <= v.len(),
            s@ == v@.take(i as int),
        decreases v.len() - i,
    {
        push_char(&mut s, v[i]);
        i += 1;
    }
    s
}

/// The characters `v[from..to]` as a vector of their own.
pub(crate) fn sub_vec(v: &Vec<char>, from: usize, to: usize) -> (r: Vec<char>)
    requires
        from <= to <= v.len(),
    ensures
        r@ == v@.subrange(from as int, to as int),
{
    let mut r: Vec<char> = Vec::new();
    let mut i: usize = from;
    while i < to
        invariant
            from <= i <= to <= v.len(),
            r@ == v@.subrange(from as int, i as int),
        decreases to - i,
    {
        r.push(v[i]);
        i += 1;
    }
    r
}

/// Appends the characters of `tail` to `buf`.
pub fn extend_chars(buf: &mut Vec<char>, tail: &Vec<char>)
    ensures
        final(buf)@ == old(buf)@ + tail@,
{
    let mut i: usize = 0;
    while i < tail.len()
        invariant
            i <= tail.len(),
            buf@ == old(buf)@ + tail@.take(i as int),
        decreases tail.len() - i,
    {
        buf.push(tail[i]);
        i += 1;
    }
    assert(tail@.take(tail.len() as int) == tail@);
}

/// Whether two character sequences are the same.
pub fn same_chars(a: &Vec<char>, b: &Vec<char>) -> (r: bool)
    ensures
        r == (a@ == b@),
{
    if a.len() != b.len() {
        return false;
    }
    let mut i: usize = 0;
    while i < a.len()
        invariant
            i <= a.len(),
            a.len() == b.len(),
            a@.take(i as int) == b@.take(i as int),
        decreases a.len() - i,
    {
        if a[i] != b[i] {
            return false;
        }
        assert(a@.take(i + 1) == a@.take(i as int).push(a@[i as int]));
        assert(b@.take(i + 1) == b@.take(i as int).push(b@[i as int]));
        i += 1;
    }
    assert(a@.take(a.len() as int) == a@);
    assert(b@.take(b.len() as int) == b@);
    true
}

/// Whether two strings hold the same characters.
pub fn same_text(a: &str, b: &str) -> (r: bool)
    ensures
        r == (a@ == b@),
{
    let x = chars_of(a);
    let y = chars_of(b);
    same_chars(&x, &y)
}

/// `s` with every ASCII capital replaced by its lower-case form.
pub open spec fn lower_seq(s: Seq<char>) -> Seq<char> {
    Seq::new(s.len(), |i: int| ascii_lower(s[i]))
}

/// Whether `s` reads `word` when ASCII case is ignored in `s`.
pub fn is_word_ignoring_case(s: &Vec<char>, word: &str) -> (r: bool)
    ensures
        r == (lower_seq(s@) == word@),
{
    let mut low: Vec<char> = Vec::new();
    let mut i: usize = 0;
    while i < s.len()
        invariant
            i <= s.len(),
            low@ == lower_seq(s@).take(i as int),
        decreases s.len() - i,
    {
        low.push(to_ascii_lower(s[i]));
        i += 1;
    }
    assert(lower_seq(s@).take(s.len() as int) == lower_seq(s@));
    let w = chars_of(word);
    same_chars(&low, &w)
}

/// The first index at or after `from` that holds no white space, or the
/// length of `s` when only white space follows.
pub open spec fn first_non_space(s: Seq<char>, from: int) -> int
    decreases s.len() - from,
{
    if from < 0 || from >= s.len() || !is_space(s[from]) {
        from
    } else {
        first_non_space(s, from + 1)
    }
}

/// The end of the text before `to`: one past the last index below `to`
/// that holds no white space, or 0 when only white space precedes.
pub open spec fn end_of_text(s: Seq<char>, to: int) -> int
    decreases to,
{
    if to <= 0 || to > s.len() || !is_space(s[to - 1]) {
        to
    } else {
        end_of_text(s, to - 1)
    }
}

/// `s` without its leading and trailing white space.
pub open spec fn trimmed(s: Seq<char>) -> Seq<char> {
    let a = first_non_space(s, 0);
    let b = end_of_text(s, s.len() as int);
    if a < b {
        s.subrange(a, b)
    } else {
        Seq::empty()
    }
}

/// Index form of [`first_non_space`].
pub(crate) fn skip_spaces(v: &Vec<char>, from: usize) -> (r: usize)
    requires
        from <= v.len(),
    ensures
        r == first_non_space(v@, from as int),
        from <= r <= v.len(),
{
    let mut i: usize = from;
    while i < v.len() && is_whitespace(v[i])
        invariant
            from <= i <= v.len(),
            first_non_space(v@, from as int) == first_non_space(v@, i as int),
        decreases v.len() - i,
    {
        i += 1;
    }
    i
}

/// Index form of [`end_of_text`].
pub(crate) fn text_end(v: &Vec<char>, to: usize) -> (r: usize)
    requires
        to <= v.len(),
    ensures
        r == end_of_text(v@, to as int),
        r <= to,
{
    let mut j: usize = to;
    while j > 0 && is_whitespace(v[j - 1])
        invariant
            j <= to <= v.len(),
            end_of_text(v@, to as int) == end_of_text(v@, j as int),
        decreases j,
    {
        j -= 1;
    }
    j
}

/// The characters of `v` without leading and trailing white space.
pub fn trim_chars(v: &Vec<char>) -> (r: Vec<char>)
    ensures
        r@ == trimmed(v@),
{
    let a = skip_spaces(v, 0);
    let b = text_end(v, v.len());
    if a < b {
        sub_vec(v, a, b)
    } else {
        Vec::new()
    }
}

/// The first index at or after `from` where `s` holds `c`, or the length
/// of `s` when it holds none.
pub open spec fn index_of(s: Seq<char>, c: char, from: int) -> int
    decreases s.len() - from,
{
    if from < 0 || from >= s.len() || s[from] == c {
        from
    } else {
        index_of(s, c, from + 1)
    }
}

/// Index form of [`index_of`].
pub(crate) fn find_char(v: &Vec<char>, c: char, from: usize) -> (r: usize)
    requires
        from <= v.len(),
    ensures
        r == index_of(v@, c, from as int),
        from <= r <= v.len(),
        r < v.len() ==> v@[r as int] == c,
        forall|i: int| from <= i < r ==> v@[i] != c,
{
    let mut i: usize = from;
    while i < v.len() && v[i] != c
        invariant
            from <= i <= v.len(),
            index_of(v@, c, from as int) == index_of(v@, c, i as int),
            forall|k: int| from <= k < i ==> v@[k] != c,
        decreases v.len() - i,
    {
        i += 1;
    }
    i
}

/// Whether `needle` stands in `hay` at index `at`.
pub open spec fn stands_at(hay: Seq<char>, needle: Seq<char>, at: int) -> bool {
    0 <= at && at + needle.len() <= hay.len() && hay.subrange(at, at + needle.len()) == needle
}

/// Whether `hay` holds `needle` somewhere.
pub open spec fn has_subtext(hay: Seq<char>, needle: Seq<char>) -> bool {
    exists|at: int| stands_at(hay, needle, at)
}

/// Whether `hay` ends in `tail`.
pub open spec fn has_suffix(hay: Seq<char>, tail: Seq<char>) -> bool {
    stands_at(hay, tail, hay.len() - tail.len())
}

/// Whether `needle` stands in `hay` at index `at`.
fn matches_at(hay: &Vec<char>, needle: &Vec<char>, at: usize) -> (r: bool)
    requires
        at + needle.len() <= hay.len(),
    ensures
        r == stands_at(hay@, needle@, at as int),
{
    let part = sub_vec(hay, at, at + needle.len());
    same_chars(&part, needle)
}

/// Whether `hay` holds `needle` somewhere, as [`has_subtext`] says.
pub fn contains_text(hay: &Vec<char>, needle: &str) -> (r: bool)
    ensures
        r == has_subtext(hay@, needle@),
{
    let n = chars_of(needle);
    if n.len() > hay.len() {
        return false;
    }
    if n.len() == 0 {
        assert(hay@.subrange(0, 0) =~= n@);
        assert(stands_at(hay@, n@, 0));
        return true;
    }
    let last = hay.len() - n.len();
    let mut at: usize = 0;
    while at <= last
        invariant
            at <= last + 1,
            last == hay.len() - n.len(),
            n.len() > 0,
            n@ == needle@,
            forall|k: int| 0 <= k < at ==> !stands_at(hay@, n@, k),
        decreases last + 1 - at,
    {
        if matches_at(hay, &n, at) {
            return true;
        }
        at += 1;
    }
    false
}

/// Whether `hay` ends in `tail`, as [`has_suffix`] says.
pub fn ends_with(hay: &Vec<char>, tail: &str) -> (r: bool)
    ensures
        r == has_suffix(hay@, tail@),
{
    let n = chars_of(tail);
    if n.len() > hay.len() {
        return false;
    }
    matches_at(hay, &n, hay.len() - n.len())
}

/// The strings of a list as plain values.
pub open spec fn strings_view(items: Seq<String>) -> Seq<Seq<char>> {
    Seq::new(items.len(), |i: int| items[i]@)
}

/// Whether a list of names holds `name`.
pub fn holds_name(items: &Vec<String>, name: &str) -> (r: bool)
    ensures
        r == strings_view(items@).contains(name@),
{
    let mut i: usize = 0;
    while i < items.len()
        invariant
            i <= items.len(),
            forall|k: int| 0 <= k < i ==> items@[k]@ != name@,
        decreases items.len() - i,
    {
        if same_text(items[i].as_str(), name) {
            assert(strings_view(items@)[i as int] == name@);
            return true;
        }
        i += 1;
    }
    false
}

/// The first index at or after `from` at which `needle` stands in `hay`,
/// or the length of `hay` where it stands nowhere behind.
pub open spec fn find_text(hay: Seq<char>, needle: Seq<char>, from: int) -> int
    decreases hay.len() - from,
{
    if from < 0 || from >= hay.len() || stands_at(hay, needle, from) {
        from
    } else {
        find_text(hay, needle, from + 1)
    }
}

/// Index form of [`find_text`].
pub(crate) fn locate_text(hay: &Vec<char>, needle: &Vec<char>, from: usize) -> (r: usize)
    requires
        from <= hay.len(),
    ensures
        r == find_text(hay@, needle@, from as int),
        from <= r <= hay.len(),
        r < hay.len() ==> stands_at(hay@, needle@, r as int),
{
    let mut i: usize = from;
    while i < hay.len()
        invariant
            from <= i <= hay.len(),
            find_text(hay@, needle@, from as int) == find_text(hay@, needle@, i as int),
        decreases hay.len() - i,
    {
        if needle.len() <= hay.len() - i && matches_at(hay, needle, i) {
            return i;
        }
        i += 1;
    }
    i
}

/// `s` with every space replaced by an underscore.
pub open spec fn underscored(s: Seq<char>) -> Seq<char> {
    Seq::new(
        s.len(),
        |i: int|
            if s[i] == ' ' {
                '_'
            } else {
                s[i]
            },
    )
}

/// Replaces every space by an underscore, as [`underscored`] says.
pub fn replace_spaces(s: &Vec<char>) -> (r: Vec<char>)
    ensures
        r@ == underscored(s@),
{
    let mut out: Vec<char> = Vec::new();
    let mut i: usize = 0;
    while i < s.len()
        invariant
            i <= s.len(),
            out@ == underscored(s@).take(i as int),
        decreases s.len() - i,
    {
        out.push(
            if s[i] == ' ' {
                '_'
            } else {
                s[i]
            },
        );
        i += 1;
    }
    assert(underscored(s@).take(s.len() as int) == underscored(s@));
    out
}

/// The lower-case form of a string by the rules of Unicode: what
/// `str::to_lowercase` yields.
pub uninterp spec fn lowercase_of(s: Seq<char>) -> Seq<char>;

/// `str::to_lowercase`.
#[verifier::external_body]
pub(crate) fn to_lowercase(s: &str) -> (r: String)
    ensures
        r@ == lowercase_of(s@),
{
    s.to_lowercase()
}

} // verus!
