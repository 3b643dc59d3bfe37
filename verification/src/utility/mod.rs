//! The pieces of a translation key: a stable hash, base-32 digits and
//! constant case.

use crate::text::{chars_of, string_of};
use std::hash::{BuildHasher, BuildHasherDefault, DefaultHasher};
use vstd::prelude::*;

verus! {

/// The hash that the standard library's default hasher, in its initial
/// state, gives to a string.
pub uninterp spec fn hash_of(text: Seq<char>) -> u64;

/// Whether a character has the Unicode property `Uppercase`: what
/// `char::is_uppercase` answers.
pub uninterp spec fn is_upper(c: char) -> bool;

/// Hashes a string with `DefaultHasher` in the state that `default()` gives
/// it, which holds no seed of the process: the same text has the same hash
/// in every run.
#[verifier::external_body]
pub fn hash_value(value: &str) -> (r: u64)
    ensures
        r == hash_of(value@),
{
    BuildHasherDefault::<DefaultHasher>::default().hash_one(value)
}

/// `char::is_uppercase`.
#[verifier::external_body]
fn is_uppercase(c: char) -> (r: bool)
    ensures
        r == is_upper(c),
{
    c.is_uppercase()
}

/// The capital of an ASCII small letter; any other character unchanged.
pub open spec fn ascii_upper(c: char) -> char {
    if 'a' <= c <= 'z' {
        ((c as u8) - 32) as char
    } else {
        c
    }
}

/// Executable form of [`ascii_upper`].
fn to_ascii_upper(c: char) -> (r: char)
    ensures
        r == ascii_upper(c),
{
    if 'a' <= c && c <= 'z' {
        ((c as u8) - 32) as char
    } else {
        c
    }
}

/// Whether a word starts at index `i` of `s`, so that an underscore is due
/// in front of it: a capital behind a character that is none, or the last
/// non-capital between two capitals.
pub open spec fn word_starts(s: Seq<char>, i: int) -> bool {
    0 < i < s.len() && ((is_upper(s[i]) && !is_upper(s[i - 1])) || (!is_upper(s[i]) && is_upper(
        s[i - 1],
    ) && i + 1 < s.len() && is_upper(s[i + 1])))
}

/// The first `n` characters of `s` in constant case.
pub open spec fn const_case_upto(s: Seq<char>, n: int) -> Seq<char>
    decreases n,
{
    if n <= 0 || n > s.len() {
        Seq::empty()
    } else if word_starts(s, n - 1) {
        const_case_upto(s, n - 1).push('_').push(ascii_upper(s[n - 1]))
    } else {
        const_case_upto(s, n - 1).push(ascii_upper(s[n - 1]))
    }
}

/// `s` in constant case: ASCII letters as capitals, an underscore where a
/// word starts.
pub open spec fn const_case(s: Seq<char>) -> Seq<char> {
    const_case_upto(s, s.len() as int)
}

/// Turns a camel-case name into constant case, as [`const_case`] says.
pub fn camel_to_const_case(input: &str) -> (r: String)
    ensures
        r@ == const_case(input@),
{
    let s = chars_of(input);
    let mut out: Vec<char> = Vec::new();
    let mut prev_was_upper = false;
    let mut i: usize = 0;
    while i < s.len()
        invariant
            i <= s.len(),
            out@ == const_case_upto(s@, i as int),
            i > 0 ==> prev_was_upper == is_upper(s@[i - 1]),
        decreases s.len() - i,
    {
        let c = s[i];
        let upper = is_uppercase(c);
        if i > 0 {
            if upper && !prev_was_upper {
                out.push('_');
            } else if i + 1 < s.len() {
                if !upper && prev_was_upper && is_uppercase(s[i + 1]) {
                    out.push('_');
                }
            }
        }
        out.push(to_ascii_upper(c));
        prev_was_upper = upper;
        i += 1;
    }
    string_of(&out)
}

/// The base-32 digit `d`: a capital letter below 26, then `2` to `7`.
pub open spec fn base32_char(d: int) -> char {
    if d < 26 {
        (d + 65) as u8 as char
    } else {
        (d + 24) as u8 as char
    }
}

/// A number in base-32 digits, most significant first; zero is `A`.
pub open spec fn base32_text(n: nat) -> Seq<char>
    decreases n,
{
    if n < 32 {
        seq![base32_char(n as int)]
    } else {
        base32_text(n / 32).push(base32_char((n % 32) as int))
    }
}

/// Appends the base-32 digits of `n` to `buf`.
fn push_base32(buf: &mut Vec<char>, n: u64)
    ensures
        final(buf)@ == old(buf)@ + base32_text(n as nat),
    decreases n,
{
    if n >= 32 {
        push_base32(buf, n / 32);
    }
    let d: u8 = (n % 32) as u8;
    let c = if d < 26 {
        (d + 65) as char
    } else {
        (d + 24) as char
    };
    buf.push(c);
    assert(buf@ =~= old(buf)@ + base32_text(n as nat));
}

/// Writes a number in base 32, as [`base32_text`] says.
pub fn u64_to_base32(num: u64) -> (r: String)
    ensures
        r@ == base32_text(num as nat),
{
    let mut buf: Vec<char> = Vec::new();
    push_base32(&mut buf, num);
    assert(buf@ =~= base32_text(num as nat));
    string_of(&buf)
}

} // verus!
