//! Integer and decimal literals: what they write, and how they are read
//! and written.

use vstd::prelude::*;

verus! {

/// The value of the digit `c` in the given radix, or `None` where `c` is
/// no digit of that radix. Letters count in either case.
pub open spec fn digit_value(c: char, radix: int) -> Option<int> {
    let d = if '0' <= c <= '9' {
        c as int - '0' as int
    } else if 'a' <= c <= 'f' {
        c as int - 'a' as int + 10
    } else if 'A' <= c <= 'F' {
        c as int - 'A' as int + 10
    } else {
        -1
    };
    if 0 <= d < radix {
        Some(d)
    } else {
        None
    }
}

/// Executable form of [`digit_value`].
pub(crate) fn digit_of(c: char, radix: u8) -> (r: Option<u8>)
    requires
        2 <= radix <= 16,
    ensures
        r matches Some(d) ==> digit_value(c, radix as int) == Some(d as int),
        r is None ==> digit_value(c, radix as int) is None,
{
    let n: u32 = c as u32;
    let d: u32 = if '0' <= c && c <= '9' {
        n - 48
    } else if 'a' <= c && c <= 'f' {
        n - 97 + 10
    } else if 'A' <= c && c <= 'F' {
        n - 65 + 10
    } else {
        255
    };
    if d < radix as u32 {
        Some(d as u8)
    } else {
        None
    }
}

/// Every character of `s` is a digit of the radix, and there is at least
/// one.
pub open spec fn all_digits(s: Seq<char>, radix: int) -> bool {
    s.len() > 0 && forall|i: int| 0 <= i < s.len() ==> digit_value(#[trigger] s[i], radix) is Some
}

/// The number that the first `n` digits of `s` write in the given radix.
pub open spec fn digits_value(s: Seq<char>, radix: int, n: int) -> int
    decreases n,
{
    if n <= 0 || n > s.len() {
        0
    } else {
        digits_value(s, radix, n - 1) * radix + digit_value(s[n - 1], radix).unwrap_or(0)
    }
}

/// Digits write no negative number.
proof fn lemma_digits_value_nonnegative(s: Seq<char>, radix: int, n: int)
    requires
        radix >= 1,
    ensures
        0 <= digits_value(s, radix, n),
    decreases n,
{
    if 0 < n <= s.len() {
        lemma_digits_value_nonnegative(s, radix, n - 1);
        let v = digits_value(s, radix, n - 1);
        assert(v * radix >= 0) by (nonlinear_arith)
            requires
                v >= 0,
                radix >= 1,
        ;
    }
}

/// More digits never write a smaller number.
proof fn lemma_digits_value_grows(s: Seq<char>, radix: int, n: int, m: int)
    requires
        radix >= 1,
        0 <= n <= m <= s.len(),
    ensures
        digits_value(s, radix, n) <= digits_value(s, radix, m),
    decreases m,
{
    if n < m {
        lemma_digits_value_grows(s, radix, n, m - 1);
        lemma_digits_value_nonnegative(s, radix, m - 1);
        let v = digits_value(s, radix, m - 1);
        assert(v * radix >= v) by (nonlinear_arith)
            requires
                v >= 0,
                radix >= 1,
        ;
    }
}

/// The radix that the prefix of an unsigned integer literal announces.
pub open spec fn radix_of(body: Seq<char>) -> int {
    if body.len() >= 2 && body[0] == '0' && (body[1] == 'b' || body[1] == 'B') {
        2
    } else if body.len() >= 2 && body[0] == '0' && (body[1] == 'o' || body[1] == 'O') {
        8
    } else if body.len() >= 2 && body[0] == '0' && (body[1] == 'x' || body[1] == 'X') {
        16
    } else {
        10
    }
}

/// Whether `s` starts with a sign.
pub open spec fn has_sign(s: Seq<char>) -> bool {
    s.len() > 0 && (s[0] == '-' || s[0] == '+')
}

/// The number that `digits` write behind an optional minus.
pub open spec fn signed_value(negative: bool, digits: Seq<char>, radix: int) -> Option<int> {
    if all_digits(digits, radix) {
        let v = digits_value(digits, radix, digits.len() as int);
        Some(
            if negative {
                -v
            } else {
                v
            },
        )
    } else {
        None
    }
}

/// The integer that `s` writes: a sign if any, then `0b`, `0o` or `0x` and
/// digits of that radix, or decimal digits. `None` where `s` is no such
/// literal.
pub open spec fn int_literal(s: Seq<char>) -> Option<int> {
    let body = if has_sign(s) {
        s.subrange(1, s.len() as int)
    } else {
        s
    };
    let radix = radix_of(body);
    let digits = if radix == 10 {
        body
    } else {
        body.subrange(2, body.len() as int)
    };
    signed_value(s.len() > 0 && s[0] == '-', digits, radix)
}

/// The integer that `s` writes in decimal digits behind a sign, if any.
pub open spec fn decimal_literal(s: Seq<char>) -> Option<int> {
    let digits = if has_sign(s) {
        s.subrange(1, s.len() as int)
    } else {
        s
    };
    signed_value(s.len() > 0 && s[0] == '-', digits, 10)
}

/// Why a text is no 64-bit integer.
#[derive(Debug, PartialEq, Eq, Clone, Copy)]
pub enum IntError {
    /// The text is no integer literal.
    Invalid,
    /// The literal writes a number outside the 64-bit range.
    OutOfRange,
}

/// What reading a literal as a 64-bit integer gives.
pub open spec fn int_result(literal: Option<int>) -> Result<i64, IntError> {
    match literal {
        None => Err(IntError::Invalid),
        Some(v) => if i64::MIN <= v <= i64::MAX {
            Ok(v as i64)
        } else {
            Err(IntError::OutOfRange)
        },
    }
}

/// Reads `v[from..]` as digits of the radix behind a sign already seen.
fn read_digits(v: &Vec<char>, from: usize, radix: u8, negative: bool) -> (r: Result<i64, IntError>)
    requires
        from <= v.len(),
        2 <= radix <= 16,
    ensures
        r == int_result(signed_value(negative, v@.subrange(from as int, v.len() as int), radix as int)),
{
    let ghost digits = v@.subrange(from as int, v.len() as int);
    if from >= v.len() {
        return Err(IntError::Invalid);
    }
    let mut i: usize = from;
    while i < v.len()
        invariant
            from <= i <= v.len(),
            2 <= radix <= 16,
            digits == v@.subrange(from as int, v.len() as int),
            forall|k: int| 0 <= k < i - from ==> digit_value(#[trigger] digits[k], radix as int) is Some,
        decreases v.len() - i,
    {
        if digit_of(v[i], radix).is_none() {
            assert(digits[i - from] == v@[i as int]);
            return Err(IntError::Invalid);
        }
        assert(digits[i - from] == v@[i as int]);
        i += 1;
    }
    assert(all_digits(digits, radix as int));
    let limit: i128 = 0x8000_0000_0000_0000;
    let mut acc: i128 = 0;
    let mut j: usize = from;
    while j < v.len()
        invariant
            from <= j <= v.len(),
            2 <= radix <= 16,
            limit == 0x8000_0000_0000_0000,
            digits == v@.subrange(from as int, v.len() as int),
            all_digits(digits, radix as int),
            acc == digits_value(digits, radix as int, j - from),
            0 <= acc <= limit,
        decreases v.len() - j,
    {
        assert(digits[j - from] == v@[j as int]);
        let d = digit_of(v[j], radix).unwrap();
        assert(acc * (radix as i128) <= limit * 16) by (nonlinear_arith)
            requires
                0 <= acc <= limit,
                2 <= radix <= 16,
        ;
        assert(acc * (radix as i128) >= 0) by (nonlinear_arith)
            requires
                0 <= acc,
                2 <= radix,
        ;
        let next: i128 = acc * (radix as i128) + (d as i128);
        assert(next == digits_value(digits, radix as int, j - from + 1));
        if next > limit {
            proof {
                lemma_digits_value_grows(digits, radix as int, j - from + 1, digits.len() as int);
            }
            return Err(IntError::OutOfRange);
        }
        acc = next;
        j += 1;
    }
    if negative {
        Ok((-acc) as i64)
    } else if acc == limit {
        Err(IntError::OutOfRange)
    } else {
        Ok(acc as i64)
    }
}

/// Reads an integer literal, as [`int_literal`] says, into 64 bits.
pub fn parse_int(v: &Vec<char>) -> (r: Result<i64, IntError>)
    ensures
        r == int_result(int_literal(v@)),
{
    let signed = v.len() > 0 && (v[0] == '-' || v[0] == '+');
    let negative = v.len() > 0 && v[0] == '-';
    let start: usize = if signed {
        1
    } else {
        0
    };
    let ghost body = v@.subrange(start as int, v.len() as int);
    assert(!signed ==> body =~= v@);
    let mut radix: u8 = 10;
    if v.len() - start >= 2 && v[start] == '0' {
        let mark = v[start + 1];
        if mark == 'b' || mark == 'B' {
            radix = 2;
        } else if mark == 'o' || mark == 'O' {
            radix = 8;
        } else if mark == 'x' || mark == 'X' {
            radix = 16;
        }
    }
    assert(radix as int == radix_of(body));
    let from: usize = if radix == 10 {
        start
    } else {
        start + 2
    };
    assert(v@.subrange(from as int, v.len() as int) =~= if radix == 10 {
        body
    } else {
        body.subrange(2, body.len() as int)
    });
    read_digits(v, from, radix, negative)
}

/// Reads a decimal literal, as [`decimal_literal`] says, into 64 bits.
pub fn parse_decimal(v: &Vec<char>) -> (r: Result<i64, IntError>)
    ensures
        r == int_result(decimal_literal(v@)),
{
    let signed = v.len() > 0 && (v[0] == '-' || v[0] == '+');
    let negative = v.len() > 0 && v[0] == '-';
    let start: usize = if signed {
        1
    } else {
        0
    };
    assert(!signed ==> v@.subrange(0, v.len() as int) =~= v@);
    read_digits(v, start, 10, negative)
}

/// The character that writes the digit `d`.
pub open spec fn digit_char(d: int) -> char {
    (d + 48) as u8 as char
}

/// The decimal digits of a natural number, most significant first.
pub open spec fn nat_text(n: nat) -> Seq<char>
    decreases n,
{
    if n < 10 {
        seq![digit_char(n as int)]
    } else {
        nat_text(n / 10).push(digit_char((n % 10) as int))
    }
}

/// An integer in decimal digits, behind a minus where it is negative.
pub open spec fn int_text(i: int) -> Seq<char> {
    if i < 0 {
        seq!['-'] + nat_text((-i) as nat)
    } else {
        nat_text(i as nat)
    }
}

/// Appends the decimal digits of `n` to `buf`.
fn push_nat(buf: &mut Vec<char>, n: u64)
    ensures
        final(buf)@ == old(buf)@ + nat_text(n as nat),
    decreases n,
{
    if n >= 10 {
        push_nat(buf, n / 10);
    }
    let d: u8 = (n % 10) as u8;
    buf.push((d + 48) as char);
    assert(buf@ =~= old(buf)@ + nat_text(n as nat));
}

/// The decimal text of a 64-bit integer.
pub fn int_chars(i: i64) -> (r: Vec<char>)
    ensures
        r@ == int_text(i as int),
{
    let mut buf: Vec<char> = Vec::new();
    if i < 0 {
        buf.push('-');
        let magnitude: u64 = if i == i64::MIN {
            0x8000_0000_0000_0000
        } else {
            (-i) as u64
        };
        push_nat(&mut buf, magnitude);
    } else {
        push_nat(&mut buf, i as u64);
        assert(buf@ =~= nat_text(i as nat));
    }
    buf
}

/// Whether `c` is one of the ten decimal digits.
pub open spec fn is_decimal_digit(c: char) -> bool {
    '0' <= c <= '9'
}

/// The first index at or after `from` that holds no decimal digit, or the
/// length of `s`.
pub open spec fn digits_end(s: Seq<char>, from: int) -> int
    decreases s.len() - from,
{
    if from < 0 || from >= s.len() || !is_decimal_digit(s[from]) {
        from
    } else {
        digits_end(s, from + 1)
    }
}

/// Index form of [`digits_end`].
fn skip_digits(v: &Vec<char>, from: usize) -> (r: usize)
    requires
        from <= v.len(),
    ensures
        r == digits_end(v@, from as int),
        from <= r <= v.len(),
{
    let mut i: usize = from;
    while i < v.len() && '0' <= v[i] && v[i] <= '9'
        invariant
            from <= i <= v.len(),
            digits_end(v@, from as int) == digits_end(v@, i as int),
        decreases v.len() - i,
    {
        i += 1;
    }
    i
}

/// Where the mantissa of a float literal ends in `s`, which it enters at
/// `from`, or `None` where no mantissa stands there: digits, digits with a
/// point and more digits if any, or a point with digits behind it.
pub open spec fn mantissa_end(s: Seq<char>, from: int) -> Option<int> {
    let b = digits_end(s, from);
    let c = digits_end(s, b + 1);
    if 0 <= b < s.len() && s[b] == '.' {
        if b > from || c > b + 1 {
            Some(c)
        } else {
            None
        }
    } else if b > from {
        Some(b)
    } else {
        None
    }
}

/// Whether `s[from..]` is empty or an exponent: `e` or `E`, a sign if any,
/// and at least one digit up to the end of `s`.
pub open spec fn exponent_ok(s: Seq<char>, from: int) -> bool {
    let signed = from + 1 < s.len() && (s[from + 1] == '-' || s[from + 1] == '+');
    let start = if signed {
        from + 2
    } else {
        from + 1
    };
    from == s.len() || (0 <= from < s.len() && (s[from] == 'e' || s[from] == 'E') && digits_end(
        s,
        start,
    ) > start && digits_end(s, start) == s.len())
}

/// Whether `s` writes a decimal number: a sign if any, a mantissa, and an
/// exponent if any.
pub open spec fn is_float_literal(s: Seq<char>) -> bool {
    let start: int = if has_sign(s) {
        1
    } else {
        0
    };
    match mantissa_end(s, start) {
        None => false,
        Some(m) => exponent_ok(s, m),
    }
}

/// Executable form of [`is_float_literal`].
pub fn check_float(v: &Vec<char>) -> (r: bool)
    ensures
        r == is_float_literal(v@),
{
    let start: usize = if v.len() > 0 && (v[0] == '-' || v[0] == '+') {
        1
    } else {
        0
    };
    let b = skip_digits(v, start);
    let m: usize;
    if b < v.len() && v[b] == '.' {
        let c = skip_digits(v, b + 1);
        if b > start || c > b + 1 {
            m = c;
        } else {
            return false;
        }
    } else if b > start {
        m = b;
    } else {
        return false;
    }
    if m == v.len() {
        return true;
    }
    if v[m] != 'e' && v[m] != 'E' {
        return false;
    }
    let signed = m + 1 < v.len() && (v[m + 1] == '-' || v[m + 1] == '+');
    let from: usize = if signed {
        m + 2
    } else {
        m + 1
    };
    let e = skip_digits(v, from);
    e > from && e == v.len()
}

} // verus!
