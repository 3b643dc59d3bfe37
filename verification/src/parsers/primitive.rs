//! The primitive types of parameters and how their captured text is
//! parsed.

use crate::numbers::{IntError, check_float, int_literal, int_result, is_float_literal, parse_int};
use crate::semantic::{GodotValue, Value};
use crate::text::{ascii_lower, chars_of, is_word_ignoring_case, lower_seq};
use vstd::prelude::*;

verus! {

/// Whether `ty` names one of the primitive types `int`, `float`, `bool`
/// and `string`; ASCII case does not count.
pub open spec fn is_basic(ty: Seq<char>) -> bool {
    let t = lower_seq(ty);
    t == "int"@ || t == "float"@ || t == "bool"@ || t == "string"@
}

/// Executable form of [`is_basic`].
pub fn is_basic_type(param_type: &str) -> (r: bool)
    ensures
        r == is_basic(param_type@),
{
    let t = chars_of(param_type);
    is_word_ignoring_case(&t, "int") || is_word_ignoring_case(&t, "float") || is_word_ignoring_case(
        &t,
        "bool",
    ) || is_word_ignoring_case(&t, "string")
}

/// The truth value that `text` names, whatever its ASCII case: `true`,
/// `yes` and `1`, or `false`, `no` and `0`.
pub open spec fn bool_literal(text: Seq<char>) -> Option<bool> {
    let w = lower_seq(text);
    if w == "true"@ || w == "yes"@ || w == "1"@ {
        Some(true)
    } else if w == "false"@ || w == "no"@ || w == "0"@ {
        Some(false)
    } else {
        None
    }
}

/// Executable form of [`bool_literal`].
pub fn parse_bool(text: &Vec<char>) -> (r: Option<bool>)
    ensures
        r == bool_literal(text@),
{
    if is_word_ignoring_case(text, "true") || is_word_ignoring_case(text, "yes")
        || is_word_ignoring_case(text, "1") {
        Some(true)
    } else if is_word_ignoring_case(text, "false") || is_word_ignoring_case(text, "no")
        || is_word_ignoring_case(text, "0") {
        Some(false)
    } else {
        None
    }
}

/// The value that the captured text `value` has as a primitive of type
/// `ty`, or the message that says why it has none.
///
/// An `int` is an integer literal within 64 bits, a `float` a decimal
/// number kept as its text, a `bool` one of the six truth words, a
/// `string` any text.
pub open spec fn basic_value(value: Seq<char>, ty: Seq<char>) -> Result<Value, Seq<char>> {
    let t = lower_seq(ty);
    if t == "int"@ {
        match int_result(int_literal(value)) {
            Ok(i) => Ok(Value::Int(i as int)),
            Err(IntError::Invalid) => Err("invalid digit found in string"@),
            Err(IntError::OutOfRange) => Err("number does not fit in 64 bits"@),
        }
    } else if t == "float"@ {
        if is_float_literal(value) {
            Ok(Value::Float(value))
        } else {
            Err("invalid float literal"@)
        }
    } else if t == "bool"@ {
        match bool_literal(value) {
            Some(b) => Ok(Value::Bool(b)),
            None => Err("Invalid boolean value: "@ + value),
        }
    } else if t == "string"@ {
        Ok(Value::String(value))
    } else {
        Err("Unknown basic type: "@ + ty)
    }
}

/// Parses the captured text of a primitive parameter, as [`basic_value`]
/// says.
pub fn parse_basic_parameter(value: &str, param_type: &str) -> (r: Result<GodotValue, String>)
    ensures
        match basic_value(value@, param_type@) {
            Ok(v) => r matches Ok(g) && g@ == v,
            Err(m) => r matches Err(e) && e@ == m,
        },
{
    let t = chars_of(param_type);
    let text = chars_of(value);
    if is_word_ignoring_case(&t, "int") {
        match parse_int(&text) {
            Ok(i) => Ok(GodotValue::Int(i)),
            Err(IntError::Invalid) => Err(String::from_str("invalid digit found in string")),
            Err(IntError::OutOfRange) => Err(String::from_str("number does not fit in 64 bits")),
        }
    } else if is_word_ignoring_case(&t, "float") {
        if check_float(&text) {
            Ok(GodotValue::Float(String::from_str(value)))
        } else {
            Err(String::from_str("invalid float literal"))
        }
    } else if is_word_ignoring_case(&t, "bool") {
        match parse_bool(&text) {
            Some(b) => Ok(GodotValue::Bool(b)),
            None => Err(String::from_str("Invalid boolean value: ").concat(value)),
        }
    } else if is_word_ignoring_case(&t, "string") {
        Ok(GodotValue::String(String::from_str(value)))
    } else {
        Err(String::from_str("Unknown basic type: ").concat(param_type))
    }
}

/// Whether the capture group of the primitive type `ty` can hold `text`,
/// as far as its ASCII alphabet goes: an integer literal for `int`, a
/// decimal number for `float`, one of the six truth words in small letters
/// for `bool`, anything for `string`.
pub open spec fn capturable(ty: Seq<char>, text: Seq<char>) -> bool {
    let t = lower_seq(ty);
    if t == "int"@ {
        int_literal(text) is Some
    } else if t == "float"@ {
        is_float_literal(text)
    } else if t == "bool"@ {
        text == "true"@ || text == "false"@ || text == "yes"@ || text == "no"@ || text == "1"@
            || text == "0"@
    } else {
        t == "string"@
    }
}

/// Parsing is total on what a primitive's capture group can hold: such a
/// text parses into a value of the parameter's type. The one exception is
/// an integer literal that does not fit in 64 bits.
pub proof fn lemma_captured_primitive_parses(ty: Seq<char>, text: Seq<char>)
    requires
        capturable(ty, text),
        lower_seq(ty) == "int"@ ==> i64::MIN <= int_literal(text).unwrap() <= i64::MAX,
    ensures
        basic_value(text, ty) is Ok,
        lower_seq(ty) == "int"@ ==> basic_value(text, ty) == Ok::<Value, Seq<char>>(
            Value::Int(int_literal(text).unwrap()),
        ),
        lower_seq(ty) == "float"@ ==> basic_value(text, ty) is Ok && basic_value(
            text,
            ty,
        )->Ok_0 is Float,
        lower_seq(ty) == "bool"@ ==> basic_value(text, ty) is Ok && basic_value(
            text,
            ty,
        )->Ok_0 is Bool,
        lower_seq(ty) == "string"@ ==> basic_value(text, ty) is Ok && basic_value(
            text,
            ty,
        )->Ok_0 is String,
{
    reveal_strlit("int");
    reveal_strlit("float");
    reveal_strlit("bool");
    reveal_strlit("string");
    reveal_strlit("true");
    reveal_strlit("false");
    reveal_strlit("yes");
    reveal_strlit("no");
    reveal_strlit("1");
    reveal_strlit("0");
    assert("int"@.len() == 3 && "float"@.len() == 5 && "bool"@.len() == 4 && "string"@.len() == 6);
    if lower_seq(ty) == "bool"@ {
        assert("true"@.len() == 4 && "false"@.len() == 5 && "yes"@.len() == 3 && "no"@.len() == 2
            && "1"@.len() == 1 && "0"@.len() == 1);
        assert forall|i: int| 0 <= i < text.len() implies ascii_lower(#[trigger] text[i])
            == text[i] by {
            if text == "true"@ {
                assert(text[0] == 't' && text[1] == 'r' && text[2] == 'u' && text[3] == 'e');
            } else if text == "false"@ {
                assert(text[0] == 'f' && text[1] == 'a' && text[2] == 'l' && text[3] == 's'
                    && text[4] == 'e');
            } else if text == "yes"@ {
                assert(text[0] == 'y' && text[1] == 'e' && text[2] == 's');
            } else if text == "no"@ {
                assert(text[0] == 'n' && text[1] == 'o');
            } else if text == "1"@ {
                assert(text[0] == '1');
            } else {
                assert(text[0] == '0');
            }
        }
        assert(lower_seq(text) =~= text);
        assert("true"@[0] == 't' && "false"@[0] == 'f' && "yes"@[0] == 'y' && "no"@[0] == 'n'
            && "1"@[0] == '1' && "0"@[0] == '0');
    }
}

/// The value of a YAML float: its text where that is a decimal number,
/// else zero.
pub open spec fn real_value(text: Seq<char>) -> Value {
    if is_float_literal(text) {
        Value::Float(text)
    } else {
        Value::Float("0.0"@)
    }
}

/// Executable form of [`real_value`].
pub fn read_real(text: &str) -> (r: GodotValue)
    ensures
        r@ == real_value(text@),
{
    if check_float(&chars_of(text)) {
        GodotValue::Float(String::from_str(text))
    } else {
        GodotValue::Float(String::from_str("0.0"))
    }
}

} // verus!
