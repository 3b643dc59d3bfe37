//! Values as text, and format strings.

use crate::numbers::{int_chars, int_text};
use crate::semantic::{
    GodotValue, Value, fields_view, find_field, lemma_value_view, lookup, values_view,
};
use crate::text::{chars_of, extend_chars, find_char, index_of, string_of, sub_vec};
use vstd::prelude::*;

verus! {

/// A value as text, the way a format string shows it.
///
/// Nil is empty; a boolean is `true` or `false`; an integer is written in
/// decimal; a float and a string are their text; an array is `[a, b]`; a
/// dictionary is `{k:v, k:v}`; a resource is `Resource(type=T,k=v,k=v)`.
pub open spec fn value_text(v: Value) -> Seq<char>
    decreases v, 0int,
{
    match v {
        Value::Nil => Seq::empty(),
        Value::Bool(b) => if b {
            "true"@
        } else {
            "false"@
        },
        Value::Int(i) => int_text(i),
        Value::Float(t) => t,
        Value::String(t) => t,
        Value::Array(items) => seq!['['] + items_text(items, items.len() as int) + seq![']'],
        Value::Dict(entries) => seq!['{'] + entries_text(entries, entries.len() as int) + seq!['}'],
        Value::Resource { resource_type, fields } => "Resource(type="@ + resource_type
            + fields_text(fields, fields.len() as int) + seq![')'],
    }
}

/// The texts of the first `n` items, with a comma and a space between them.
pub open spec fn items_text(items: Seq<Value>, n: int) -> Seq<char>
    decreases items, n,
{
    if n <= 0 || n > items.len() {
        Seq::empty()
    } else if n == 1 {
        value_text(items[0])
    } else {
        items_text(items, n - 1) + ", "@ + value_text(items[n - 1])
    }
}

/// The first `n` entries as `key:value`, with a comma and a space between
/// them.
pub open spec fn entries_text(entries: Seq<(Seq<char>, Value)>, n: int) -> Seq<char>
    decreases entries, n,
{
    if n <= 0 || n > entries.len() {
        Seq::empty()
    } else if n == 1 {
        entries[0].0 + seq![':'] + value_text(entries[0].1)
    } else {
        entries_text(entries, n - 1) + ", "@ + (entries[n - 1].0 + seq![':'] + value_text(
            entries[n - 1].1,
        ))
    }
}

/// The first `n` fields as `,key=value`, one behind the other.
pub open spec fn fields_text(fields: Seq<(Seq<char>, Value)>, n: int) -> Seq<char>
    decreases fields, n,
{
    if n <= 0 || n > fields.len() {
        Seq::empty()
    } else {
        fields_text(fields, n - 1) + (seq![','] + fields[n - 1].0 + seq!['='] + value_text(
            fields[n - 1].1,
        ))
    }
}

/// The characters of [`value_text`].
pub fn value_chars(v: &GodotValue) -> (r: Vec<char>)
    ensures
        r@ == value_text(v@),
    decreases v,
{
    proof {
        lemma_value_view(*v);
    }
    match v {
        GodotValue::Nil => Vec::new(),
        GodotValue::Bool(b) => if *b {
            chars_of("true")
        } else {
            chars_of("false")
        },
        GodotValue::Int(i) => int_chars(*i),
        GodotValue::Float(t) => chars_of(t.as_str()),
        GodotValue::String(t) => chars_of(t.as_str()),
        GodotValue::Array(items) => {
            let mut buf: Vec<char> = Vec::new();
            buf.push('[');
            push_items(&mut buf, items);
            buf.push(']');
            buf
        },
        GodotValue::Dict(entries) => {
            let mut buf: Vec<char> = Vec::new();
            buf.push('{');
            push_entries(&mut buf, entries);
            buf.push('}');
            buf
        },
        GodotValue::Resource { resource_type, fields } => {
            let mut buf = chars_of("Resource(type=");
            let name = chars_of(resource_type.as_str());
            extend_chars(&mut buf, &name);
            push_fields(&mut buf, fields);
            buf.push(')');
            buf
        },
    }
}

/// Appends the text of the items of an array.
fn push_items(buf: &mut Vec<char>, items: &Vec<GodotValue>)
    ensures
        final(buf)@ == old(buf)@ + items_text(values_view(items@), items.len() as int),
    decreases items,
{
    let ghost all = values_view(items@);
    let mut i: usize = 0;
    while i < items.len()
        invariant
            i <= items.len(),
            all == values_view(items@),
            buf@ == old(buf)@ + items_text(all, i as int),
        decreases items.len() - i,
    {
        if i > 0 {
            buf.push(',');
            buf.push(' ');
        }
        let part = value_chars(&items[i]);
        extend_chars(buf, &part);
        proof {
            reveal_strlit(", ");
            assert(", "@ =~= seq![',', ' ']);
            assert(all[i as int] == items@[i as int]@);
            assert(buf@ =~= old(buf)@ + items_text(all, i + 1));
        }
        i += 1;
    }
}

/// Appends the text of the entries of a dictionary.
fn push_entries(buf: &mut Vec<char>, entries: &Vec<(String, GodotValue)>)
    ensures
        final(buf)@ == old(buf)@ + entries_text(fields_view(entries@), entries.len() as int),
    decreases entries,
{
    let ghost all = fields_view(entries@);
    let mut i: usize = 0;
    while i < entries.len()
        invariant
            i <= entries.len(),
            all == fields_view(entries@),
            buf@ == old(buf)@ + entries_text(all, i as int),
        decreases entries.len() - i,
    {
        if i > 0 {
            buf.push(',');
            buf.push(' ');
        }
        let key = chars_of(entries[i].0.as_str());
        extend_chars(buf, &key);
        buf.push(':');
        let part = value_chars(&entries[i].1);
        extend_chars(buf, &part);
        proof {
            reveal_strlit(", ");
            assert(", "@ =~= seq![',', ' ']);
            assert(all[i as int] == (entries@[i as int].0@, entries@[i as int].1@));
            assert(buf@ =~= old(buf)@ + entries_text(all, i + 1));
        }
        i += 1;
    }
}

/// Appends the text of the fields of a resource.
fn push_fields(buf: &mut Vec<char>, fields: &Vec<(String, GodotValue)>)
    ensures
        final(buf)@ == old(buf)@ + fields_text(fields_view(fields@), fields.len() as int),
    decreases fields,
{
    let ghost all = fields_view(fields@);
    let mut i: usize = 0;
    while i < fields.len()
        invariant
            i <= fields.len(),
            all == fields_view(fields@),
            buf@ == old(buf)@ + fields_text(all, i as int),
        decreases fields.len() - i,
    {
        buf.push(',');
        let key = chars_of(fields[i].0.as_str());
        extend_chars(buf, &key);
        buf.push('=');
        let part = value_chars(&fields[i].1);
        extend_chars(buf, &part);
        proof {
            assert(all[i as int] == (fields@[i as int].0@, fields@[i as int].1@));
            assert(buf@ =~= old(buf)@ + fields_text(all, i + 1));
        }
        i += 1;
    }
}

/// A value as text, as [`value_text`] says.
pub fn godot_value_to_string(v: &GodotValue) -> (r: String)
    ensures
        r@ == value_text(v@),
{
    string_of(&value_chars(v))
}

/// What stands in place of the placeholder `whole`, which names `key`:
/// the text of the parameter of that name, else of the front-matter entry
/// of that name, else the placeholder as it is.
pub open spec fn replacement(
    key: Seq<char>,
    whole: Seq<char>,
    params: Seq<(Seq<char>, Value)>,
    front: Seq<(Seq<char>, Value)>,
) -> Seq<char> {
    match lookup(params, key) {
        Some(v) => value_text(v),
        None => match lookup(front, key) {
            Some(v) => value_text(v),
            None => whole,
        },
    }
}

/// The format string `fmt` from index `from` on, with every placeholder
/// `{name}` replaced as [`replacement`] says. A placeholder is a `{`, at
/// least one character other than `}`, and a `}`.
pub open spec fn formatted(
    fmt: Seq<char>,
    from: int,
    params: Seq<(Seq<char>, Value)>,
    front: Seq<(Seq<char>, Value)>,
) -> Seq<char>
    decreases fmt.len() - from,
{
    let p = index_of(fmt, '{', from);
    let q = index_of(fmt, '}', p + 1);
    if from < 0 || from >= fmt.len() {
        Seq::empty()
    } else if p >= fmt.len() || q >= fmt.len() || !(from <= p < q) {
        fmt.subrange(from, fmt.len() as int)
    } else if q == p + 1 {
        fmt.subrange(from, p + 1) + formatted(fmt, p + 1, params, front)
    } else {
        fmt.subrange(from, p) + replacement(
            fmt.subrange(p + 1, q),
            fmt.subrange(p, q + 1),
            params,
            front,
        ) + formatted(fmt, q + 1, params, front)
    }
}

/// Fills in a format string, as [`formatted`] says.
pub fn perform_format_string(
    fmt: &str,
    params: &Vec<(String, GodotValue)>,
    front: &Vec<(String, GodotValue)>,
) -> (r: String)
    ensures
        r@ == formatted(fmt@, 0, fields_view(params@), fields_view(front@)),
{
    let s = chars_of(fmt);
    let ghost ps = fields_view(params@);
    let ghost fs = fields_view(front@);
    let mut out: Vec<char> = Vec::new();
    let mut i: usize = 0;
    while i < s.len()
        invariant
            i <= s.len(),
            s@ == fmt@,
            ps == fields_view(params@),
            fs == fields_view(front@),
            formatted(s@, 0, ps, fs) == out@ + formatted(s@, i as int, ps, fs),
        decreases s.len() - i,
    {
        let p = find_char(&s, '{', i);
        if p >= s.len() {
            let rest = sub_vec(&s, i, s.len());
            extend_chars(&mut out, &rest);
            i = s.len();
        } else {
            let q = find_char(&s, '}', p + 1);
            if q >= s.len() {
                let rest = sub_vec(&s, i, s.len());
                extend_chars(&mut out, &rest);
                i = s.len();
            } else if q == p + 1 {
                let text = sub_vec(&s, i, p + 1);
                extend_chars(&mut out, &text);
                i = p + 1;
            } else {
                let text = sub_vec(&s, i, p);
                extend_chars(&mut out, &text);
                let key = string_of(&sub_vec(&s, p + 1, q));
                let a = find_field(params, key.as_str());
                if a < params.len() {
                    let shown = value_chars(&params[a].1);
                    extend_chars(&mut out, &shown);
                } else {
                    let b = find_field(front, key.as_str());
                    if b < front.len() {
                        let shown = value_chars(&front[b].1);
                        extend_chars(&mut out, &shown);
                    } else {
                        let whole = sub_vec(&s, p, q + 1);
                        extend_chars(&mut out, &whole);
                    }
                }
                i = q + 1;
            }
        }
        assert(formatted(s@, 0, ps, fs) =~= out@ + formatted(s@, i as int, ps, fs));
    }
    assert(out@ =~= formatted(s@, 0, ps, fs));
    string_of(&out)
}

} // verus!
