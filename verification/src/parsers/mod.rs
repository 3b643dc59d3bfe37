//! The parsers that work on the tree of statements.

pub mod debug;
pub mod errors;
pub mod grammar;
pub mod phrase;
pub mod primitive;
pub mod render;
pub mod sentence;
pub mod template;
pub mod typed_sentences;

use crate::numbers::{int_chars, int_text};
use crate::semantic::{
    DokeNode, GodotValue, NodeView, Value, fields_view, lemma_node_view, nodes_view,
};
use crate::text::{
    chars_of, extend_chars, find_char, index_of, lowercase_of, replace_spaces, same_chars,
    string_of, sub_vec, to_lowercase, underscored,
};
use vstd::prelude::*;

verus! {

/// Fills the placeholders `{name}` of every statement in from the front
/// matter.
#[derive(Debug, PartialEq)]
pub struct FrontmatterTemplateParser;

/// Whether `c` may stand in the name of a placeholder: an ASCII letter or
/// digit, an underscore or a space.
pub open spec fn is_name_char(c: char) -> bool {
    ('a' <= c <= 'z') || ('A' <= c <= 'Z') || ('0' <= c <= '9') || c == '_' || c == ' '
}

/// The first index at or after `from` that holds no name character, or
/// the length of `s`.
pub open spec fn name_end(s: Seq<char>, from: int) -> int
    decreases s.len() - from,
{
    if from < 0 || from >= s.len() || !is_name_char(s[from]) {
        from
    } else {
        name_end(s, from + 1)
    }
}

/// The key under which a name is looked up: in lower case, with
/// underscores for spaces.
pub open spec fn lookup_key(name: Seq<char>) -> Seq<char> {
    underscored(lowercase_of(name))
}

/// The value that the first `n` entries of the front matter hold for
/// `key`: that of the last entry whose name gives the key.
pub open spec fn front_value(front: Seq<(Seq<char>, Value)>, key: Seq<char>, n: int) -> Option<
    Value,
>
    decreases n,
{
    if n <= 0 || n > front.len() {
        None
    } else if lookup_key(front[n - 1].0) == key {
        Some(front[n - 1].1)
    } else {
        front_value(front, key, n - 1)
    }
}

/// The text that stands for a scalar in a statement; `None` for nil, an
/// array, a dictionary and a resource.
pub open spec fn scalar_text(v: Value) -> Option<Seq<char>> {
    match v {
        Value::Int(i) => Some(int_text(i)),
        Value::Float(t) => Some(t),
        Value::String(t) => Some(t),
        Value::Bool(b) => Some(
            if b {
                "true"@
            } else {
                "false"@
            },
        ),
        _ => None,
    }
}

/// What stands in place of the placeholder `whole` with the name `name`:
/// the text of the scalar that the front matter holds for it, else the
/// placeholder as it is.
pub open spec fn filled(name: Seq<char>, whole: Seq<char>, front: Seq<(Seq<char>, Value)>) -> Seq<
    char,
> {
    match front_value(front, lookup_key(name), front.len() as int) {
        Some(v) => match scalar_text(v) {
            Some(t) => t,
            None => whole,
        },
        None => whole,
    }
}

/// The statement `s` from index `from` on with every placeholder filled
/// in. A placeholder is a `{`, at least one name character, and a `}`.
pub open spec fn substituted(s: Seq<char>, from: int, front: Seq<(Seq<char>, Value)>) -> Seq<char>
    decreases s.len() - from,
{
    let p = index_of(s, '{', from);
    let e = name_end(s, p + 1);
    if from < 0 || from >= s.len() {
        Seq::empty()
    } else if p >= s.len() || p < from {
        s.subrange(from, s.len() as int)
    } else if p + 1 < e < s.len() && s[e] == '}' {
        s.subrange(from, p) + filled(s.subrange(p + 1, e), s.subrange(p, e + 1), front)
            + substituted(s, e + 1, front)
    } else {
        s.subrange(from, p + 1) + substituted(s, p + 1, front)
    }
}

/// A tree with the placeholders of every statement filled in: of the
/// node, and of every statement nested under it.
pub open spec fn templated(node: NodeView, front: Seq<(Seq<char>, Value)>) -> NodeView
    decreases node,
{
    NodeView {
        statement: substituted(node.statement, 0, front),
        children: Seq::new(
            node.children.len(),
            |i: int|
                if 0 <= i < node.children.len() {
                    templated(node.children[i], front)
                } else {
                    arbitrary()
                },
        ),
        ..node
    }
}

/// Index form of [`name_end`].
fn skip_name(s: &Vec<char>, from: usize) -> (r: usize)
    requires
        from <= s.len(),
    ensures
        r == name_end(s@, from as int),
        from <= r <= s.len(),
{
    let mut i: usize = from;
    while i < s.len() && (('a' <= s[i] && s[i] <= 'z') || ('A' <= s[i] && s[i] <= 'Z') || ('0'
        <= s[i] && s[i] <= '9') || s[i] == '_' || s[i] == ' ')
        invariant
            from <= i <= s.len(),
            name_end(s@, from as int) == name_end(s@, i as int),
        decreases s.len() - i,
    {
        i += 1;
    }
    i
}

/// The key of a name, as [`lookup_key`] says.
fn key_of(name: &str) -> (r: Vec<char>)
    ensures
        r@ == lookup_key(name@),
{
    replace_spaces(&chars_of(to_lowercase(name).as_str()))
}

/// The text of a scalar, as [`scalar_text`] says.
fn scalar_chars(v: &GodotValue) -> (r: Option<Vec<char>>)
    ensures
        r.deep_view() == scalar_text(v@),
{
    match v {
        GodotValue::Int(i) => Some(int_chars(*i)),
        GodotValue::Float(t) => Some(chars_of(t.as_str())),
        GodotValue::String(t) => Some(chars_of(t.as_str())),
        GodotValue::Bool(b) => Some(
            if *b {
                chars_of("true")
            } else {
                chars_of("false")
            },
        ),
        _ => None,
    }
}

/// The text for a placeholder, as [`filled`] says.
fn fill(name: &Vec<char>, whole: &Vec<char>, frontmatter: &Vec<(String, GodotValue)>) -> (r: Vec<
    char,
>)
    ensures
        r@ == filled(name@, whole@, fields_view(frontmatter@)),
{
    let key = key_of(string_of(name).as_str());
    let ghost front = fields_view(frontmatter@);
    let mut n: usize = frontmatter.len();
    while n > 0
        invariant
            n <= frontmatter.len(),
            front == fields_view(frontmatter@),
            key@ == lookup_key(name@),
            front_value(front, key@, front.len() as int) == front_value(front, key@, n as int),
        decreases n,
    {
        assert(front[n - 1] == (frontmatter@[n - 1].0@, frontmatter@[n - 1].1@));
        let entry = key_of(frontmatter[n - 1].0.as_str());
        if same_chars(&entry, &key) {
            return match scalar_chars(&frontmatter[n - 1].1) {
                Some(t) => t,
                None => sub_vec(whole, 0, whole.len()),
            };
        }
        n -= 1;
    }
    sub_vec(whole, 0, whole.len())
}

/// Fills in the placeholders of one statement, as [`substituted`] says.
pub fn substitute(statement: &str, frontmatter: &Vec<(String, GodotValue)>) -> (r: String)
    ensures
        r@ == substituted(statement@, 0, fields_view(frontmatter@)),
{
    let s = chars_of(statement);
    let ghost front = fields_view(frontmatter@);
    let mut out: Vec<char> = Vec::new();
    let mut i: usize = 0;
    while i < s.len()
        invariant
            i <= s.len(),
            front == fields_view(frontmatter@),
            substituted(s@, 0, front) == out@ + substituted(s@, i as int, front),
        decreases s.len() - i,
    {
        let p = find_char(&s, '{', i);
        if p >= s.len() {
            extend_chars(&mut out, &sub_vec(&s, i, s.len()));
            i = s.len();
        } else {
            let e = skip_name(&s, p + 1);
            if p + 1 < e && e < s.len() && s[e] == '}' {
                extend_chars(&mut out, &sub_vec(&s, i, p));
                let name = sub_vec(&s, p + 1, e);
                let whole = sub_vec(&s, p, e + 1);
                extend_chars(&mut out, &fill(&name, &whole, frontmatter));
                i = e + 1;
            } else {
                extend_chars(&mut out, &sub_vec(&s, i, p + 1));
                i = p + 1;
            }
        }
        assert(substituted(s@, 0, front) =~= out@ + substituted(s@, i as int, front));
    }
    assert(out@ =~= substituted(s@, 0, front));
    string_of(&out)
}

impl FrontmatterTemplateParser {
    /// Fills in the placeholders of a tree, as [`templated`] says.
    pub fn process(&self, node: &mut DokeNode, frontmatter: &Vec<(String, GodotValue)>)
        ensures
            final(node)@ == templated(old(node)@, fields_view(frontmatter@)),
        decreases *old(node),
    {
        proof {
            lemma_node_view(*node);
        }
        let ghost start = node@;
        node.statement = substitute(node.statement.as_str(), frontmatter);
        let mut i: usize = 0;
        while i < node.children.len()
            invariant
                i <= node.children.len(),
                start == old(node)@,
                node.children.len() == old(node).children.len(),
                node.statement@ == substituted(start.statement, 0, fields_view(frontmatter@)),
                node.state == old(node).state,
                node.parse_data == old(node).parse_data,
                node.constituents == old(node).constituents,
                node.span == old(node).span,
                forall|k: int| i <= k < node.children.len() ==> node.children@[k] == old(
                    node,
                ).children@[k],
                forall|k: int|
                    0 <= k < i ==> #[trigger] nodes_view(node.children@)[k] == templated(
                        start.children[k],
                        fields_view(frontmatter@),
                    ),
            decreases node.children.len() - i,
        {
            proof {
                lemma_node_view(*old(node));
            }
            let ghost before = node.children@;
            let ghost seen = nodes_view(node.children@);
            let mut child = node.children.remove(i);
            assert(child == old(node).children@[i as int]);
            assert(child@ == start.children[i as int]);
            self.process(&mut child, frontmatter);
            node.children.insert(i, child);
            proof {
                assert(node.children@ =~= before.update(i as int, child));
                let after = nodes_view(node.children@);
                assert(after[i as int] == child@);
                assert forall|k: int| 0 <= k < node.children.len() && k != i implies after[k]
                    == seen[k] by {}
            }
            i += 1;
        }
        proof {
            lemma_node_view(*node);
            lemma_node_view(*old(node));
            let want = templated(old(node)@, fields_view(frontmatter@));
            assert(node@.children =~= want.children);
        }
    }
}

} // verus!
