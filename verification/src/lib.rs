//! Turns loosely structured documents into typed values.
//!
//! A document is markdown with an optional YAML front matter. Its
//! statements are matched against sentence templates, which are compiled
//! into anchored patterns with typed capture groups; what a sentence
//! captures as a statement of its own is resolved in turn, down to a fixed
//! depth. A last pass validates the tree and merges the values of nested
//! statements into the values of the statements that hold them.
//!
//! Every executable function is verified against the mathematical model
//! of its data: the view of a value, of a node, of a grammar. What the
//! crates `regex`, `yaml_rust2` and `markdown` compute is taken on trust
//! and stands behind a name of its own in the contracts.

pub mod base_parser;
pub mod file_builder;
pub mod invariants;
pub mod markdown_bridge;
pub mod numbers;
pub mod parsers;
pub mod regex_bridge;
pub mod semantic;
pub mod text;
pub mod utility;
pub mod yaml;

use crate::base_parser::{
    DokeBaseDocument, DokeBaseParser, DokeParseError, DokeStatement, Position, Statement,
    lemma_statement_view, sibling_statements, statements_view,
};
use crate::markdown_bridge::{MdNode, MdTree, markdown_tree, parse_markdown};
use crate::parsers::{FrontmatterTemplateParser, templated};
use crate::parsers::debug::DebugPrinter;
use crate::parsers::primitive::{read_real, real_value};
use crate::parsers::sentence::{Grammar, MAX_DEPTH, SentenceParser, resolved};
use crate::parsers::typed_sentences::{Rule, TypedSentencesParser, dispatched};
use crate::semantic::{
    DokeNode, DokeNodeState, DokeParser, DokeValidate, DokeValidationError, GodotValue, NodeView,
    State, Value, fields_view, lemma_node_view, lemma_value_view, named_nodes_view, nodes_view,
    set_field, tree_outcome, upsert, validated_roots, values_view,
};
use crate::text::{
    chars_of, find_text, locate_text, lowercase_of, replace_spaces, skip_spaces, string_of, sub_vec,
    text_end, to_lowercase, trim_chars, trimmed, underscored,
};
use crate::yaml::{YamlNode, YamlValue, lemma_yaml_view, yaml_documents, yaml_entries_view};
use vstd::utf8::{decode_utf8, encode_utf8, is_char_boundary};
use vstd::prelude::*;

verus! {

/// A document after the pipeline has run: its statements as nodes, and its
/// front matter.
#[derive(Debug, PartialEq)]
pub struct DokeDocument {
    pub nodes: Vec<DokeNode>,
    pub frontmatter: Vec<(String, GodotValue)>,
}

/// The name under which a front-matter key is kept: without the white
/// space around it, in lower case, with underscores for spaces.
pub open spec fn normalized_key(key: Seq<char>) -> Seq<char> {
    underscored(lowercase_of(trimmed(key)))
}

/// Normalizes a front-matter key, as [`normalized_key`] says.
pub fn normalize_key(key: &str) -> (r: String)
    ensures
        r@ == normalized_key(key@),
{
    let t = string_of(&trim_chars(&chars_of(key)));
    let low = to_lowercase(t.as_str());
    string_of(&replace_spaces(&chars_of(low.as_str())))
}

/// The line that opens and closes the front matter.
pub open spec fn fence() -> Seq<char> {
    "---"@
}

/// The first index at or after `from` that holds neither a carriage
/// return nor a line feed, or the length of `s`.
pub open spec fn first_past_breaks(s: Seq<char>, from: int) -> int
    decreases s.len() - from,
{
    if from < 0 || from >= s.len() || !(s[from] == '\r' || s[from] == '\n') {
        from
    } else {
        first_past_breaks(s, from + 1)
    }
}

/// The front matter of `input`, if it has one, and the rest.
///
/// The front matter stands between the first two fences and is taken
/// without the white space around it; the rest follows the second fence
/// behind any line breaks. With one fence only, everything behind it is
/// front matter and the rest is empty. Without a fence there is no front
/// matter and the rest is the whole input.
pub open spec fn frontmatter_parts(input: Seq<char>) -> (Option<Seq<char>>, Seq<char>) {
    let a = find_text(input, fence(), 0);
    let b = find_text(input, fence(), a + 3);
    if a >= input.len() {
        (None, input)
    } else if b >= input.len() {
        (Some(trimmed(input.subrange(a + 3, input.len() as int))), Seq::empty())
    } else {
        (
            Some(trimmed(input.subrange(a + 3, b))),
            input.subrange(first_past_breaks(input, b + 3), input.len() as int),
        )
    }
}

/// Splits the front matter from a document, as [`frontmatter_parts`]
/// says.
pub fn extract_frontmatter(input: &str) -> (r: (Option<&str>, &str))
    ensures
        r.0.deep_view() == frontmatter_parts(input@).0,
        r.1@ == frontmatter_parts(input@).1,
{
    let s = chars_of(input);
    let mark = chars_of("---");
    proof {
        reveal_strlit("---");
    }
    let a = locate_text(&s, &mark, 0);
    if a >= s.len() {
        assert(input@.subrange(0, s.len() as int) =~= input@);
        return (None, input.substring_char(0, s.len()));
    }
    let b = locate_text(&s, &mark, a + 3);
    let end = if b < s.len() {
        b
    } else {
        s.len()
    };
    let inner = sub_vec(&s, a + 3, end);
    let x = skip_spaces(&inner, 0);
    let y = text_end(&inner, inner.len());
    let front = if x < y {
        assert(input@.subrange(a + 3 + x, a + 3 + y) =~= inner@.subrange(x as int, y as int));
        input.substring_char(a + 3 + x, a + 3 + y)
    } else {
        assert(input@.subrange(0, 0) =~= Seq::<char>::empty());
        input.substring_char(0, 0)
    };
    if b >= s.len() {
        assert(input@.subrange(s.len() as int, s.len() as int) =~= Seq::<char>::empty());
        return (Some(front), input.substring_char(s.len(), s.len()));
    }
    let mut at: usize = b + 3;
    while at < s.len() && (s[at] == '\r' || s[at] == '\n')
        invariant
            b + 3 <= at <= s.len(),
            first_past_breaks(s@, b + 3) == first_past_breaks(s@, at as int),
        decreases s.len() - at,
    {
        at += 1;
    }
    (Some(front), input.substring_char(at, s.len()))
}

/// The value that a YAML node stands for. A mapping becomes a dictionary
/// of its entries with string keys, a later entry taking the place of an
/// earlier one of the same key; with `normalize`, every key is kept under
/// its normalized name. An alias, a null and a bad value become nil.
pub open spec fn godot_of_yaml(y: YamlValue, normalize: bool) -> Value
    decreases y, 0int,
{
    match y {
        YamlValue::String(s) => Value::String(s),
        YamlValue::Integer(i) => Value::Int(i),
        YamlValue::Real(r) => real_value(r),
        YamlValue::Boolean(b) => Value::Bool(b),
        YamlValue::Array(items) => Value::Array(
            Seq::new(
                items.len(),
                |i: int|
                    if 0 <= i < items.len() {
                        godot_of_yaml(items[i], normalize)
                    } else {
                        Value::Nil
                    },
            ),
        ),
        YamlValue::Hash(entries) => Value::Dict(
            dict_of_yaml(entries, normalize, entries.len() as int),
        ),
        _ => Value::Nil,
    }
}

/// The dictionary that the first `n` entries of a mapping make.
pub open spec fn dict_of_yaml(entries: Seq<(YamlValue, YamlValue)>, normalize: bool, n: int) -> Seq<
    (Seq<char>, Value),
>
    decreases entries, n,
{
    if n <= 0 || n > entries.len() {
        Seq::empty()
    } else {
        match entries[n - 1].0 {
            YamlValue::String(key) => upsert(
                dict_of_yaml(entries, normalize, n - 1),
                if normalize {
                    normalized_key(key)
                } else {
                    key
                },
                godot_of_yaml(entries[n - 1].1, normalize),
            ),
            _ => dict_of_yaml(entries, normalize, n - 1),
        }
    }
}

/// Converts a YAML node into a value, as [`godot_of_yaml`] says.
pub fn yaml_to_value(y: &YamlNode, normalize: bool) -> (r: GodotValue)
    ensures
        r@ == godot_of_yaml(y@, normalize),
    decreases y,
{
    proof {
        lemma_yaml_view(*y);
    }
    match y {
        YamlNode::String(s) => GodotValue::String(s.clone()),
        YamlNode::Integer(i) => GodotValue::Int(*i),
        YamlNode::Real(r) => read_real(r.as_str()),
        YamlNode::Boolean(b) => GodotValue::Bool(*b),
        YamlNode::Array(items) => {
            let list = GodotValue::Array(yaml_items_to_values(items, normalize));
            proof {
                lemma_value_view(list);
                assert(list@->Array_0 =~= godot_of_yaml(y@, normalize)->Array_0);
            }
            list
        },
        YamlNode::Hash(entries) => {
            let dict = GodotValue::Dict(yaml_entries_to_fields(entries, normalize));
            proof {
                lemma_value_view(dict);
            }
            dict
        },
        _ => GodotValue::Nil,
    }
}

/// Converts the items of a YAML sequence.
fn yaml_items_to_values(items: &Vec<YamlNode>, normalize: bool) -> (r: Vec<GodotValue>)
    ensures
        r.len() == items.len(),
        forall|i: int|
            0 <= i < items.len() ==> (#[trigger] r@[i])@ == godot_of_yaml(items@[i]@, normalize),
    decreases items,
{
    let mut out: Vec<GodotValue> = Vec::new();
    let mut i: usize = 0;
    while i < items.len()
        invariant
            i <= items.len(),
            out.len() == i,
            forall|k: int|
                0 <= k < i ==> (#[trigger] out@[k])@ == godot_of_yaml(items@[k]@, normalize),
        decreases items.len() - i,
    {
        out.push(yaml_to_value(&items[i], normalize));
        i += 1;
    }
    out
}

/// Converts the entries of a YAML mapping, as [`dict_of_yaml`] says.
fn yaml_entries_to_fields(entries: &Vec<(YamlNode, YamlNode)>, normalize: bool) -> (r: Vec<
    (String, GodotValue),
>)
    ensures
        fields_view(r@) == dict_of_yaml(
            yaml_entries_view(entries@),
            normalize,
            entries.len() as int,
        ),
    decreases entries,
{
    let ghost all = yaml_entries_view(entries@);
    let mut out: Vec<(String, GodotValue)> = Vec::new();
    assert(fields_view(out@) =~= Seq::empty());
    let mut i: usize = 0;
    while i < entries.len()
        invariant
            i <= entries.len(),
            all == yaml_entries_view(entries@),
            fields_view(out@) == dict_of_yaml(all, normalize, i as int),
        decreases entries.len() - i,
    {
        assert(all[i as int] == (entries@[i as int].0@, entries@[i as int].1@));
        match &entries[i].0 {
            YamlNode::String(key) => {
                let name = if normalize {
                    normalize_key(key.as_str())
                } else {
                    key.clone()
                };
                let value = yaml_to_value(&entries[i].1, normalize);
                set_field(&mut out, name, value);
            },
            _ => {},
        }
        i += 1;
    }
    out
}

/// Converts a YAML node into a value; keys are kept as they are.
pub fn yaml_to_godot_value(y: &YamlNode) -> (r: GodotValue)
    ensures
        r@ == godot_of_yaml(y@, false),
{
    yaml_to_value(y, false)
}

/// Converts a YAML node of the front matter into a value: the keys of
/// every mapping are normalized.
pub fn yaml_value_to_godot(y: &YamlNode) -> (r: GodotValue)
    ensures
        r@ == godot_of_yaml(y@, true),
{
    yaml_to_value(y, true)
}

/// The front matter that a YAML document declares: the entries of the
/// dictionary that a mapping makes, under normalized keys; nothing where
/// the document is no mapping.
pub open spec fn frontmatter_of(y: YamlValue) -> Seq<(Seq<char>, Value)> {
    match godot_of_yaml(y, true) {
        Value::Dict(entries) => entries,
        _ => Seq::empty(),
    }
}

/// Reads the front matter out of its YAML document, as
/// [`frontmatter_of`] says.
pub fn read_frontmatter(y: &YamlNode) -> (r: Vec<(String, GodotValue)>)
    ensures
        fields_view(r@) == frontmatter_of(y@),
{
    let v = yaml_to_value(y, true);
    proof {
        lemma_value_view(v);
    }
    match v {
        GodotValue::Dict(entries) => entries,
        _ => {
            let none: Vec<(String, GodotValue)> = Vec::new();
            assert(fields_view(none@) =~= Seq::empty());
            none
        },
    }
}

/// The text that stands in `text` between two byte offsets, or `None`
/// where the offsets do not mark a range of whole characters of `text`.
pub open spec fn byte_slice(text: Seq<char>, start: int, end: int) -> Option<Seq<char>> {
    let bytes = encode_utf8(text);
    let tail = bytes.subrange(start, bytes.len() as int);
    if 0 <= start <= end && is_char_boundary(bytes, start) && is_char_boundary(tail, end - start) {
        Some(decode_utf8(tail.subrange(0, end - start)))
    } else {
        None
    }
}

/// Takes the text between two byte offsets, as [`byte_slice`] says.
pub fn slice_bytes(text: &str, start: usize, end: usize) -> (r: Option<&str>)
    ensures
        r.deep_view() == byte_slice(text@, start as int, end as int),
{
    broadcast use {
        vstd::utf8::encode_utf8_valid_utf8,
        vstd::utf8::encode_utf8_decode_utf8,
        vstd::utf8::valid_utf8_split,
    };

    if start > end || !text.is_char_boundary(start) {
        return None;
    }
    let (_, tail) = text.split_at(start);
    if !tail.is_char_boundary(end - start) {
        return None;
    }
    let (mid, _) = tail.split_at(end - start);
    assert(mid@ == decode_utf8(encode_utf8(mid@)));
    Some(mid)
}

/// The node that a statement of the document becomes: unresolved, with
/// the text that stands at the statement's place in `input` (empty where
/// the statement has no place or the place is no range of whole
/// characters), and with the nodes of its children.
pub open spec fn node_of_statement(s: Statement, input: Seq<char>) -> NodeView
    decreases s,
{
    NodeView {
        statement: match s.statement_position {
            Some(at) => match byte_slice(input, at.start as int, at.end as int) {
                Some(t) => t,
                None => Seq::empty(),
            },
            None => Seq::empty(),
        },
        state: State::Unresolved,
        children: Seq::new(
            s.children.len(),
            |i: int|
                if 0 <= i < s.children.len() {
                    node_of_statement(s.children[i], input)
                } else {
                    arbitrary()
                },
        ),
        parse_data: Seq::empty(),
        constituents: Seq::empty(),
        span: match s.statement_position {
            Some(at) => at,
            None => Position { start: 0, end: 0 },
        },
    }
}

/// The nodes of the statements of a list.
pub open spec fn nodes_of_statements(statements: Seq<Statement>, input: Seq<char>) -> Seq<NodeView> {
    Seq::new(statements.len(), |i: int| node_of_statement(statements[i], input))
}

/// Makes the node of a statement, as [`node_of_statement`] says.
pub fn statement_to_node(stmt: &DokeStatement, input: &str) -> (r: DokeNode)
    ensures
        r@ == node_of_statement(stmt@, input@),
    decreases stmt,
{
    proof {
        lemma_statement_view(*stmt);
    }
    let text = match &stmt.statement_position {
        Some(at) => match slice_bytes(input, at.start, at.end) {
            Some(t) => String::from_str(t),
            None => String::new(),
        },
        None => String::new(),
    };
    let span = match stmt.statement_position {
        Some(at) => at,
        None => Position { start: 0, end: 0 },
    };
    let children = statements_to_nodes(&stmt.children, input);
    let r = DokeNode {
        statement: text,
        state: DokeNodeState::Unresolved,
        children,
        parse_data: Vec::new(),
        constituents: Vec::new(),
        span,
    };
    proof {
        lemma_node_view(r);
        assert(r@.parse_data =~= Seq::empty());
        assert(r@.constituents =~= Seq::empty());
        assert(r@.children =~= node_of_statement(stmt@, input@).children);
    }
    r
}

/// Makes the nodes of the statements of a list.
pub fn statements_to_nodes(stmts: &Vec<DokeStatement>, input: &str) -> (r: Vec<DokeNode>)
    ensures
        nodes_view(r@) == nodes_of_statements(statements_view(stmts@), input@),
    decreases stmts,
{
    let mut out: Vec<DokeNode> = Vec::new();
    let mut i: usize = 0;
    while i < stmts.len()
        invariant
            i <= stmts.len(),
            out.len() == i,
            forall|k: int|
                0 <= k < i ==> (#[trigger] out@[k])@ == node_of_statement(stmts@[k]@, input@),
        decreases stmts.len() - i,
    {
        out.push(statement_to_node(&stmts[i], input));
        i += 1;
    }
    assert(nodes_view(out@) =~= nodes_of_statements(statements_view(stmts@), input@));
    out
}

/// One of the parsers that a pipe can run.
#[derive(Debug, PartialEq)]
pub enum PipeParser {
    /// Fills the placeholders of the statements in from the front matter.
    Frontmatter(FrontmatterTemplateParser),
    /// Resolves a node with one grammar.
    Sentences(SentenceParser),
    /// Resolves a tree with the table of rules.
    Typed(TypedSentencesParser),
    /// Changes nothing.
    Debug(DebugPrinter),
}

/// A [`PipeParser`] as plain values.
pub enum Parser {
    Frontmatter,
    Sentences(Grammar),
    Typed(Seq<Rule>),
    Debug,
}

impl View for PipeParser {
    type V = Parser;

    open spec fn view(&self) -> Parser {
        match self {
            PipeParser::Frontmatter(_) => Parser::Frontmatter,
            PipeParser::Sentences(p) => Parser::Sentences(p@),
            PipeParser::Typed(p) => Parser::Typed(p@),
            PipeParser::Debug(_) => Parser::Debug,
        }
    }
}

/// A node after a parser has processed it.
pub open spec fn parsed(p: Parser, node: NodeView, front: Seq<(Seq<char>, Value)>) -> NodeView {
    match p {
        Parser::Frontmatter => templated(node, front),
        Parser::Sentences(g) => resolved(g, node, front, 0),
        Parser::Typed(rules) => dispatched(rules, node, front, None, 0),
        Parser::Debug => node,
    }
}

impl PipeParser {
    /// Processes a node, as [`parsed`] says.
    pub fn process(&self, node: &mut DokeNode, frontmatter: &Vec<(String, GodotValue)>)
        ensures
            final(node)@ == parsed(self@, old(node)@, fields_view(frontmatter@)),
    {
        match self {
            PipeParser::Frontmatter(p) => p.process(node, frontmatter),
            PipeParser::Sentences(p) => p.process(node, frontmatter),
            PipeParser::Typed(p) => p.process(node, frontmatter),
            PipeParser::Debug(_) => {},
        }
    }
}

/// Which nodes a parser is run on: those between two levels of nesting
/// and, with `unresolved_only`, only the unresolved ones.
#[derive(Debug, Clone, Copy, PartialEq, Eq, Structural)]
pub struct NodeFilter {
    pub min_level: usize,
    pub max_level: usize,
    pub unresolved_only: bool,
}

/// Whether the filter lets a parser run on the node at the given level.
pub open spec fn accepted(f: NodeFilter, node: NodeView, level: nat) -> bool {
    f.min_level <= level <= f.max_level && (f.unresolved_only ==> node.state is Unresolved)
}

impl NodeFilter {
    /// Whether the filter lets a parser run on the node, as [`accepted`]
    /// says.
    pub fn accepts(&self, node: &DokeNode, level: usize) -> (r: bool)
        ensures
            r == accepted(*self, node@, level as nat),
    {
        proof {
            lemma_node_view(*node);
        }
        let unresolved = match &node.state {
            DokeNodeState::Unresolved => true,
            _ => false,
        };
        self.min_level <= level && level <= self.max_level && (!self.unresolved_only || unresolved)
    }
}

/// One stage of a pipe: how a parser is applied to a root statement.
#[derive(Debug, PartialEq)]
pub enum PipeStage {
    /// The parser processes the root.
    Root(PipeParser),
    /// The parser processes the root and every statement nested under it.
    Every(PipeParser),
    /// The parser processes those of these statements that the filter
    /// accepts.
    Filtered(PipeParser, NodeFilter),
}

/// A [`PipeStage`] as plain values.
pub enum Stage {
    Root(Parser),
    Every(Parser),
    Filtered(Parser, NodeFilter),
}

impl View for PipeStage {
    type V = Stage;

    open spec fn view(&self) -> Stage {
        match self {
            PipeStage::Root(p) => Stage::Root(p@),
            PipeStage::Every(p) => Stage::Every(p@),
            PipeStage::Filtered(p, f) => Stage::Filtered(p@, *f),
        }
    }
}

/// The stages of a list as plain values.
pub open spec fn stages_view(stages: Seq<PipeStage>) -> Seq<Stage> {
    Seq::new(stages.len(), |i: int| stages[i]@)
}

/// A tree after a parser has processed, level by level, every node that
/// the filter (where there is one) accepts: first the node, then the
/// statements nested under what the parser made of it. Below
/// [`MAX_DEPTH`] levels nothing is processed.
pub open spec fn mapped(
    p: Parser,
    filter: Option<NodeFilter>,
    node: NodeView,
    front: Seq<(Seq<char>, Value)>,
    level: nat,
) -> NodeView
    decreases MAX_DEPTH + 1 - level,
{
    if level > MAX_DEPTH {
        node
    } else {
        let here = if filter is None || accepted(filter.unwrap(), node, level) {
            parsed(p, node, front)
        } else {
            node
        };
        NodeView {
            children: Seq::new(
                here.children.len(),
                |i: int| mapped(p, filter, here.children[i], front, level + 1),
            ),
            ..here
        }
    }
}

/// A root statement after a stage has run on it.
pub open spec fn staged(s: Stage, node: NodeView, front: Seq<(Seq<char>, Value)>) -> NodeView {
    match s {
        Stage::Root(p) => parsed(p, node, front),
        Stage::Every(p) => mapped(p, None, node, front, 0),
        Stage::Filtered(p, f) => mapped(p, Some(f), node, front, 0),
    }
}

/// The root statements after the first `n` stages have run, each stage on
/// every root before the next stage starts.
pub open spec fn piped(
    stages: Seq<Stage>,
    nodes: Seq<NodeView>,
    front: Seq<(Seq<char>, Value)>,
    n: int,
) -> Seq<NodeView>
    decreases n,
{
    if n <= 0 || n > stages.len() {
        nodes
    } else {
        let before = piped(stages, nodes, front, n - 1);
        Seq::new(before.len(), |i: int| staged(stages[n - 1], before[i], front))
    }
}

/// Applies a parser level by level, as [`mapped`] says.
fn map_process(
    parser: &PipeParser,
    filter: &Option<NodeFilter>,
    node: &mut DokeNode,
    frontmatter: &Vec<(String, GodotValue)>,
    level: usize,
)
    ensures
        final(node)@ == mapped(
            parser@,
            *filter,
            old(node)@,
            fields_view(frontmatter@),
            level as nat,
        ),
    decreases MAX_DEPTH + 1 - level,
{
    if level > MAX_DEPTH {
        return ;
    }
    let run = match filter {
        None => true,
        Some(f) => f.accepts(node, level),
    };
    if run {
        parser.process(node, frontmatter);
    }
    let ghost here = node@;
    proof {
        lemma_node_view(*node);
    }
    let mut i: usize = 0;
    while i < node.children.len()
        invariant
            i <= node.children.len(),
            level <= MAX_DEPTH,
            node.children.len() == here.children.len(),
            node.statement@ == here.statement,
            node.state@ == here.state,
            fields_view(node.parse_data@) == here.parse_data,
            named_nodes_view(node.constituents@) == here.constituents,
            node.span == here.span,
            forall|k: int|
                0 <= k < i ==> #[trigger] nodes_view(node.children@)[k] == mapped(
                    parser@,
                    *filter,
                    here.children[k],
                    fields_view(frontmatter@),
                    (level + 1) as nat,
                ),
            forall|k: int|
                i <= k < here.children.len() ==> #[trigger] nodes_view(node.children@)[k]
                    == here.children[k],
        decreases node.children.len() - i,
    {
        let ghost before = node.children@;
        let ghost seen = nodes_view(node.children@);
        assert(seen[i as int] == here.children[i as int]);
        let mut child = node.children.remove(i);
        map_process(parser, filter, &mut child, frontmatter, level + 1);
        node.children.insert(i, child);
        proof {
            assert(node.children@ =~= before.update(i as int, child));
            let after = nodes_view(node.children@);
            assert(after[i as int] == child@);
            assert forall|k: int| 0 <= k < here.children.len() && k != i implies after[k]
                == seen[k] by {}
        }
        i += 1;
    }
    proof {
        lemma_node_view(*node);
        let want = mapped(
            parser@,
            *filter,
            old(node)@,
            fields_view(frontmatter@),
            level as nat,
        );
        assert(node@.children =~= want.children);
    }
}

impl PipeStage {
    /// Runs the stage on a root statement, as [`staged`] says.
    pub fn process(&self, node: &mut DokeNode, frontmatter: &Vec<(String, GodotValue)>)
        ensures
            final(node)@ == staged(self@, old(node)@, fields_view(frontmatter@)),
    {
        match self {
            PipeStage::Root(p) => p.process(node, frontmatter),
            PipeStage::Every(p) => map_process(p, &None, node, frontmatter, 0),
            PipeStage::Filtered(p, f) => map_process(p, &Some(*f), node, frontmatter, 0),
        }
    }
}

/// A pipe of parsers: a document is turned into a tree of statements, and
/// the stages run on it one after the other.
#[derive(Debug, PartialEq)]
pub struct DokePipe {
    pub parsers: Vec<PipeStage>,
}

impl View for DokePipe {
    type V = Seq<Stage>;

    open spec fn view(&self) -> Seq<Stage> {
        stages_view(self.parsers@)
    }
}

/// The front matter that the YAML text of a document declares: that of
/// its first document; nothing where the text is no YAML.
pub open spec fn frontmatter_of_text(text: Option<Seq<char>>) -> Seq<(Seq<char>, Value)> {
    match text {
        Some(t) => match yaml_documents(t) {
            Some(docs) => if docs.len() > 0 {
                frontmatter_of(docs[0])
            } else {
                Seq::empty()
            },
            None => Seq::empty(),
        },
        None => Seq::empty(),
    }
}

/// What is said of a text that the markdown crate refuses.
pub open spec fn unread_text() -> Seq<char> {
    "the markdown could not be read"@
}

/// The document that a pipe makes of the markdown tree `root` of the text
/// `markdown`, with the front matter `front`: the statements of the tree
/// as nodes, after every stage has run.
pub open spec fn document_of_tree(
    stages: Seq<Stage>,
    root: MdTree,
    front: Seq<(Seq<char>, Value)>,
    markdown: Seq<char>,
) -> Seq<NodeView> {
    piped(
        stages,
        nodes_of_statements(
            sibling_statements(root.children, root.children.len() as int),
            markdown,
        ),
        front,
        stages.len() as int,
    )
}

impl DokePipe {
    /// A pipe without stages.
    pub fn new() -> (r: Self)
        ensures
            r@ == Seq::<Stage>::empty(),
    {
        let r = DokePipe { parsers: Vec::new() };
        assert(r@ =~= Seq::<Stage>::empty());
        r
    }

    /// The pipe with one more stage, in which the parser processes every
    /// root statement.
    pub fn add(self, parser: PipeParser) -> (r: Self)
        ensures
            r@ == self@.push(Stage::Root(parser@)),
    {
        let mut pipe = self;
        pipe.parsers.push(PipeStage::Root(parser));
        assert(pipe@ =~= self@.push(Stage::Root(parser@)));
        pipe
    }

    /// The pipe with one more stage, in which the parser processes every
    /// statement.
    pub fn map(self, parser: PipeParser) -> (r: Self)
        ensures
            r@ == self@.push(Stage::Every(parser@)),
    {
        let mut pipe = self;
        pipe.parsers.push(PipeStage::Every(parser));
        assert(pipe@ =~= self@.push(Stage::Every(parser@)));
        pipe
    }

    /// The pipe with one more stage, in which the parser processes the
    /// statements that the filter accepts.
    pub fn filter_map(self, parser: PipeParser, filter: NodeFilter) -> (r: Self)
        ensures
            r@ == self@.push(Stage::Filtered(parser@, filter)),
    {
        let mut pipe = self;
        pipe.parsers.push(PipeStage::Filtered(parser, filter));
        assert(pipe@ =~= self@.push(Stage::Filtered(parser@, filter)));
        pipe
    }

    /// Runs the stages on the root statements, as [`piped`] says.
    pub fn run_nodes(&self, nodes: &mut Vec<DokeNode>, frontmatter: &Vec<(String, GodotValue)>)
        ensures
            nodes_view(final(nodes)@) == piped(
                self@,
                nodes_view(old(nodes)@),
                fields_view(frontmatter@),
                self.parsers.len() as int,
            ),
    {
        let ghost start = nodes_view(nodes@);
        let ghost front = fields_view(frontmatter@);
        let mut s: usize = 0;
        while s < self.parsers.len()
            invariant
                s <= self.parsers.len(),
                start == nodes_view(old(nodes)@),
                front == fields_view(frontmatter@),
                nodes_view(nodes@) == piped(self@, start, front, s as int),
            decreases self.parsers.len() - s,
        {
            let stage = &self.parsers[s];
            assert(self@[s as int] == stage@);
            let ghost before = nodes_view(nodes@);
            let mut i: usize = 0;
            while i < nodes.len()
                invariant
                    i <= nodes.len(),
                    nodes.len() == before.len(),
                    front == fields_view(frontmatter@),
                    forall|k: int|
                        0 <= k < i ==> #[trigger] nodes_view(nodes@)[k] == staged(
                            stage@,
                            before[k],
                            front,
                        ),
                    forall|k: int| i <= k < before.len() ==> #[trigger] nodes_view(nodes@)[k]
                        == before[k],
                decreases nodes.len() - i,
            {
                let ghost held = nodes@;
                let ghost seen = nodes_view(nodes@);
                assert(seen[i as int] == before[i as int]);
                let mut node = nodes.remove(i);
                stage.process(&mut node, frontmatter);
                nodes.insert(i, node);
                proof {
                    assert(nodes@ =~= held.update(i as int, node));
                    let after = nodes_view(nodes@);
                    assert(after[i as int] == node@);
                    assert forall|k: int| 0 <= k < before.len() && k != i implies after[k]
                        == seen[k] by {}
                }
                i += 1;
            }
            assert(nodes_view(nodes@) =~= piped(self@, start, front, s + 1));
            s += 1;
        }
    }

    /// Runs the pipe on a document whose markdown tree is given: the
    /// front matter is read, the statements of the tree become nodes, and
    /// the stages run on them, as [`document_of_tree`] says.
    pub fn run_tree(&self, root: &MdNode, frontmatter_string: Option<&str>, markdown: &str) -> (r:
        DokeDocument)
        ensures
            fields_view(r.frontmatter@) == frontmatter_of_text(frontmatter_string.deep_view()),
            nodes_view(r.nodes@) == document_of_tree(
                self@,
                root@,
                fields_view(r.frontmatter@),
                markdown@,
            ),
    {
        let doc = match DokeBaseParser::parse_document(root, frontmatter_string) {
            Ok(doc) => doc,
            Err(_) => DokeBaseDocument { statements: Vec::new(), frontmatter: None },
        };
        let frontmatter = match &doc.frontmatter {
            Some(y) => read_frontmatter(y),
            None => {
                let none: Vec<(String, GodotValue)> = Vec::new();
                assert(fields_view(none@) =~= Seq::empty());
                none
            },
        };
        let mut nodes = statements_to_nodes(&doc.statements, markdown);
        self.run_nodes(&mut nodes, &frontmatter);
        DokeDocument { nodes, frontmatter }
    }

    /// Runs the pipe on a markdown document: the front matter is split
    /// off, the markdown crate reads the rest, and the pipe runs on its
    /// tree. A text that the markdown crate refuses is reported.
    pub fn run_markdown(&self, input: &str) -> (r: Result<DokeDocument, DokeParseError>)
        ensures
            match markdown_tree(frontmatter_parts(input@).1) {
                None => r matches Err(DokeParseError::InvalidNodeStructure(m)) && m@
                    == unread_text(),
                Some(root) => r matches Ok(doc) && fields_view(doc.frontmatter@)
                    == frontmatter_of_text(frontmatter_parts(input@).0) && nodes_view(doc.nodes@)
                    == document_of_tree(
                    self@,
                    root,
                    fields_view(doc.frontmatter@),
                    frontmatter_parts(input@).1,
                ),
            },
    {
        let (frontmatter_str, markdown_str) = extract_frontmatter(input);
        let root = match parse_markdown(markdown_str) {
            Some(root) => root,
            None => {
                return Err(
                    DokeParseError::InvalidNodeStructure(
                        String::from_str("the markdown could not be read"),
                    ),
                );
            },
        };
        Ok(self.run_tree(&root, frontmatter_str, markdown_str))
    }

    /// Runs the pipe on a markdown document and validates the tree: the
    /// values of the root statements, or what failed.
    pub fn validate(&self, input: &str) -> (r: Result<Vec<GodotValue>, DokeValidationError>)
        ensures
            match markdown_tree(frontmatter_parts(input@).1) {
                None => r matches Err(DokeValidationError::DynamicError(m)) && m@
                    == unread_text(),
                Some(root) => {
                    let roots = document_of_tree(
                        self@,
                        root,
                        frontmatter_of_text(frontmatter_parts(input@).0),
                        frontmatter_parts(input@).1,
                    );
                    match tree_outcome(
                        validated_roots(roots, roots.len() as int).1,
                        validated_roots(roots, roots.len() as int).2,
                    ) {
                        Ok(values) => r matches Ok(found) && values_view(found@) == values,
                        Err(f) => r matches Err(e) && e@ == f,
                    }
                },
            },
    {
        match self.run_markdown(input) {
            Ok(doc) => {
                let mut nodes = doc.nodes;
                DokeValidate::validate_tree(&mut nodes, &doc.frontmatter)
            },
            Err(_) => Err(
                DokeValidationError::DynamicError(
                    String::from_str("the markdown could not be read"),
                ),
            ),
        }
    }
}

impl DokeParser for FrontmatterTemplateParser {
    open spec fn processed(&self, node: NodeView, front: Seq<(Seq<char>, Value)>) -> NodeView {
        templated(node, front)
    }

    fn process(&self, node: &mut DokeNode, frontmatter: &Vec<(String, GodotValue)>) {
        FrontmatterTemplateParser::process(self, node, frontmatter)
    }
}

impl DokeParser for SentenceParser {
    open spec fn processed(&self, node: NodeView, front: Seq<(Seq<char>, Value)>) -> NodeView {
        resolved(self@, node, front, 0)
    }

    fn process(&self, node: &mut DokeNode, frontmatter: &Vec<(String, GodotValue)>) {
        SentenceParser::process(self, node, frontmatter)
    }
}

impl DokeParser for TypedSentencesParser {
    open spec fn processed(&self, node: NodeView, front: Seq<(Seq<char>, Value)>) -> NodeView {
        dispatched(self@, node, front, None, 0)
    }

    fn process(&self, node: &mut DokeNode, frontmatter: &Vec<(String, GodotValue)>) {
        TypedSentencesParser::process(self, node, frontmatter)
    }
}

impl DokeParser for DebugPrinter {
    open spec fn processed(&self, node: NodeView, front: Seq<(Seq<char>, Value)>) -> NodeView {
        node
    }

    fn process(&self, node: &mut DokeNode, frontmatter: &Vec<(String, GodotValue)>) {
    }
}

impl DokeParser for PipeParser {
    open spec fn processed(&self, node: NodeView, front: Seq<(Seq<char>, Value)>) -> NodeView {
        parsed(self@, node, front)
    }

    fn process(&self, node: &mut DokeNode, frontmatter: &Vec<(String, GodotValue)>) {
        PipeParser::process(self, node, frontmatter)
    }
}

impl DokeParser for PipeStage {
    open spec fn processed(&self, node: NodeView, front: Seq<(Seq<char>, Value)>) -> NodeView {
        staged(self@, node, front)
    }

    fn process(&self, node: &mut DokeNode, frontmatter: &Vec<(String, GodotValue)>) {
        PipeStage::process(self, node, frontmatter)
    }
}

} // verus!
