//! Resolves a statement against one grammar: the best matching sentence
//! is chosen, its parameters are bound, and what it captured as
//! statements of their own is resolved in turn.

use crate::base_parser::Position;
use crate::parsers::errors::{ParseFailure, SentenceParseError};
use crate::parsers::phrase::{
    Phrase, PhraseConfig, ReturnSpec, Returned, outranks, phrase_specificity, phrases_view,
    specificity, translation_key,
};
use crate::parsers::primitive::{basic_value, is_basic, is_basic_type, parse_basic_parameter};
use crate::parsers::render::{formatted, perform_format_string};
use crate::parsers::template::{Param, ParameterDefinition, params_view};
use crate::regex_bridge::{capture_groups, find_captures};
use crate::semantic::{
    Conjecture, DokeNode, DokeNodeState, GodotValue, GodotValueError, Hypothesis, NodeView,
    Resolution, ResolvedValue, State, Value, clone_fields, fields_view, find_field, find_key,
    key_index, lemma_key_index, lemma_key_index_is, lemma_node_view, lemma_value_view, lookup,
    named_nodes_view, nodes_view, set_field, set_node, upsert, values_view,
};
use crate::text::{chars_of, same_text, string_of, sub_vec, trim_chars, trimmed};
use vstd::prelude::*;

verus! {

/// What a matched sentence resolved to, before the values of the node's
/// children and constituents are merged in.
#[derive(Debug, PartialEq)]
pub struct SentenceResult {
    /// The type of the resource; empty for a literal.
    pub output_type: String,
    /// The parsed parameters, and what has been merged in since.
    pub parameters: Vec<(String, GodotValue)>,
    /// The value of a sentence that returns a fixed value or a formatted
    /// string.
    pub literal_value: Option<GodotValue>,
    /// The translation key of the sentence.
    pub tr_key: String,
}

/// A [`SentenceResult`] as plain values.
pub struct Sentence {
    pub output_type: Seq<char>,
    pub parameters: Seq<(Seq<char>, Value)>,
    pub literal_value: Option<Value>,
    pub tr_key: Seq<char>,
}

impl View for SentenceResult {
    type V = Sentence;

    open spec fn view(&self) -> Sentence {
        Sentence {
            output_type: self.output_type@,
            parameters: fields_view(self.parameters@),
            literal_value: match self.literal_value {
                Some(v) => Some(v@),
                None => None,
            },
            tr_key: self.tr_key@,
        }
    }
}

/// The final value of a sentence: its literal where it has one, else the
/// resource of its type whose fields are the parameters. The translation
/// key is no field: it stays with the result, for the catalog.
pub open spec fn sentence_value(s: Sentence) -> Value {
    match s.literal_value {
        Some(v) => v,
        None => Value::Resource { resource_type: s.output_type, fields: s.parameters },
    }
}

/// What a sentence says when its `children` parameter is no array.
pub open spec fn children_refusal() -> Seq<char> {
    "children field is not an array"@
}

/// The parameters after a child has been merged in: appended to the array
/// under `children`, which is created when absent. `None` where `children`
/// holds something else.
pub open spec fn parameters_with_child(
    parameters: Seq<(Seq<char>, Value)>,
    child: Value,
) -> Option<Seq<(Seq<char>, Value)>> {
    match lookup(parameters, "children"@) {
        None => Some(parameters.push(("children"@, Value::Array(seq![child])))),
        Some(Value::Array(items)) => Some(
            parameters.update(
                key_index(parameters, "children"@, 0),
                ("children"@, Value::Array(items.push(child))),
            ),
        ),
        Some(_) => None,
    }
}

impl SentenceResult {
    /// The result of a sentence that produces a resource of type `t`.
    pub fn new_type(t: String, params: Vec<(String, GodotValue)>, tr_key: String) -> (r: Self)
        ensures
            r@ == (Sentence {
                output_type: t@,
                parameters: fields_view(params@),
                literal_value: None,
                tr_key: tr_key@,
            }),
    {
        SentenceResult { output_type: t, parameters: params, literal_value: None, tr_key }
    }

    /// The result of a sentence that produces the fixed value `val`.
    pub fn new_literal(val: GodotValue, params: Vec<(String, GodotValue)>, tr_key: String) -> (r:
        Self)
        ensures
            r@ == (Sentence {
                output_type: Seq::empty(),
                parameters: fields_view(params@),
                literal_value: Some(val@),
                tr_key: tr_key@,
            }),
    {
        SentenceResult {
            output_type: String::new(),
            parameters: params,
            literal_value: Some(val),
            tr_key,
        }
    }

    /// The name of this kind of result.
    pub fn kind(&self) -> (r: &'static str)
        ensures
            r@ == "SentenceResult"@,
    {
        "SentenceResult"
    }

    /// The final value, as [`sentence_value`] says.
    pub fn to_godot(&self) -> (r: GodotValue)
        ensures
            r@ == sentence_value(self@),
    {
        match &self.literal_value {
            Some(lit) => lit.clone(),
            None => {
                let fields = clone_fields(&self.parameters);
                let r = GodotValue::Resource { resource_type: self.output_type.clone(), fields };
                proof {
                    lemma_value_view(r);
                }
                r
            },
        }
    }

    /// Merges the value of a child statement into the parameters, as
    /// [`parameters_with_child`] says, or leaves them unchanged and reports
    /// that `children` is no array.
    pub fn use_child(&mut self, child: GodotValue) -> (r: Result<(), GodotValueError>)
        ensures
            match parameters_with_child(old(self)@.parameters, child@) {
                Some(p) => r is Ok && final(self)@ == (Sentence { parameters: p, ..old(self)@ }),
                None => {
                    &&& final(self)@ == old(self)@
                    &&& r matches Err(GodotValueError::InvalidChild(what))
                    &&& what@ == children_refusal()
                },
            },
    {
        let i = find_field(&self.parameters, "children");
        if i >= self.parameters.len() {
            let mut items: Vec<GodotValue> = Vec::new();
            items.push(child);
            let list = GodotValue::Array(items);
            proof {
                lemma_value_view(list);
                assert(values_view(list->Array_0@) =~= seq![child@]);
            }
            self.parameters.push((String::from_str("children"), list));
            assert(fields_view(self.parameters@) =~= fields_view(old(self).parameters@).push(
                ("children"@, Value::Array(seq![child@])),
            ));
            Ok(())
        } else {
            let (key, slot) = self.parameters.remove(i);
            match slot {
                GodotValue::Array(mut items) => {
                    proof {
                        lemma_value_view(slot);
                    }
                    items.push(child);
                    let list = GodotValue::Array(items);
                    proof {
                        lemma_value_view(list);
                        assert(values_view(items@) =~= values_view(slot->Array_0@).push(child@));
                    }
                    self.parameters.insert(i, (key, list));
                    proof {
                        let before = fields_view(old(self).parameters@);
                        lemma_key_index(before, "children"@, 0);
                        assert(fields_view(self.parameters@) =~= before.update(
                            i as int,
                            ("children"@, list@),
                        ));
                    }
                    Ok(())
                },
                other => {
                    proof {
                        lemma_value_view(other);
                    }
                    self.parameters.insert(i, (key, other));
                    assert(fields_view(self.parameters@) =~= fields_view(old(self).parameters@));
                    Err(
                        GodotValueError::InvalidChild(
                            String::from_str("children field is not an array"),
                        ),
                    )
                },
            }
        }
    }

    /// Stores the value of a constituent under its name among the
    /// parameters.
    pub fn use_constituent(&mut self, name: &str, value: GodotValue) -> (r: Result<
        (),
        GodotValueError,
    >)
        ensures
            r is Ok,
            final(self)@ == (Sentence {
                parameters: upsert(old(self)@.parameters, name@, value@),
                ..old(self)@
            }),
    {
        set_field(&mut self.parameters, String::from_str(name), value);
        Ok(())
    }
}

impl Clone for SentenceResult {
    fn clone(&self) -> (r: Self)
        ensures
            r@ == self@,
    {
        SentenceResult {
            output_type: self.output_type.clone(),
            parameters: clone_fields(&self.parameters),
            literal_value: match &self.literal_value {
                Some(v) => Some(v.clone()),
                None => None,
            },
            tr_key: self.tr_key.clone(),
        }
    }
}

/// The candidate that a statement leaves behind when no sentence matched
/// it: it never wins against a candidate of positive confidence, and it
/// turns into its error when it is promoted.
#[derive(Debug, PartialEq)]
pub struct ErrorHypo {
    pub error: SentenceParseError,
    pub statement: String,
}

impl ErrorHypo {
    /// The name of this kind of candidate.
    pub fn kind(&self) -> (r: &'static str)
        ensures
            r@ == "SentenceParseError"@,
    {
        "SentenceParseError"
    }

    /// The confidence of an error: below that of any real candidate.
    pub fn confidence(&self) -> (r: i32)
        ensures
            r == -1,
    {
        -1
    }

    /// An error never becomes a result: promoting it gives the error.
    pub fn promote(self) -> (r: Result<ResolvedValue, SentenceParseError>)
        ensures
            r == Err::<ResolvedValue, SentenceParseError>(self.error),
    {
        Err(self.error)
    }
}

/// The greatest depth at which a statement is still resolved.
pub const MAX_DEPTH: usize = 100;

/// A set of compiled sentences, with the tables of the types that are
/// resolved by looking a text up.
#[derive(Debug, PartialEq)]
pub struct SentenceParser {
    /// The sentences, in the order of the configuration.
    pub phrases: Vec<PhraseConfig>,
    /// For each enumerated type its name and its table from text to value.
    pub type_patterns: Vec<(String, Vec<(String, GodotValue)>)>,
}

/// A [`SentenceParser`] as plain values.
pub struct Grammar {
    pub phrases: Seq<Phrase>,
    pub enums: Seq<(Seq<char>, Seq<(Seq<char>, Value)>)>,
}

/// The tables of a list as plain values.
pub open spec fn enums_view(tables: Seq<(String, Vec<(String, GodotValue)>)>) -> Seq<
    (Seq<char>, Seq<(Seq<char>, Value)>),
> {
    Seq::new(tables.len(), |i: int| (tables[i].0@, fields_view(tables[i].1@)))
}

impl View for SentenceParser {
    type V = Grammar;

    open spec fn view(&self) -> Grammar {
        Grammar { phrases: phrases_view(self.phrases@), enums: enums_view(self.type_patterns@) }
    }
}

/// The text that a statement is matched by: the statement without the
/// white space around it and without one final `.` or `:`.
pub open spec fn statement_text(statement: Seq<char>) -> Seq<char> {
    let t = trimmed(statement);
    if t.len() > 0 && (t.last() == '.' || t.last() == ':') {
        t.drop_last()
    } else {
        t
    }
}

/// Executable form of [`statement_text`].
pub fn normalize_statement(statement: &str) -> (r: String)
    ensures
        r@ == statement_text(statement@),
{
    let t = trim_chars(&chars_of(statement));
    let n = t.len();
    if n > 0 && (t[n - 1] == '.' || t[n - 1] == ':') {
        string_of(&sub_vec(&t, 0, n - 1))
    } else {
        string_of(&t)
    }
}

/// The name under which a node carries the type that is expected of it.
pub open spec fn hint_key() -> Seq<char> {
    "sentence_type"@
}

/// The type that a node is expected to have, where its side data names
/// one.
pub open spec fn expected_type(parse_data: Seq<(Seq<char>, Value)>) -> Option<Seq<char>> {
    match lookup(parse_data, hint_key()) {
        Some(Value::String(t)) => Some(t),
        _ => None,
    }
}

/// Executable form of [`expected_type`].
pub fn read_expected_type(parse_data: &Vec<(String, GodotValue)>) -> (r: Option<String>)
    ensures
        r.deep_view() == expected_type(fields_view(parse_data@)),
{
    let i = find_field(parse_data, "sentence_type");
    if i < parse_data.len() {
        match &parse_data[i].1 {
            GodotValue::String(t) => Some(t.clone()),
            _ => None,
        }
    } else {
        None
    }
}

/// Whether a phrase may be tried for a node that expects `hint`: any
/// phrase where nothing is expected, else one that stands in the section
/// of that name or returns a resource of that type.
pub open spec fn is_candidate(p: Phrase, hint: Option<Seq<char>>) -> bool {
    match hint {
        None => true,
        Some(h) => p.section == h || p.return_spec == Returned::Type(h),
    }
}

/// Executable form of [`is_candidate`].
pub fn phrase_is_candidate(p: &PhraseConfig, hint: &Option<String>) -> (r: bool)
    ensures
        r == is_candidate(p@, hint.deep_view()),
{
    match hint {
        None => true,
        Some(h) => {
            if same_text(p.section.as_str(), h.as_str()) {
                true
            } else {
                match &p.return_spec {
                    ReturnSpec::Type(t) => same_text(t.as_str(), h.as_str()),
                    _ => false,
                }
            }
        },
    }
}

/// The text captured for each of `count` parameters: that of the group
/// behind the whole match, without the white space around it, and `None`
/// where the group took no part.
pub open spec fn raw_captures(groups: Seq<Option<Seq<char>>>, count: nat) -> Seq<
    Option<Seq<char>>,
> {
    Seq::new(
        count,
        |i: int|
            if 0 <= i && i + 1 < groups.len() {
                match groups[i + 1] {
                    Some(t) => Some(trimmed(t)),
                    None => None,
                }
            } else {
                None
            },
    )
}

/// Takes the captured text of each of `count` parameters out of the groups
/// of a match, as [`raw_captures`] says.
pub fn captured_texts(groups: &Vec<Option<String>>, count: usize) -> (r: Vec<Option<String>>)
    ensures
        r.deep_view() == raw_captures(groups.deep_view(), count as nat),
{
    let mut out: Vec<Option<String>> = Vec::new();
    let mut i: usize = 0;
    while i < count
        invariant
            i <= count,
            out.len() == i,
            forall|k: int|
                0 <= k < i ==> (#[trigger] out@[k]).deep_view() == raw_captures(
                    groups.deep_view(),
                    count as nat,
                )[k],
        decreases count - i,
    {
        let item = if groups.len() > 0 && i < groups.len() - 1 {
            match &groups[i + 1] {
                Some(t) => Some(string_of(&trim_chars(&chars_of(t.as_str())))),
                None => None,
            }
        } else {
            None
        };
        assert(i + 1 < groups.len() ==> groups.deep_view()[i + 1] == groups@[i + 1].deep_view());
        out.push(item);
        i += 1;
    }
    assert(out.deep_view() =~= raw_captures(groups.deep_view(), count as nat));
    out
}

/// Matches a statement against one phrase: the captured text of each
/// parameter where the phrase's pattern matches, else `NoMatch` with the
/// template.
pub fn match_phrase_exact(statement: &str, phrase: &PhraseConfig) -> (r: Result<
    Vec<Option<String>>,
    SentenceParseError,
>)
    ensures
        match capture_groups(phrase.regex@, statement@) {
            Some(groups) => r matches Ok(raws) && raws.deep_view() == raw_captures(
                groups,
                phrase.parameters@.len(),
            ),
            None => r matches Err(e) && e@ == ParseFailure::NoMatch(phrase.pattern@),
        },
{
    match find_captures(phrase.regex.as_str(), statement) {
        Some(groups) => Ok(captured_texts(&groups, phrase.parameters.len())),
        None => Err(SentenceParseError::NoMatch(phrase.pattern.clone())),
    }
}

/// The phrase that is chosen among the first `n` for the text `text`: of
/// the candidates whose pattern matches, the one that no other outranks,
/// and of several such the last. `None` where none matches.
pub open spec fn best_match(
    phrases: Seq<Phrase>,
    text: Seq<char>,
    hint: Option<Seq<char>>,
    n: int,
) -> Option<int>
    decreases n,
{
    if n <= 0 || n > phrases.len() {
        None
    } else {
        let before = best_match(phrases, text, hint, n - 1);
        if is_candidate(phrases[n - 1], hint) && capture_groups(phrases[n - 1].regex, text)
            is Some {
            match before {
                Some(b) => if outranks(specificity(phrases[b]), specificity(phrases[n - 1])) {
                    Some(b)
                } else {
                    Some(n - 1)
                },
                None => Some(n - 1),
            }
        } else {
            before
        }
    }
}

/// The chosen phrase matches, is a candidate, and is outranked by no
/// other matching candidate; a later matching candidate ranks strictly
/// below it.
pub proof fn lemma_best_match(
    phrases: Seq<Phrase>,
    text: Seq<char>,
    hint: Option<Seq<char>>,
    n: int,
)
    requires
        0 <= n <= phrases.len(),
    ensures
        match best_match(phrases, text, hint, n) {
            Some(b) => {
                &&& 0 <= b < n
                &&& is_candidate(phrases[b], hint)
                &&& capture_groups(phrases[b].regex, text) is Some
                &&& forall|k: int|
                    0 <= k < n && is_candidate(phrases[k], hint) && capture_groups(
                        phrases[k].regex,
                        text,
                    ) is Some ==> !outranks(
                        specificity(#[trigger] phrases[k]),
                        specificity(phrases[b]),
                    )
                &&& forall|k: int|
                    b < k < n && is_candidate(phrases[k], hint) && capture_groups(
                        phrases[k].regex,
                        text,
                    ) is Some ==> outranks(
                        specificity(phrases[b]),
                        specificity(#[trigger] phrases[k]),
                    )
            },
            None => forall|k: int|
                0 <= k < n ==> !(is_candidate(#[trigger] phrases[k], hint) && capture_groups(
                    phrases[k].regex,
                    text,
                ) is Some),
        },
    decreases n,
{
    if n > 0 {
        lemma_best_match(phrases, text, hint, n - 1);
    }
}

/// Where two candidates match a text, the one that the other outranks is
/// not chosen: of two matching sentences with different literal weights
/// the one with the greater weight always wins against the other.
pub proof fn lemma_outranked_match_loses(
    phrases: Seq<Phrase>,
    text: Seq<char>,
    hint: Option<Seq<char>>,
    i: int,
    j: int,
)
    requires
        0 <= i < phrases.len(),
        0 <= j < phrases.len(),
        is_candidate(phrases[i], hint) && capture_groups(phrases[i].regex, text) is Some,
        is_candidate(phrases[j], hint) && capture_groups(phrases[j].regex, text) is Some,
        outranks(specificity(phrases[i]), specificity(phrases[j])),
    ensures
        best_match(phrases, text, hint, phrases.len() as int) is Some,
        best_match(phrases, text, hint, phrases.len() as int) != Some(j),
{
    lemma_best_match(phrases, text, hint, phrases.len() as int);
    assert(is_candidate(phrases[i], hint));
}

/// What matching one sentence adds to a node: the fields of the result,
/// and the node's side data and constituents as they stand afterwards.
pub struct Binding {
    pub fields: Seq<(Seq<char>, Value)>,
    pub parse_data: Seq<(Seq<char>, Value)>,
    pub constituents: Seq<(Seq<char>, NodeView)>,
}

/// The value that the table of the enumerated type `ty` gives to `text`,
/// if there is such a table and it holds the text.
pub open spec fn enum_value(
    enums: Seq<(Seq<char>, Seq<(Seq<char>, Value)>)>,
    ty: Seq<char>,
    text: Seq<char>,
) -> Option<Value> {
    match lookup(enums, ty) {
        Some(table) => lookup(table, text),
        None => None,
    }
}

/// The node that is made for a captured text of type `ty`: unresolved,
/// with the type as the one that is expected of it, at the place of the
/// statement that it was captured from.
pub open spec fn fresh_node(text: Seq<char>, ty: Seq<char>, span: Position) -> NodeView {
    NodeView {
        statement: text,
        state: State::Unresolved,
        children: Seq::empty(),
        parse_data: seq![(hint_key(), Value::String(ty))],
        constituents: Seq::empty(),
        span,
    }
}

/// The name under which a node records that the parameter `name` did not
/// parse.
pub open spec fn error_key(name: Seq<char>) -> Seq<char> {
    name + "_error"@
}

/// What the parameter `p` with the captured text `raw` adds.
///
/// Nothing where nothing was captured. A primitive that parses becomes a
/// field; one that does not leaves its message in the side data and no
/// field. A text of an enumerated type that its table holds becomes a
/// field. Any other text becomes a constituent node.
pub open spec fn bind_one(
    enums: Seq<(Seq<char>, Seq<(Seq<char>, Value)>)>,
    p: Param,
    raw: Option<Seq<char>>,
    span: Position,
    b: Binding,
) -> Binding {
    match raw {
        None => b,
        Some(text) => if is_basic(p.param_type) {
            match basic_value(text, p.param_type) {
                Ok(v) => Binding { fields: upsert(b.fields, p.name, v), ..b },
                Err(m) => Binding {
                    parse_data: upsert(b.parse_data, error_key(p.name), Value::String(m)),
                    ..b
                },
            }
        } else {
            match enum_value(enums, p.param_type, text) {
                Some(v) => Binding { fields: upsert(b.fields, p.name, v), ..b },
                None => Binding {
                    constituents: upsert(
                        b.constituents,
                        p.name,
                        fresh_node(text, p.param_type, span),
                    ),
                    ..b
                },
            }
        },
    }
}

/// What the first `n` parameters add, one after the other. A parameter
/// for which `raws` holds no text has captured nothing.
pub open spec fn bind(
    enums: Seq<(Seq<char>, Seq<(Seq<char>, Value)>)>,
    params: Seq<Param>,
    raws: Seq<Option<Seq<char>>>,
    span: Position,
    start: Binding,
    n: int,
) -> Binding
    decreases n,
{
    if n <= 0 || n > params.len() {
        start
    } else {
        bind_one(
            enums,
            params[n - 1],
            if n <= raws.len() {
                raws[n - 1]
            } else {
                None
            },
            span,
            bind(enums, params, raws, span, start, n - 1),
        )
    }
}

/// The result of the sentence `p` with the fields `fields`.
///
/// A sentence that returns a type gives a resource of that type; one that
/// returns a literal gives that value; one that returns a format gives the
/// string that the format makes of the fields and the front matter.
pub open spec fn result_of(
    p: Phrase,
    fields: Seq<(Seq<char>, Value)>,
    front: Seq<(Seq<char>, Value)>,
) -> Sentence {
    let tr_key = translation_key(p.section, p.pattern);
    match p.return_spec {
        Returned::Type(t) => Sentence {
            output_type: t,
            parameters: fields,
            literal_value: None,
            tr_key,
        },
        Returned::Literal(v) => Sentence {
            output_type: Seq::empty(),
            parameters: fields,
            literal_value: Some(v),
            tr_key,
        },
        Returned::Format(f) => Sentence {
            output_type: Seq::empty(),
            parameters: fields,
            literal_value: Some(Value::String(formatted(f, 0, fields, front))),
            tr_key,
        },
    }
}

/// The node after the grammar has been tried on it once.
///
/// A node that is not unresolved stays as it is. Where no sentence
/// matches, the node holds the one hypothesis that nothing matched. Else
/// it is resolved to the result of the chosen sentence, and holds what
/// the parameters added.
pub open spec fn matched(g: Grammar, node: NodeView, front: Seq<(Seq<char>, Value)>) -> NodeView {
    let text = statement_text(node.statement);
    if !(node.state is Unresolved) {
        node
    } else {
        match best_match(g.phrases, text, expected_type(node.parse_data), g.phrases.len() as int) {
            None => NodeView {
                state: State::Hypothesis(
                    seq![
                        Conjecture::Failed { error: ParseFailure::NoMatch(text), statement: text },
                    ],
                ),
                ..node
            },
            Some(b) => {
                let p = g.phrases[b];
                let raws = raw_captures(capture_groups(p.regex, text).unwrap(), p.parameters.len());
                let bound = bind(
                    g.enums,
                    p.parameters,
                    raws,
                    node.span,
                    Binding {
                        fields: Seq::empty(),
                        parse_data: node.parse_data,
                        constituents: node.constituents,
                    },
                    p.parameters.len() as int,
                );
                NodeView {
                    state: State::Resolved(
                        Resolution::Sentence(result_of(p, bound.fields, front)),
                    ),
                    parse_data: bound.parse_data,
                    constituents: bound.constituents,
                    ..node
                }
            },
        }
    }
}

/// The node after the grammar has resolved it and, below it, every
/// constituent, `depth` levels below the statement that the work began
/// with.
///
/// A node that is not unresolved stays as it is. Beyond [`MAX_DEPTH`] an
/// unresolved node ends in the error state. Else the node is matched once,
/// and where that resolved it, each of its constituents is resolved one
/// level deeper.
pub open spec fn resolved(g: Grammar, node: NodeView, front: Seq<(Seq<char>, Value)>, depth: nat) -> NodeView
    decreases MAX_DEPTH + 1 - depth,
{
    if !(node.state is Unresolved) {
        node
    } else if depth > MAX_DEPTH {
        NodeView {
            state: State::Error(ParseFailure::MaxRecursionDepthExceeded(node.statement)),
            ..node
        }
    } else {
        let m = matched(g, node, front);
        if m.state is Resolved {
            NodeView {
                constituents: Seq::new(
                    m.constituents.len(),
                    |i: int| (m.constituents[i].0, resolved(g, m.constituents[i].1, front, depth + 1)),
                ),
                ..m
            }
        } else {
            m
        }
    }
}

/// Makes the node for a captured text, as [`fresh_node`] says.
pub fn create_constituent_node(value: &str, param_type: &str, span: &Position) -> (r: DokeNode)
    ensures
        r@ == fresh_node(value@, param_type@, *span),
{
    let mut parse_data: Vec<(String, GodotValue)> = Vec::new();
    parse_data.push(
        (String::from_str("sentence_type"), GodotValue::String(String::from_str(param_type))),
    );
    let r = DokeNode {
        statement: String::from_str(value),
        state: DokeNodeState::Unresolved,
        children: Vec::new(),
        parse_data,
        constituents: Vec::new(),
        span: *span,
    };
    proof {
        lemma_node_view(r);
        assert(r@.children =~= Seq::empty());
        assert(r@.constituents =~= Seq::empty());
        assert(r@.parse_data =~= seq![(hint_key(), Value::String(param_type@))]);
    }
    r
}

impl SentenceParser {
    /// Looks `text` up in the table of the enumerated type `ty`.
    pub fn enum_lookup(&self, ty: &str, text: &str) -> (r: Option<GodotValue>)
        ensures
            r.deep_view() == enum_value(self@.enums, ty@, text@),
    {
        let i = find_key(&self.type_patterns, ty);
        proof {
            lemma_key_index_is(self@.enums, ty@, i as int);
        }
        if i < self.type_patterns.len() {
            let table = &self.type_patterns[i].1;
            let j = find_field(table, text);
            if j < table.len() {
                Some(table[j].1.clone())
            } else {
                None
            }
        } else {
            None
        }
    }

    /// Binds the captured texts to the parameters of a sentence, as
    /// [`bind`] says: the fields are returned, the side data and the
    /// constituents of the node are brought up to date.
    pub fn parse_parameters(
        &self,
        param_defs: &Vec<ParameterDefinition>,
        raw_params: &Vec<Option<String>>,
        span: &Position,
        parse_data: &mut Vec<(String, GodotValue)>,
        constituents: &mut Vec<(String, DokeNode)>,
    ) -> (fields: Vec<(String, GodotValue)>)
        ensures
            (Binding {
                fields: fields_view(fields@),
                parse_data: fields_view(final(parse_data)@),
                constituents: named_nodes_view(final(constituents)@),
            }) == bind(
                self@.enums,
                params_view(param_defs@),
                raw_params.deep_view(),
                *span,
                Binding {
                    fields: Seq::empty(),
                    parse_data: fields_view(old(parse_data)@),
                    constituents: named_nodes_view(old(constituents)@),
                },
                param_defs.len() as int,
            ),
    {
        let mut fields: Vec<(String, GodotValue)> = Vec::new();
        let ghost start = Binding {
            fields: Seq::empty(),
            parse_data: fields_view(old(parse_data)@),
            constituents: named_nodes_view(old(constituents)@),
        };
        assert(fields_view(fields@) =~= Seq::empty());
        let mut i: usize = 0;
        while i < param_defs.len()
            invariant
                i <= param_defs.len(),
                (Binding {
                    fields: fields_view(fields@),
                    parse_data: fields_view(parse_data@),
                    constituents: named_nodes_view(constituents@),
                }) == bind(
                    self@.enums,
                    params_view(param_defs@),
                    raw_params.deep_view(),
                    *span,
                    start,
                    i as int,
                ),
            decreases param_defs.len() - i,
        {
            let def = &param_defs[i];
            assert(params_view(param_defs@)[i as int] == def@);
            let none: Option<String> = None;
            let raw = if i < raw_params.len() {
                assert(raw_params.deep_view()[i as int] == raw_params@[i as int].deep_view());
                &raw_params[i]
            } else {
                &none
            };
            match raw {
                None => {},
                Some(text) => {
                    if is_basic_type(def.param_type.as_str()) {
                        match parse_basic_parameter(text.as_str(), def.param_type.as_str()) {
                            Ok(v) => {
                                set_field(&mut fields, def.name.clone(), v);
                            },
                            Err(m) => {
                                let key = def.name.clone().concat("_error");
                                set_field(parse_data, key, GodotValue::String(m));
                            },
                        }
                    } else {
                        match self.enum_lookup(def.param_type.as_str(), text.as_str()) {
                            Some(v) => {
                                set_field(&mut fields, def.name.clone(), v);
                            },
                            None => {
                                let child = create_constituent_node(
                                    text.as_str(),
                                    def.param_type.as_str(),
                                    span,
                                );
                                set_node(constituents, def.name.clone(), child);
                            },
                        }
                    }
                },
            }
            i += 1;
        }
        fields
    }
}

impl SentenceParser {
    /// Chooses the sentence for a text, as [`best_match`] says, and hands
    /// out its index with the captured text of each of its parameters.
    pub fn select(&self, text: &str, hint: &Option<String>) -> (r: Option<
        (usize, Vec<Option<String>>),
    >)
        ensures
            match best_match(
                self@.phrases,
                text@,
                hint.deep_view(),
                self.phrases@.len() as int,
            ) {
                Some(b) => r matches Some((i, raws)) && i == b && i < self.phrases.len()
                    && raws.deep_view() == raw_captures(
                    capture_groups(self@.phrases[b].regex, text@).unwrap(),
                    self@.phrases[b].parameters.len(),
                ) && raws.len() == self.phrases@[b].parameters.len(),
                None => r is None,
            },
    {
        let mut best: Option<(usize, Vec<Option<String>>)> = None;
        let mut i: usize = 0;
        while i < self.phrases.len()
            invariant
                i <= self.phrases.len(),
                match best_match(self@.phrases, text@, hint.deep_view(), i as int) {
                    Some(b) => best matches Some((k, raws)) && k == b && b < i && raws.deep_view()
                        == raw_captures(
                        capture_groups(self@.phrases[b].regex, text@).unwrap(),
                        self@.phrases[b].parameters.len(),
                    ) && raws.len() == self.phrases@[b].parameters.len(),
                    None => best is None,
                },
            decreases self.phrases.len() - i,
        {
            let phrase = &self.phrases[i];
            let ghost before = best_match(self@.phrases, text@, hint.deep_view(), i as int);
            assert(self@.phrases[i as int] == phrase@);
            if phrase_is_candidate(phrase, hint) {
                match match_phrase_exact(text, phrase) {
                    Ok(raws) => {
                        assert(raws.deep_view().len() == raws.len());
                        let wins = match &best {
                            None => true,
                            Some((b, _)) => {
                                assert(self@.phrases[*b as int] == self.phrases@[*b as int]@);
                                let held = phrase_specificity(&self.phrases[*b]);
                                let mine = phrase_specificity(phrase);
                                !(held.0 > mine.0 || (held.0 == mine.0 && held.1 > mine.1))
                            },
                        };
                        assert(wins == match before {
                            None => true,
                            Some(b) => !outranks(
                                specificity(self@.phrases[b]),
                                specificity(self@.phrases[i as int]),
                            ),
                        });
                        if wins {
                            best = Some((i, raws));
                        }
                    },
                    Err(_) => {},
                }
            }
            i += 1;
        }
        best
    }

    /// Tries the grammar on a node once, as [`matched`] says.
    pub fn match_node(&self, node: &mut DokeNode, frontmatter: &Vec<(String, GodotValue)>)
        ensures
            final(node)@ == matched(self@, old(node)@, fields_view(frontmatter@)),
    {
        proof {
            lemma_node_view(*node);
        }
        match &node.state {
            DokeNodeState::Unresolved => {},
            _ => {
                return ;
            },
        }
        let text = normalize_statement(node.statement.as_str());
        let hint = read_expected_type(&node.parse_data);
        match self.select(text.as_str(), &hint) {
            None => {
                let mut hypotheses: Vec<Hypothesis> = Vec::new();
                hypotheses.push(
                    Hypothesis::Failed(
                        ErrorHypo {
                            error: SentenceParseError::NoMatch(text.clone()),
                            statement: text,
                        },
                    ),
                );
                node.state = DokeNodeState::Hypothesis(hypotheses);
                proof {
                    lemma_node_view(*node);
                    assert(node.state@->Hypothesis_0 =~= seq![
                        Conjecture::Failed {
                            error: ParseFailure::NoMatch(text@),
                            statement: text@,
                        },
                    ]);
                }
            },
            Some((b, raws)) => {
                let phrase = &self.phrases[b];
                assert(self@.phrases[b as int] == phrase@);
                let span = node.span;
                let fields = self.parse_parameters(
                    &phrase.parameters,
                    &raws,
                    &span,
                    &mut node.parse_data,
                    &mut node.constituents,
                );
                let tr_key = phrase.make_tr_key();
                let result = match &phrase.return_spec {
                    ReturnSpec::Type(t) => SentenceResult::new_type(t.clone(), fields, tr_key),
                    ReturnSpec::Literal(lv) => SentenceResult::new_literal(
                        lv.clone(),
                        fields,
                        tr_key,
                    ),
                    ReturnSpec::Format(fmt) => {
                        let text = perform_format_string(fmt.as_str(), &fields, frontmatter);
                        SentenceResult::new_literal(GodotValue::String(text), fields, tr_key)
                    },
                };
                node.state = DokeNodeState::Resolved(ResolvedValue::Sentence(result));
                proof {
                    lemma_node_view(*node);
                }
            },
        }
    }

    /// Resolves a node and the constituents below it, as [`resolved`]
    /// says. The work ends at [`MAX_DEPTH`]: an unresolved node beyond it
    /// is left in the error state.
    pub fn process_with_depth(
        &self,
        node: &mut DokeNode,
        frontmatter: &Vec<(String, GodotValue)>,
        depth: usize,
    )
        ensures
            final(node)@ == resolved(self@, old(node)@, fields_view(frontmatter@), depth as nat),
        decreases MAX_DEPTH + 1 - depth,
    {
        proof {
            lemma_node_view(*node);
        }
        match &node.state {
            DokeNodeState::Unresolved => {},
            _ => {
                return ;
            },
        }
        if depth > MAX_DEPTH {
            node.state = DokeNodeState::Error(
                SentenceParseError::MaxRecursionDepthExceeded(node.statement.clone()),
            );
            proof {
                lemma_node_view(*node);
            }
            return ;
        }
        self.match_node(node, frontmatter);
        let ghost m = node@;
        proof {
            lemma_node_view(*node);
        }
        match &node.state {
            DokeNodeState::Resolved(_) => {},
            _ => {
                return ;
            },
        }
        let mut i: usize = 0;
        while i < node.constituents.len()
            invariant
                i <= node.constituents.len(),
                depth <= MAX_DEPTH,
                node.constituents.len() == m.constituents.len(),
                node.statement@ == m.statement,
                node.state@ == m.state,
                nodes_view(node.children@) == m.children,
                fields_view(node.parse_data@) == m.parse_data,
                node.span == m.span,
                forall|k: int|
                    0 <= k < i ==> #[trigger] named_nodes_view(node.constituents@)[k] == (
                        m.constituents[k].0,
                        resolved(
                            self@,
                            m.constituents[k].1,
                            fields_view(frontmatter@),
                            (depth + 1) as nat,
                        ),
                    ),
                forall|k: int|
                    i <= k < m.constituents.len() ==> #[trigger] named_nodes_view(
                        node.constituents@,
                    )[k] == m.constituents[k],
            decreases node.constituents.len() - i,
        {
            let ghost before = node.constituents@;
            let ghost seen = named_nodes_view(node.constituents@);
            assert(seen[i as int] == m.constituents[i as int]);
            let (name, mut child) = node.constituents.remove(i);
            self.process_with_depth(&mut child, frontmatter, depth + 1);
            node.constituents.insert(i, (name, child));
            proof {
                assert(node.constituents@ =~= before.update(i as int, (name, child)));
                let after = named_nodes_view(node.constituents@);
                assert(after[i as int] == (name@, child@));
                assert forall|k: int| 0 <= k < m.constituents.len() && k != i implies after[k]
                    == seen[k] by {}
            }
            i += 1;
        }
        proof {
            lemma_node_view(*node);
            let want = resolved(self@, old(node)@, fields_view(frontmatter@), depth as nat);
            assert(node@.constituents =~= want.constituents);
        }
    }
}

impl SentenceParser {
    /// Resolves a node with this grammar alone, starting at depth 0.
    pub fn process(&self, node: &mut DokeNode, frontmatter: &Vec<(String, GodotValue)>)
        ensures
            final(node)@ == resolved(self@, old(node)@, fields_view(frontmatter@), 0),
    {
        self.process_with_depth(node, frontmatter, 0);
    }
}

/// Depth is enforced: beyond [`MAX_DEPTH`] an unresolved node takes the
/// error state and nothing below it is touched, whatever the grammar.
pub proof fn lemma_depth_is_enforced(
    g: Grammar,
    node: NodeView,
    front: Seq<(Seq<char>, Value)>,
    depth: nat,
)
    requires
        depth > MAX_DEPTH,
        node.state is Unresolved,
    ensures
        resolved(g, node, front, depth) == (NodeView {
            state: State::Error(ParseFailure::MaxRecursionDepthExceeded(node.statement)),
            ..node
        }),
{
}

/// Whether nothing is left undecided in a node: it is not unresolved, and
/// neither is any constituent below it.
pub open spec fn settled(node: NodeView) -> bool
    decreases node,
{
    !(node.state is Unresolved) && forall|i: int|
        0 <= i < node.constituents.len() ==> settled(#[trigger] node.constituents[i].1)
}

/// Whether every constituent of a node is settled.
pub open spec fn constituents_settled(node: NodeView) -> bool {
    forall|i: int| 0 <= i < node.constituents.len() ==> settled(#[trigger] node.constituents[i].1)
}

/// Binding parameters adds only nodes without constituents.
proof fn lemma_bind_keeps_constituents_ready(
    enums: Seq<(Seq<char>, Seq<(Seq<char>, Value)>)>,
    params: Seq<Param>,
    raws: Seq<Option<Seq<char>>>,
    span: Position,
    start: Binding,
    n: int,
)
    requires
        forall|i: int|
            0 <= i < start.constituents.len() ==> constituents_settled(
                #[trigger] start.constituents[i].1,
            ),
    ensures
        forall|i: int|
            0 <= i < bind(enums, params, raws, span, start, n).constituents.len()
                ==> constituents_settled(
                #[trigger] bind(enums, params, raws, span, start, n).constituents[i].1,
            ),
    decreases n,
{
    if 0 < n <= params.len() {
        lemma_bind_keeps_constituents_ready(enums, params, raws, span, start, n - 1);
        let before = bind(enums, params, raws, span, start, n - 1);
        let after = bind(enums, params, raws, span, start, n);
        lemma_key_index(before.constituents, params[n - 1].name, 0);
        assert forall|i: int| 0 <= i < after.constituents.len() implies constituents_settled(
            #[trigger] after.constituents[i].1,
        ) by {
            if after.constituents != before.constituents {
                let at = key_index(before.constituents, params[n - 1].name, 0);
                if i != at {
                    assert(after.constituents[i] == before.constituents[i]);
                }
            }
        }
    }
}

/// Resolving leaves nothing undecided: where every constituent that a
/// node already has is settled, the node is settled afterwards. Each
/// statement that a sentence captured is resolved, carries the record that
/// nothing matched it, or carries the error of the depth limit; none is
/// passed over.
pub proof fn lemma_resolving_settles(
    g: Grammar,
    node: NodeView,
    front: Seq<(Seq<char>, Value)>,
    depth: nat,
)
    requires
        constituents_settled(node),
    ensures
        settled(resolved(g, node, front, depth)),
    decreases MAX_DEPTH + 1 - depth,
{
    if node.state is Unresolved && depth <= MAX_DEPTH {
        let m = matched(g, node, front);
        if m.state is Resolved {
            let text = statement_text(node.statement);
            let b = best_match(
                g.phrases,
                text,
                expected_type(node.parse_data),
                g.phrases.len() as int,
            ).unwrap();
            let p = g.phrases[b];
            let raws = raw_captures(capture_groups(p.regex, text).unwrap(), p.parameters.len());
            let start = Binding {
                fields: Seq::empty(),
                parse_data: node.parse_data,
                constituents: node.constituents,
            };
            assert forall|i: int| 0 <= i < start.constituents.len() implies constituents_settled(
                #[trigger] start.constituents[i].1,
            ) by {
                assert(settled(node.constituents[i].1));
            }
            lemma_bind_keeps_constituents_ready(
                g.enums,
                p.parameters,
                raws,
                node.span,
                start,
                p.parameters.len() as int,
            );
            let out = resolved(g, node, front, depth);
            assert forall|i: int| 0 <= i < out.constituents.len() implies settled(
                #[trigger] out.constituents[i].1,
            ) by {
                lemma_resolving_settles(g, m.constituents[i].1, front, depth + 1);
            }
        }
    }
}

/// The value of a sentence as it is resolved, before anything is merged
/// in: a sentence that returns a type gives the resource of that type
/// whose fields are exactly the bound fields; one that returns a literal
/// gives the literal; one that returns a format gives the formatted
/// string.
pub proof fn lemma_value_of_result(
    p: Phrase,
    fields: Seq<(Seq<char>, Value)>,
    front: Seq<(Seq<char>, Value)>,
)
    ensures
        sentence_value(result_of(p, fields, front)) == match p.return_spec {
            Returned::Type(t) => Value::Resource { resource_type: t, fields },
            Returned::Literal(v) => v,
            Returned::Format(f) => Value::String(formatted(f, 0, fields, front)),
        },
{
}

/// Whether a node is as the document or a capture gives it: unresolved
/// and without constituents.
pub open spec fn is_fresh(node: NodeView) -> bool {
    node.state is Unresolved && node.constituents.len() == 0
}

/// Whether no chain of constituents below `node` has more than `n` steps,
/// and every node that stands `n` steps below it is in the error state and
/// has no constituent.
pub open spec fn chains_end_within(node: NodeView, n: nat) -> bool
    decreases n,
{
    if n == 0 {
        node.state is Error && node.constituents.len() == 0
    } else {
        forall|i: int|
            0 <= i < node.constituents.len() ==> chains_end_within(
                (#[trigger] node.constituents[i]).1,
                (n - 1) as nat,
            )
    }
}

/// Binding parameters to fresh constituents leaves only fresh
/// constituents.
proof fn lemma_bind_adds_fresh_nodes(
    enums: Seq<(Seq<char>, Seq<(Seq<char>, Value)>)>,
    params: Seq<Param>,
    raws: Seq<Option<Seq<char>>>,
    span: Position,
    start: Binding,
    n: int,
)
    requires
        forall|i: int|
            0 <= i < start.constituents.len() ==> is_fresh((#[trigger] start.constituents[i]).1),
    ensures
        forall|i: int|
            0 <= i < bind(enums, params, raws, span, start, n).constituents.len() ==> is_fresh(
                (#[trigger] bind(enums, params, raws, span, start, n).constituents[i]).1,
            ),
    decreases n,
{
    if 0 < n <= params.len() {
        lemma_bind_adds_fresh_nodes(enums, params, raws, span, start, n - 1);
        let before = bind(enums, params, raws, span, start, n - 1);
        let after = bind(enums, params, raws, span, start, n);
        lemma_key_index(before.constituents, params[n - 1].name, 0);
        assert forall|i: int| 0 <= i < after.constituents.len() implies is_fresh(
            (#[trigger] after.constituents[i]).1,
        ) by {
            if after.constituents != before.constituents {
                let at = key_index(before.constituents, params[n - 1].name, 0);
                if i != at {
                    assert(after.constituents[i] == before.constituents[i]);
                }
            }
        }
    }
}

/// Matching a node without constituents gives it only fresh constituents:
/// the statements that the sentence captured.
pub proof fn lemma_matched_constituents_are_fresh(
    g: Grammar,
    node: NodeView,
    front: Seq<(Seq<char>, Value)>,
)
    requires
        node.constituents.len() == 0,
    ensures
        forall|i: int|
            0 <= i < matched(g, node, front).constituents.len() ==> is_fresh(
                (#[trigger] matched(g, node, front).constituents[i]).1,
            ),
{
    if node.state is Unresolved {
        let text = statement_text(node.statement);
        let found = best_match(
            g.phrases,
            text,
            expected_type(node.parse_data),
            g.phrases.len() as int,
        );
        if found is Some {
            let p = g.phrases[found.unwrap()];
            let raws = raw_captures(capture_groups(p.regex, text).unwrap(), p.parameters.len());
            let start = Binding {
                fields: Seq::empty(),
                parse_data: node.parse_data,
                constituents: node.constituents,
            };
            lemma_bind_adds_fresh_nodes(
                g.enums,
                p.parameters,
                raws,
                node.span,
                start,
                p.parameters.len() as int,
            );
        }
    }
}

/// The depth limit bounds every chain of constituents: below a fresh node
/// that is resolved at `depth`, no chain of constituents has more than
/// `MAX_DEPTH + 1 - depth` steps, and a node that stands so many steps
/// below is in the error state and has no constituent. From depth 0 a
/// chain has at most 101 steps, whatever the grammar.
pub proof fn lemma_chains_are_bounded(
    g: Grammar,
    node: NodeView,
    front: Seq<(Seq<char>, Value)>,
    depth: nat,
)
    requires
        is_fresh(node),
        depth <= MAX_DEPTH + 1,
    ensures
        chains_end_within(resolved(g, node, front, depth), (MAX_DEPTH + 1 - depth) as nat),
    decreases MAX_DEPTH + 1 - depth,
{
    if depth <= MAX_DEPTH {
        let m = matched(g, node, front);
        lemma_matched_constituents_are_fresh(g, node, front);
        let out = resolved(g, node, front, depth);
        if m.state is Resolved {
            assert forall|i: int| 0 <= i < out.constituents.len() implies chains_end_within(
                (#[trigger] out.constituents[i]).1,
                (MAX_DEPTH - depth) as nat,
            ) by {
                assert(is_fresh(m.constituents[i].1));
                lemma_chains_are_bounded(g, m.constituents[i].1, front, depth + 1);
            }
        } else {
            assert(out.constituents.len() == 0);
        }
    }
}

} // verus!
