//! What holds of every value and of every tree. Values are well formed:
//! no key occurs twice in a dictionary or a resource, and loading,
//! resolving, validating and assembling keep them so. The state of a node
//! only moves forward.

use crate::base_parser::Position;
use crate::file_builder::{Field, assembled, first_of_type, sorted_out, value_matches};
use crate::parsers::grammar::{
    enum_entries, enum_items, enum_type_of, grammar_of, phrase_entries, phrase_items, sections,
};
use crate::parsers::phrase::{Phrase, Returned};
use crate::parsers::primitive::{basic_value, is_basic};
use crate::parsers::sentence::{
    Binding, Grammar, MAX_DEPTH, Sentence, best_match, bind, enum_value, expected_type,
    lemma_best_match, matched, parameters_with_child, raw_captures, resolved, statement_text,
};
use crate::parsers::template::Param;
use crate::parsers::typed_sentences::{Rule, dispatched};
use crate::regex_bridge::capture_groups;
use crate::semantic::{
    Conjecture, NodeView, Resolution, State, Value, best_conjecture, key_index, lemma_key_index,
    merge_children, merge_constituents, merged, own_outcome, resolution_value, unique_keys, upsert,
    validated, validated_children, validated_constituents, validated_roots, with_child,
};
use crate::yaml::YamlValue;
use crate::{dict_of_yaml, godot_of_yaml, normalized_key};
use vstd::prelude::*;

verus! {

/// Whether a value is well formed: in every dictionary and in every
/// resource of the value, no key occurs twice.
pub open spec fn well_formed(v: Value) -> bool
    decreases v,
{
    match v {
        Value::Array(items) => forall|i: int|
            0 <= i < items.len() ==> well_formed(#[trigger] items[i]),
        Value::Dict(entries) => unique_keys(entries) && forall|i: int|
            0 <= i < entries.len() ==> well_formed((#[trigger] entries[i]).1),
        Value::Resource { fields, .. } => unique_keys(fields) && forall|i: int|
            0 <= i < fields.len() ==> well_formed((#[trigger] fields[i]).1),
        _ => true,
    }
}

/// Whether the entries of a dictionary or the fields of a resource are
/// well formed: no key occurs twice and every value is well formed.
pub open spec fn entries_well_formed(entries: Seq<(Seq<char>, Value)>) -> bool {
    unique_keys(entries) && forall|i: int|
        0 <= i < entries.len() ==> well_formed((#[trigger] entries[i]).1)
}

/// Storing a well-formed value under a key keeps the entries well formed.
pub proof fn lemma_upsert_well_formed(entries: Seq<(Seq<char>, Value)>, key: Seq<char>, value: Value)
    requires
        entries_well_formed(entries),
        well_formed(value),
    ensures
        entries_well_formed(upsert(entries, key, value)),
{
    lemma_key_index(entries, key, 0);
    let out = upsert(entries, key, value);
    let at = key_index(entries, key, 0);
    assert forall|i: int| 0 <= i < out.len() implies well_formed((#[trigger] out[i]).1) by {
        if i != at {
            assert(out[i] == entries[i]);
        }
    }
    assert forall|i: int, j: int| 0 <= i < j < out.len() implies out[i].0 != out[j].0 by {
        if at < entries.len() {
            assert(out[i].0 == entries[i].0 && out[j].0 == entries[j].0);
        } else if j < entries.len() {
            assert(out[i] == entries[i] && out[j] == entries[j]);
        } else {
            assert(out[i] == entries[i]);
        }
    }
}

/// A well-formed value that takes a well-formed child stays well formed.
pub proof fn lemma_with_child_well_formed(v: Value, child: Value)
    requires
        well_formed(v),
        well_formed(child),
        with_child(v, child) is Some,
    ensures
        well_formed(with_child(v, child).unwrap()),
{
    let key = "children"@;
    match v {
        Value::Array(items) => {
            let out = items.push(child);
            assert forall|i: int| 0 <= i < out.len() implies well_formed(#[trigger] out[i]) by {
                if i < items.len() {
                    assert(out[i] == items[i]);
                }
            }
        },
        Value::Dict(entries) => {
            lemma_upsert_well_formed(entries, key, child);
        },
        Value::Resource { resource_type, fields } => {
            lemma_fields_with_child_well_formed(fields, child);
        },
        _ => {},
    }
}

/// The fields of a resource or the parameters of a sentence stay well
/// formed when a well-formed child is added under `children`.
pub proof fn lemma_fields_with_child_well_formed(fields: Seq<(Seq<char>, Value)>, child: Value)
    requires
        entries_well_formed(fields),
        well_formed(child),
        parameters_with_child(fields, child) is Some,
    ensures
        entries_well_formed(parameters_with_child(fields, child).unwrap()),
{
    let key = "children"@;
    lemma_key_index(fields, key, 0);
    let at = key_index(fields, key, 0);
    if at < fields.len() {
        let items = fields[at].1->Array_0;
        assert(well_formed(fields[at].1));
        let list = Value::Array(items.push(child));
        assert(well_formed(list)) by {
            assert forall|i: int| 0 <= i < items.push(child).len() implies well_formed(
                #[trigger] items.push(child)[i],
            ) by {
                if i < items.len() {
                    assert(items.push(child)[i] == items[i]);
                }
            }
        }
        assert(fields.update(at, (key, list)) == upsert(fields, key, list));
        lemma_upsert_well_formed(fields, key, list);
    } else {
        let list = Value::Array(seq![child]);
        assert(well_formed(list)) by {
            assert forall|i: int| 0 <= i < seq![child].len() implies well_formed(
                #[trigger] seq![child][i],
            ) by {}
        }
        assert(fields.push((key, list)) == upsert(fields, key, list));
        lemma_upsert_well_formed(fields, key, list);
    }
}

/// Whether the result of a sentence is well formed: its parameters are,
/// and so is its literal where it has one.
pub open spec fn sentence_well_formed(s: Sentence) -> bool {
    entries_well_formed(s.parameters) && match s.literal_value {
        Some(v) => well_formed(v),
        None => true,
    }
}

/// Whether a resolution is well formed.
pub open spec fn resolution_well_formed(r: Resolution) -> bool {
    match r {
        Resolution::Value(v) => well_formed(v),
        Resolution::Sentence(s) => sentence_well_formed(s),
    }
}

/// The final value of a well-formed resolution is well formed.
pub proof fn lemma_resolution_value_well_formed(r: Resolution)
    requires
        resolution_well_formed(r),
    ensures
        well_formed(resolution_value(r)),
{
}

/// Merging well-formed values into a well-formed resolution leaves it well
/// formed, whether merging comes through or stops at a child.
pub proof fn lemma_merged_well_formed(
    r: Resolution,
    children: Seq<Value>,
    constituents: Seq<(Seq<char>, Value)>,
)
    requires
        resolution_well_formed(r),
        forall|i: int| 0 <= i < children.len() ==> well_formed(#[trigger] children[i]),
        forall|i: int| 0 <= i < constituents.len() ==> well_formed((#[trigger] constituents[i]).1),
    ensures
        resolution_well_formed(merged(r, children, constituents).0),
{
    lemma_merge_children_well_formed(r, children, children.len() as int);
    let middle = merge_children(r, children, children.len() as int).0;
    lemma_merge_constituents_well_formed(middle, constituents, constituents.len() as int);
}

proof fn lemma_merge_children_well_formed(r: Resolution, values: Seq<Value>, n: int)
    requires
        resolution_well_formed(r),
        forall|i: int| 0 <= i < values.len() ==> well_formed(#[trigger] values[i]),
    ensures
        resolution_well_formed(merge_children(r, values, n).0),
    decreases n,
{
    if 0 < n <= values.len() {
        lemma_merge_children_well_formed(r, values, n - 1);
        let (before, failed) = merge_children(r, values, n - 1);
        if failed is None {
            assert(well_formed(values[n - 1]));
            match before {
                Resolution::Value(v) => {
                    if with_child(v, values[n - 1]) is Some {
                        lemma_with_child_well_formed(v, values[n - 1]);
                    }
                },
                Resolution::Sentence(s) => {
                    if parameters_with_child(s.parameters, values[n - 1]) is Some {
                        lemma_fields_with_child_well_formed(s.parameters, values[n - 1]);
                    }
                },
            }
        }
    }
}

proof fn lemma_merge_constituents_well_formed(
    r: Resolution,
    values: Seq<(Seq<char>, Value)>,
    n: int,
)
    requires
        resolution_well_formed(r),
        forall|i: int| 0 <= i < values.len() ==> well_formed((#[trigger] values[i]).1),
    ensures
        resolution_well_formed(merge_constituents(r, values, n)),
    decreases n,
{
    if 0 < n <= values.len() {
        lemma_merge_constituents_well_formed(r, values, n - 1);
        let before = merge_constituents(r, values, n - 1);
        assert(well_formed(values[n - 1].1));
        match before {
            Resolution::Sentence(s) => {
                lemma_upsert_well_formed(s.parameters, values[n - 1].0, values[n - 1].1);
            },
            _ => {},
        }
    }
}

/// Whether the state of a node is well formed: its resolution is, or
/// every guess among its readings.
pub open spec fn state_well_formed(state: State) -> bool {
    match state {
        State::Resolved(r) => resolution_well_formed(r),
        State::Hypothesis(hs) => forall|i: int|
            0 <= i < hs.len() ==> ((#[trigger] hs[i]) matches Conjecture::Guess { result, .. }
                ==> resolution_well_formed(result)),
        _ => true,
    }
}

/// Whether a tree is well formed: the state of every node in it is, of
/// children and of constituents.
pub open spec fn tree_well_formed(node: NodeView) -> bool
    decreases node,
{
    &&& state_well_formed(node.state)
    &&& forall|i: int| 0 <= i < node.children.len() ==> tree_well_formed(#[trigger] node.children[i])
    &&& forall|i: int|
        0 <= i < node.constituents.len() ==> tree_well_formed((#[trigger] node.constituents[i]).1)
}

/// What a node's own state comes to is well formed where the state and
/// the values are.
pub proof fn lemma_own_outcome_well_formed(
    state: State,
    statement: Seq<char>,
    span: Position,
    children: Seq<Value>,
    constituents: Seq<(Seq<char>, Value)>,
)
    requires
        state_well_formed(state),
        forall|i: int| 0 <= i < children.len() ==> well_formed(#[trigger] children[i]),
        forall|i: int| 0 <= i < constituents.len() ==> well_formed((#[trigger] constituents[i]).1),
    ensures
        state_well_formed(own_outcome(state, statement, span, children, constituents).0),
        own_outcome(state, statement, span, children, constituents).1 matches Ok(v)
            ==> well_formed(v),
{
    match state {
        State::Resolved(r) => {
            lemma_merged_well_formed(r, children, constituents);
            lemma_resolution_value_well_formed(merged(r, children, constituents).0);
        },
        State::Hypothesis(hs) => {
            if hs.len() > 0 {
                let b = best_conjecture(hs, hs.len() as int);
                lemma_best_conjecture_bounds(hs, hs.len() as int);
                match hs[b] {
                    Conjecture::Guess { result, .. } => {
                        lemma_merged_well_formed(result, children, constituents);
                        lemma_resolution_value_well_formed(
                            merged(result, children, constituents).0,
                        );
                    },
                    _ => {},
                }
            }
        },
        _ => {},
    }
}

proof fn lemma_best_conjecture_bounds(hs: Seq<Conjecture>, n: int)
    requires
        0 < n <= hs.len(),
    ensures
        0 <= best_conjecture(hs, n) < n,
    decreases n,
{
    if n > 1 {
        lemma_best_conjecture_bounds(hs, n - 1);
    }
}

/// Validation keeps a well-formed tree well formed, and the value that it
/// gives for it is well formed.
pub proof fn lemma_validated_well_formed(node: NodeView)
    requires
        tree_well_formed(node),
    ensures
        tree_well_formed(validated(node).0),
        validated(node).1 matches Ok(v) ==> well_formed(v),
    decreases node, 0int,
{
    lemma_children_well_formed(node.children, node.children.len() as int);
    let (children, child_values) = validated_children(node.children, node.children.len() as int);
    if child_values is Ok {
        lemma_constituents_well_formed(node.constituents, node.constituents.len() as int);
        let (constituents, named) = validated_constituents(
            node.constituents,
            node.constituents.len() as int,
        );
        if named is Ok {
            lemma_own_outcome_well_formed(
                node.state,
                node.statement,
                node.span,
                child_values->Ok_0,
                named->Ok_0,
            );
        }
    }
}

proof fn lemma_children_well_formed(nodes: Seq<NodeView>, n: int)
    requires
        forall|i: int| 0 <= i < nodes.len() ==> tree_well_formed(#[trigger] nodes[i]),
    ensures
        validated_children(nodes, n).0.len() == nodes.len(),
        forall|i: int|
            0 <= i < nodes.len() ==> tree_well_formed(#[trigger] validated_children(nodes, n).0[i]),
        validated_children(nodes, n).1 matches Ok(values) ==> forall|i: int|
            0 <= i < values.len() ==> well_formed(#[trigger] values[i]),
    decreases nodes, n,
{
    if 0 < n <= nodes.len() {
        lemma_children_well_formed(nodes, n - 1);
        let (before, values) = validated_children(nodes, n - 1);
        if values is Ok {
            lemma_validated_well_formed(nodes[n - 1]);
            let (node, outcome) = validated(nodes[n - 1]);
            let after = before.update(n - 1, node);
            assert forall|i: int| 0 <= i < nodes.len() implies tree_well_formed(
                #[trigger] after[i],
            ) by {
                if i != n - 1 {
                    assert(after[i] == before[i]);
                }
            }
            if outcome is Ok {
                let vs = values->Ok_0;
                let out = vs.push(outcome->Ok_0);
                assert forall|i: int| 0 <= i < out.len() implies well_formed(#[trigger] out[i]) by {
                    if i < vs.len() {
                        assert(out[i] == vs[i]);
                    }
                }
            }
        }
    }
}

proof fn lemma_constituents_well_formed(nodes: Seq<(Seq<char>, NodeView)>, n: int)
    requires
        forall|i: int| 0 <= i < nodes.len() ==> tree_well_formed((#[trigger] nodes[i]).1),
    ensures
        validated_constituents(nodes, n).0.len() == nodes.len(),
        forall|i: int|
            0 <= i < nodes.len() ==> tree_well_formed(
                (#[trigger] validated_constituents(nodes, n).0[i]).1,
            ),
        validated_constituents(nodes, n).1 matches Ok(values) ==> forall|i: int|
            0 <= i < values.len() ==> well_formed((#[trigger] values[i]).1),
    decreases nodes, n,
{
    if 0 < n <= nodes.len() {
        lemma_constituents_well_formed(nodes, n - 1);
        let (before, values) = validated_constituents(nodes, n - 1);
        if values is Ok {
            lemma_validated_well_formed(nodes[n - 1].1);
            let (node, outcome) = validated(nodes[n - 1].1);
            let after = before.update(n - 1, (nodes[n - 1].0, node));
            assert forall|i: int| 0 <= i < nodes.len() implies tree_well_formed(
                (#[trigger] after[i]).1,
            ) by {
                if i != n - 1 {
                    assert(after[i] == before[i]);
                }
            }
            if outcome is Ok {
                let vs = values->Ok_0;
                let out = vs.push((nodes[n - 1].0, outcome->Ok_0));
                assert forall|i: int| 0 <= i < out.len() implies well_formed(
                    (#[trigger] out[i]).1,
                ) by {
                    if i < vs.len() {
                        assert(out[i] == vs[i]);
                    }
                }
            }
        }
    }
}

/// Every value that validation gives for well-formed roots is well
/// formed.
pub proof fn lemma_validated_roots_well_formed(roots: Seq<NodeView>, n: int)
    requires
        forall|i: int| 0 <= i < roots.len() ==> tree_well_formed(#[trigger] roots[i]),
    ensures
        forall|i: int|
            0 <= i < validated_roots(roots, n).1.len() ==> well_formed(
                #[trigger] validated_roots(roots, n).1[i],
            ),
    decreases n,
{
    if 0 < n <= roots.len() {
        lemma_validated_roots_well_formed(roots, n - 1);
        lemma_validated_well_formed(roots[n - 1]);
        let (before, values, failures) = validated_roots(roots, n - 1);
        let (node, outcome) = validated(roots[n - 1]);
        if outcome is Ok {
            let out = values.push(outcome->Ok_0);
            assert forall|i: int| 0 <= i < out.len() implies well_formed(#[trigger] out[i]) by {
                if i < values.len() {
                    assert(out[i] == values[i]);
                }
            }
        }
    }
}

/// Whether a grammar is well formed: the value that a sentence returns as
/// a literal is, and every value in the tables of the enumerated types.
pub open spec fn grammar_well_formed(g: Grammar) -> bool {
    &&& forall|i: int|
        0 <= i < g.phrases.len() ==> ((#[trigger] g.phrases[i]).return_spec matches Returned::Literal(
            v,
        ) ==> well_formed(v))
    &&& forall|i: int, j: int|
        0 <= i < g.enums.len() && 0 <= j < g.enums[i].1.len() ==> well_formed(
            (#[trigger] g.enums[i].1[j]).1,
        )
}

/// Binding parameters keeps the fields well formed and adds only well-
/// formed nodes.
proof fn lemma_bind_well_formed(
    g: Grammar,
    params: Seq<Param>,
    raws: Seq<Option<Seq<char>>>,
    span: Position,
    start: Binding,
    n: int,
)
    requires
        grammar_well_formed(g),
        entries_well_formed(start.fields),
        forall|i: int|
            0 <= i < start.constituents.len() ==> tree_well_formed(
                (#[trigger] start.constituents[i]).1,
            ),
    ensures
        entries_well_formed(bind(g.enums, params, raws, span, start, n).fields),
        forall|i: int|
            0 <= i < bind(g.enums, params, raws, span, start, n).constituents.len()
                ==> tree_well_formed(
                (#[trigger] bind(g.enums, params, raws, span, start, n).constituents[i]).1,
            ),
    decreases n,
{
    if 0 < n <= params.len() {
        lemma_bind_well_formed(g, params, raws, span, start, n - 1);
        let before = bind(g.enums, params, raws, span, start, n - 1);
        let after = bind(g.enums, params, raws, span, start, n);
        let p = params[n - 1];
        let raw = if n <= raws.len() {
            raws[n - 1]
        } else {
            None
        };
        match raw {
            None => {},
            Some(text) => {
                if is_basic(p.param_type) {
                    match basic_value(text, p.param_type) {
                        Ok(v) => {
                            lemma_upsert_well_formed(before.fields, p.name, v);
                        },
                        Err(_) => {},
                    }
                } else {
                    lemma_key_index(g.enums, p.param_type, 0);
                    let e = key_index(g.enums, p.param_type, 0);
                    if e < g.enums.len() {
                        lemma_key_index(g.enums[e].1, text, 0);
                    }
                    match enum_value(g.enums, p.param_type, text) {
                        Some(v) => {
                            let j = key_index(g.enums[e].1, text, 0);
                            assert(well_formed(g.enums[e].1[j].1));
                            lemma_upsert_well_formed(before.fields, p.name, v);
                        },
                        None => {
                            lemma_key_index(before.constituents, p.name, 0);
                            let at = key_index(before.constituents, p.name, 0);
                            assert forall|i: int|
                                0 <= i < after.constituents.len() implies tree_well_formed(
                                (#[trigger] after.constituents[i]).1,
                            ) by {
                                if i != at {
                                    assert(after.constituents[i] == before.constituents[i]);
                                }
                            }
                        },
                    }
                }
            },
        }
    }
}

/// Matching a well-formed tree against a well-formed grammar leaves it
/// well formed.
pub proof fn lemma_matched_well_formed(g: Grammar, node: NodeView, front: Seq<(Seq<char>, Value)>)
    requires
        grammar_well_formed(g),
        tree_well_formed(node),
    ensures
        tree_well_formed(matched(g, node, front)),
{
    let m = matched(g, node, front);
    if node.state is Unresolved {
        let text = statement_text(node.statement);
        let found = best_match(
            g.phrases,
            text,
            expected_type(node.parse_data),
            g.phrases.len() as int,
        );
        match found {
            None => {
                assert(state_well_formed(m.state));
            },
            Some(b) => {
                lemma_best_match(
                    g.phrases,
                    text,
                    expected_type(node.parse_data),
                    g.phrases.len() as int,
                );
                let p = g.phrases[b];
                let raws = raw_captures(
                    capture_groups(p.regex, text).unwrap(),
                    p.parameters.len(),
                );
                let start = Binding {
                    fields: Seq::empty(),
                    parse_data: node.parse_data,
                    constituents: node.constituents,
                };
                lemma_bind_well_formed(
                    g,
                    p.parameters,
                    raws,
                    node.span,
                    start,
                    p.parameters.len() as int,
                );
            },
        }
    }
}

/// Resolving a well-formed tree with a well-formed grammar leaves it well
/// formed.
pub proof fn lemma_resolved_well_formed(
    g: Grammar,
    node: NodeView,
    front: Seq<(Seq<char>, Value)>,
    depth: nat,
)
    requires
        grammar_well_formed(g),
        tree_well_formed(node),
    ensures
        tree_well_formed(resolved(g, node, front, depth)),
    decreases MAX_DEPTH + 1 - depth,
{
    if node.state is Unresolved && depth <= MAX_DEPTH {
        lemma_matched_well_formed(g, node, front);
        let m = matched(g, node, front);
        if m.state is Resolved {
            let out = resolved(g, node, front, depth);
            assert forall|i: int| 0 <= i < out.constituents.len() implies tree_well_formed(
                (#[trigger] out.constituents[i]).1,
            ) by {
                assert(tree_well_formed(m.constituents[i].1));
                lemma_resolved_well_formed(g, m.constituents[i].1, front, depth + 1);
            }
        }
    }
}

/// The value that a YAML node stands for is well formed.
pub proof fn lemma_yaml_value_well_formed(y: YamlValue, normalize: bool)
    ensures
        well_formed(godot_of_yaml(y, normalize)),
    decreases y, 0int,
{
    match y {
        YamlValue::Array(items) => {
            let out = godot_of_yaml(y, normalize)->Array_0;
            assert forall|i: int| 0 <= i < out.len() implies well_formed(#[trigger] out[i]) by {
                lemma_yaml_value_well_formed(items[i], normalize);
            }
        },
        YamlValue::Hash(entries) => {
            lemma_yaml_dict_well_formed(entries, normalize, entries.len() as int);
        },
        _ => {},
    }
}

proof fn lemma_yaml_dict_well_formed(entries: Seq<(YamlValue, YamlValue)>, normalize: bool, n: int)
    ensures
        entries_well_formed(dict_of_yaml(entries, normalize, n)),
    decreases entries, n,
{
    if 0 < n <= entries.len() {
        lemma_yaml_dict_well_formed(entries, normalize, n - 1);
        match entries[n - 1].0 {
            YamlValue::String(key) => {
                lemma_yaml_value_well_formed(entries[n - 1].1, normalize);
                lemma_upsert_well_formed(
                    dict_of_yaml(entries, normalize, n - 1),
                    if normalize {
                        normalized_key(key)
                    } else {
                        key
                    },
                    godot_of_yaml(entries[n - 1].1, normalize),
                );
            },
            _ => {},
        }
    }
}

/// Whether the phrases return well-formed literals.
pub open spec fn phrases_well_formed(phrases: Seq<Phrase>) -> bool {
    forall|i: int|
        0 <= i < phrases.len() ==> ((#[trigger] phrases[i]).return_spec matches Returned::Literal(
            v,
        ) ==> well_formed(v))
}

/// Whether every value of a table is well formed.
pub open spec fn table_well_formed(table: Seq<(Seq<char>, Value)>) -> bool {
    forall|j: int| 0 <= j < table.len() ==> well_formed((#[trigger] table[j]).1)
}

proof fn lemma_phrase_entries_well_formed(
    section: Seq<char>,
    entries: Seq<(YamlValue, YamlValue)>,
    phrases: Seq<Phrase>,
    n: int,
)
    requires
        phrases_well_formed(phrases),
    ensures
        phrase_entries(section, entries, phrases, n) matches Ok(ps) ==> phrases_well_formed(ps),
    decreases n,
{
    if 0 < n <= entries.len() {
        lemma_phrase_entries_well_formed(section, entries, phrases, n - 1);
        match (phrase_entries(section, entries, phrases, n - 1), phrase_entries(
            section,
            entries,
            phrases,
            n,
        )) {
            (Ok(before), Ok(after)) => {
                assert forall|i: int| 0 <= i < after.len() implies ((
                #[trigger] after[i]).return_spec matches Returned::Literal(v) ==> well_formed(
                    v,
                )) by {
                    if i < before.len() {
                        assert(after[i] == before[i]);
                    }
                }
            },
            _ => {},
        }
    }
}

proof fn lemma_phrase_items_well_formed(
    section: Seq<char>,
    items: Seq<YamlValue>,
    phrases: Seq<Phrase>,
    n: int,
)
    requires
        phrases_well_formed(phrases),
    ensures
        phrase_items(section, items, phrases, n) matches Ok(ps) ==> phrases_well_formed(ps),
    decreases n,
{
    if 0 < n <= items.len() {
        lemma_phrase_items_well_formed(section, items, phrases, n - 1);
        match (phrase_items(section, items, phrases, n - 1), phrase_items(
            section,
            items,
            phrases,
            n,
        )) {
            (Ok(before), Ok(after)) => {
                match items[n - 1] {
                    YamlValue::String(_) => {
                        assert forall|i: int| 0 <= i < after.len() implies ((
                        #[trigger] after[i]).return_spec matches Returned::Literal(v)
                            ==> well_formed(v)) by {
                            if i < before.len() {
                                assert(after[i] == before[i]);
                            }
                        }
                    },
                    YamlValue::Hash(entries) => {
                        lemma_phrase_entries_well_formed(
                            section,
                            entries,
                            before,
                            entries.len() as int,
                        );
                    },
                    _ => {},
                }
            },
            _ => {},
        }
    }
}

proof fn lemma_enum_entries_well_formed(
    entries: Seq<(YamlValue, YamlValue)>,
    table: Seq<(Seq<char>, Value)>,
    n: int,
)
    requires
        table_well_formed(table),
    ensures
        enum_entries(entries, table, n) matches Ok(t) ==> table_well_formed(t),
    decreases n,
{
    if 0 < n <= entries.len() {
        lemma_enum_entries_well_formed(entries, table, n - 1);
        match (enum_entries(entries, table, n - 1), enum_entries(entries, table, n)) {
            (Ok(before), Ok(after)) => {
                assert forall|j: int| 0 <= j < after.len() implies well_formed(
                    (#[trigger] after[j]).1,
                ) by {
                    if j < before.len() {
                        assert(after[j] == before[j]);
                    }
                }
            },
            _ => {},
        }
    }
}

proof fn lemma_enum_items_well_formed(items: Seq<YamlValue>, table: Seq<(Seq<char>, Value)>, n: int)
    requires
        table_well_formed(table),
    ensures
        enum_items(items, table, n) matches Ok(t) ==> table_well_formed(t),
    decreases n,
{
    if 0 < n <= items.len() {
        lemma_enum_items_well_formed(items, table, n - 1);
        match (enum_items(items, table, n - 1), enum_items(items, table, n)) {
            (Ok(before), Ok(after)) => {
                match items[n - 1] {
                    YamlValue::String(_) => {
                        assert forall|j: int| 0 <= j < after.len() implies well_formed(
                            (#[trigger] after[j]).1,
                        ) by {
                            if j < before.len() {
                                assert(after[j] == before[j]);
                            }
                        }
                    },
                    YamlValue::Hash(entries) => {
                        lemma_enum_entries_well_formed(entries, before, entries.len() as int);
                    },
                    _ => {},
                }
            },
            _ => {},
        }
    }
}

proof fn lemma_sections_well_formed(entries: Seq<(YamlValue, YamlValue)>, g: Grammar, n: int)
    requires
        grammar_well_formed(g),
    ensures
        sections(entries, g, n) matches Ok(h) ==> grammar_well_formed(h),
    decreases n,
{
    if 0 < n <= entries.len() {
        lemma_sections_well_formed(entries, g, n - 1);
        match (sections(entries, g, n - 1), sections(entries, g, n)) {
            (Ok(before), Ok(after)) => {
                match (entries[n - 1].0, entries[n - 1].1) {
                    (YamlValue::String(section), YamlValue::Array(items)) => {
                        match enum_type_of(section) {
                            Some(ty) => {
                                lemma_enum_items_well_formed(
                                    items,
                                    Seq::empty(),
                                    items.len() as int,
                                );
                                let table = enum_items(
                                    items,
                                    Seq::empty(),
                                    items.len() as int,
                                )->Ok_0;
                                assert forall|i: int, j: int|
                                    0 <= i < after.enums.len() && 0 <= j
                                        < after.enums[i].1.len() implies well_formed(
                                    (#[trigger] after.enums[i].1[j]).1,
                                ) by {
                                    if i < before.enums.len() {
                                        assert(after.enums[i] == before.enums[i]);
                                    } else {
                                        assert(after.enums[i].1 == table);
                                    }
                                }
                            },
                            None => {
                                assert(phrases_well_formed(before.phrases));
                                lemma_phrase_items_well_formed(
                                    section,
                                    items,
                                    before.phrases,
                                    items.len() as int,
                                );
                            },
                        }
                    },
                    _ => {},
                }
            },
            _ => {},
        }
    }
}

/// A grammar that is loaded from a document is well formed.
pub proof fn lemma_loaded_grammar_well_formed(doc: YamlValue)
    ensures
        grammar_of(doc) matches Ok(g) ==> grammar_well_formed(g),
{
    match doc {
        YamlValue::Hash(entries) => {
            lemma_sections_well_formed(
                entries,
                Grammar { phrases: Seq::empty(), enums: Seq::empty() },
                entries.len() as int,
            );
        },
        _ => {},
    }
}

/// The fields of a file resource are well formed where the values of the
/// document are.
pub proof fn lemma_assembled_well_formed(children: Seq<Field>, values: Seq<Value>, n: int)
    requires
        forall|i: int| 0 <= i < values.len() ==> well_formed(#[trigger] values[i]),
    ensures
        assembled(children, values, n) matches Ok(a) ==> entries_well_formed(a.fields)
            && forall|i: int| 0 <= i < a.unused.len() ==> well_formed(#[trigger] a.unused[i]),
    decreases n,
{
    if 0 < n <= children.len() {
        lemma_assembled_well_formed(children, values, n - 1);
        match (assembled(children, values, n - 1), assembled(children, values, n)) {
            (Ok(before), Ok(after)) => {
                let f = children[n - 1];
                if f.is_array {
                    lemma_sorted_out_well_formed(before.unused, f.ty, true, before.unused.len() as int);
                    lemma_sorted_out_well_formed(
                        before.unused,
                        f.ty,
                        false,
                        before.unused.len() as int,
                    );
                    let taken = sorted_out(before.unused, f.ty, true, before.unused.len() as int);
                    if taken.len() > 0 {
                        lemma_upsert_well_formed(before.fields, f.name, Value::Array(taken));
                    } else {
                        let none = Value::Array(Seq::empty());
                        assert(well_formed(none));
                        lemma_upsert_well_formed(before.fields, f.name, none);
                    }
                } else {
                    let at = first_of_type(before.unused, f.ty, 0);
                    lemma_first_of_type_bounds(before.unused, f.ty, 0);
                    if at < before.unused.len() {
                        lemma_upsert_well_formed(before.fields, f.name, before.unused[at]);
                        assert forall|i: int| 0 <= i < after.unused.len() implies well_formed(
                            #[trigger] after.unused[i],
                        ) by {
                            if i < at {
                                assert(after.unused[i] == before.unused[i]);
                            } else {
                                assert(after.unused[i] == before.unused[i + 1]);
                            }
                        }
                    } else {
                        lemma_upsert_well_formed(before.fields, f.name, Value::Nil);
                    }
                }
            },
            _ => {},
        }
    }
}

proof fn lemma_first_of_type_bounds(values: Seq<Value>, ty: Seq<char>, from: int)
    requires
        0 <= from <= values.len(),
    ensures
        from <= first_of_type(values, ty, from) <= values.len(),
    decreases values.len() - from,
{
    if from < values.len() && !value_matches(values[from], ty) {
        lemma_first_of_type_bounds(values, ty, from + 1);
    }
}

proof fn lemma_sorted_out_well_formed(values: Seq<Value>, ty: Seq<char>, wanted: bool, n: int)
    requires
        forall|i: int| 0 <= i < values.len() ==> well_formed(#[trigger] values[i]),
    ensures
        forall|i: int|
            0 <= i < sorted_out(values, ty, wanted, n).len() ==> well_formed(
                #[trigger] sorted_out(values, ty, wanted, n)[i],
            ),
    decreases n,
{
    if 0 < n <= values.len() {
        lemma_sorted_out_well_formed(values, ty, wanted, n - 1);
        let before = sorted_out(values, ty, wanted, n - 1);
        let after = sorted_out(values, ty, wanted, n);
        assert forall|i: int| 0 <= i < after.len() implies well_formed(#[trigger] after[i]) by {
            if i < before.len() {
                assert(after[i] == before[i]);
            } else {
                assert(after[i] == values[n - 1]);
            }
        }
    }
}

/// Whether a state may follow another: an unresolved node may become
/// anything; readings stay or are replaced by a resolution; a resolution
/// stays a resolution and an error an error.
pub open spec fn moves_forward(before: State, after: State) -> bool {
    match before {
        State::Unresolved => true,
        State::Hypothesis(_) => after is Hypothesis || after is Resolved,
        State::Resolved(_) => after is Resolved,
        State::Error(_) => after is Error,
    }
}

/// Resolving never takes a node back: only an unresolved node changes its
/// state.
pub proof fn lemma_resolving_moves_forward(
    g: Grammar,
    node: NodeView,
    front: Seq<(Seq<char>, Value)>,
    depth: nat,
)
    ensures
        moves_forward(node.state, resolved(g, node, front, depth).state),
        !(node.state is Unresolved) ==> resolved(g, node, front, depth) == node,
{
}

/// Dispatching never takes a node back: only an unresolved node changes
/// its state.
pub proof fn lemma_dispatching_moves_forward(
    rules: Seq<Rule>,
    node: NodeView,
    front: Seq<(Seq<char>, Value)>,
    parent: Option<Seq<char>>,
    depth: nat,
)
    ensures
        moves_forward(node.state, dispatched(rules, node, front, parent, depth).state),
        !(node.state is Unresolved) ==> dispatched(rules, node, front, parent, depth).state
            == node.state,
{
}

/// Validating never takes a node back: readings are kept or promoted, a
/// resolution stays a resolution, and an unresolved node or an error stays
/// as it is.
pub proof fn lemma_validating_moves_forward(node: NodeView)
    ensures
        moves_forward(node.state, validated(node).0.state),
        node.state is Unresolved ==> validated(node).0.state is Unresolved,
{
}

} // verus!
