//! The table of rules: which grammar resolves a node, by priority and by
//! the type of the node's parent.

use crate::parsers::errors::{ParseFailure, SentenceParseError};
use crate::parsers::grammar::grammar_of_source;
use crate::parsers::sentence::{
    Grammar, MAX_DEPTH, SentenceParser, chains_end_within, is_fresh,
    lemma_matched_constituents_are_fresh, matched,
};
use crate::semantic::{
    DokeNode, DokeNodeState, GodotValue, NodeView, State, Value, fields_view, find_field,
    lemma_node_view, lookup, named_nodes_view, nodes_view, set_field, upsert,
};
use crate::text::{
    chars_of, contains_text, ends_with, extend_chars, has_subtext, has_suffix, holds_name,
    same_text, string_of, strings_view,
};
use crate::yaml::{
    YamlNode, YamlValue, find_yaml_key, lemma_yaml_view, load_documents, scan_error_text,
    yaml_documents, yaml_entries_view, yaml_key_index, yaml_nodes_view,
};
use std::path::Path;
use vstd::prelude::*;

verus! {

/// What can go wrong while the rules are loaded.
#[derive(Debug, PartialEq)]
pub enum TypedSentencesError {
    /// The configuration is no valid YAML; the text is the loader's.
    YamlParseError(String),
    /// A rule is malformed, or its grammar could not be loaded.
    InvalidRule(String),
    /// No rule has a grammar for the node.
    NoMatchingParser,
    /// The files of a grammar could not be found or read.
    FileError(String),
    /// The pattern that names the files of a grammar is malformed.
    GlobError(String),
}

/// Where the grammar of a rule is kept: a file pattern and the directory
/// that it is relative to.
#[derive(Debug, PartialEq)]
pub struct ParserReference {
    pub pattern: String,
    pub base_dir: String,
}

/// Under which parents a rule applies: the types are listed plainly, or
/// grouped under the name of the field that takes them.
#[derive(Debug, PartialEq)]
pub enum ChildSpec {
    Simple(Vec<String>),
    Structured(Vec<(String, Vec<String>)>),
}

/// A [`ChildSpec`] as plain values.
pub enum Children {
    Simple(Seq<Seq<char>>),
    Structured(Seq<(Seq<char>, Seq<Seq<char>>)>),
}

/// The groups of a list as plain values.
pub open spec fn groups_view(groups: Seq<(String, Vec<String>)>) -> Seq<(Seq<char>, Seq<Seq<char>>)> {
    Seq::new(groups.len(), |i: int| (groups[i].0@, strings_view(groups[i].1@)))
}

impl View for ChildSpec {
    type V = Children;

    open spec fn view(&self) -> Children {
        match self {
            ChildSpec::Simple(items) => Children::Simple(strings_view(items@)),
            ChildSpec::Structured(groups) => Children::Structured(groups_view(groups@)),
        }
    }
}

/// Whether one of the groups names the type `parent`.
pub open spec fn in_some_group(groups: Seq<(Seq<char>, Seq<Seq<char>>)>, parent: Seq<char>) -> bool {
    exists|i: int| 0 <= i < groups.len() && (#[trigger] groups[i]).1.contains(parent)
}

/// Whether the child spec names the type `parent`, in its list or in
/// one of its groups.
pub open spec fn allows(children: Children, parent: Seq<char>) -> bool {
    match children {
        Children::Simple(items) => items.contains(parent),
        Children::Structured(groups) => in_some_group(groups, parent),
    }
}

impl ChildSpec {
    /// Whether a node whose parent is of the given type may be tried with
    /// the rule that carries this child spec, as [`allows`] says.
    pub fn allowed(&self, child_abstract_type: &str) -> (r: bool)
        ensures
            r == allows(self@, child_abstract_type@),
    {
        match self {
            ChildSpec::Simple(items) => holds_name(items, child_abstract_type),
            ChildSpec::Structured(groups) => {
                let mut i: usize = 0;
                while i < groups.len()
                    invariant
                        i <= groups.len(),
                        self@ == Children::Structured(groups_view(groups@)),
                        forall|k: int|
                            0 <= k < i ==> !(#[trigger] groups_view(groups@)[k]).1.contains(
                                child_abstract_type@,
                            ),
                    decreases groups.len() - i,
                {
                    if holds_name(&groups[i].1, child_abstract_type) {
                        assert(groups_view(groups@)[i as int].1.contains(child_abstract_type@));
                        return true;
                    }
                    i += 1;
                }
                false
            },
        }
    }
}

/// One rule of the table: the type that it resolves nodes to, where its
/// grammar is kept, its priority, under which parents it applies, and its
/// grammar.
#[derive(Debug, PartialEq)]
pub struct TypeRule {
    pub target_type: String,
    pub parser_ref: ParserReference,
    pub priority: i32,
    pub children: ChildSpec,
    pub sentence_parser: SentenceParser,
}

/// A [`TypeRule`] as plain values.
pub struct Rule {
    pub target_type: Seq<char>,
    pub pattern: Seq<char>,
    pub base_dir: Seq<char>,
    pub priority: int,
    pub children: Children,
    pub grammar: Grammar,
}

impl View for TypeRule {
    type V = Rule;

    open spec fn view(&self) -> Rule {
        Rule {
            target_type: self.target_type@,
            pattern: self.parser_ref.pattern@,
            base_dir: self.parser_ref.base_dir@,
            priority: self.priority as int,
            children: self.children@,
            grammar: self.sentence_parser@,
        }
    }
}

/// The rules of a list as plain values.
pub open spec fn rules_view(rules: Seq<TypeRule>) -> Seq<Rule> {
    Seq::new(rules.len(), |i: int| rules[i]@)
}

/// The table of rules by which the nodes of a tree are resolved. The
/// rules stand in the order of dispatch: the rule of the highest priority
/// first.
#[derive(Debug, PartialEq)]
pub struct TypedSentencesParser {
    rules: Vec<TypeRule>,
}

impl View for TypedSentencesParser {
    type V = Seq<Rule>;

    closed spec fn view(&self) -> Seq<Rule> {
        rules_view(self.rules@)
    }
}

/// Whether the rules stand in the order of dispatch: no rule stands
/// behind one of a lower priority.
pub open spec fn in_dispatch_order(rules: Seq<Rule>) -> bool {
    forall|i: int, j: int|
        0 <= i < j < rules.len() ==> (#[trigger] rules[i]).priority >= (
        #[trigger] rules[j]).priority
}

/// Whether a rule may be tried for a node with the given parent type: any
/// rule for a root, else one whose child spec names the parent's type.
pub open spec fn eligible(rule: Rule, parent: Option<Seq<char>>) -> bool {
    match parent {
        None => true,
        Some(p) => allows(rule.children, p),
    }
}

/// The name under which a node carries the type of the rule that
/// resolved it.
pub open spec fn type_key() -> Seq<char> {
    "abstract_type"@
}

/// The type of the rule that resolved a node, where its side data names
/// one.
pub open spec fn abstract_type(parse_data: Seq<(Seq<char>, Value)>) -> Option<Seq<char>> {
    match lookup(parse_data, type_key()) {
        Some(Value::String(t)) => Some(t),
        _ => None,
    }
}

/// The node after the rule has resolved it, or `None` where the rule's
/// grammar does not resolve it. A node that a rule resolved carries the
/// rule's type in its side data.
pub open spec fn tried(rule: Rule, node: NodeView, front: Seq<(Seq<char>, Value)>) -> Option<NodeView> {
    let m = matched(rule.grammar, node, front);
    if m.state is Resolved {
        Some(NodeView { parse_data: upsert(m.parse_data, type_key(), Value::String(rule.target_type)), ..m })
    } else {
        None
    }
}

/// The node as the first rule from index `from` on resolves it, or `None`
/// where none does. With `scoped`, only rules that are eligible under the
/// parent are tried.
pub open spec fn first_success(
    rules: Seq<Rule>,
    node: NodeView,
    front: Seq<(Seq<char>, Value)>,
    parent: Option<Seq<char>>,
    scoped: bool,
    from: int,
) -> Option<NodeView>
    decreases rules.len() - from,
{
    if from < 0 || from >= rules.len() {
        None
    } else if (!scoped || eligible(rules[from], parent)) && tried(rules[from], node, front)
        is Some {
        tried(rules[from], node, front)
    } else {
        first_success(rules, node, front, parent, scoped, from + 1)
    }
}

/// An unresolved node after the rules have been tried on it: first those
/// that are eligible under the parent, in the order of the table; then,
/// where none of them resolves it, all of them. Where no rule resolves
/// it, the node stays as it is.
pub open spec fn dispatch_one(
    rules: Seq<Rule>,
    node: NodeView,
    front: Seq<(Seq<char>, Value)>,
    parent: Option<Seq<char>>,
) -> NodeView {
    match first_success(rules, node, front, parent, true, 0) {
        Some(n) => n,
        None => match first_success(rules, node, front, parent, false, 0) {
            Some(n) => n,
            None => node,
        },
    }
}

/// The type under which the children and constituents of a node are
/// resolved: that of the rule that resolved the node, if one did.
pub open spec fn context_of(node: NodeView) -> Option<Seq<char>> {
    if node.state is Resolved {
        abstract_type(node.parse_data)
    } else {
        None
    }
}

/// A tree after the rules have been applied to it, `depth` levels below
/// its root, under a parent of the given type.
///
/// Beyond [`MAX_DEPTH`] an unresolved node ends in the error state and
/// nothing below it is looked at. Else an unresolved node is dispatched,
/// and every child and every constituent is resolved one level deeper,
/// under the type that the node was resolved to.
pub open spec fn dispatched(
    rules: Seq<Rule>,
    node: NodeView,
    front: Seq<(Seq<char>, Value)>,
    parent: Option<Seq<char>>,
    depth: nat,
) -> NodeView
    decreases MAX_DEPTH + 1 - depth,
{
    if depth > MAX_DEPTH {
        if node.state is Unresolved {
            NodeView {
                state: State::Error(ParseFailure::MaxRecursionDepthExceeded(node.statement)),
                ..node
            }
        } else {
            node
        }
    } else {
        let here = if node.state is Unresolved {
            dispatch_one(rules, node, front, parent)
        } else {
            node
        };
        NodeView {
            children: Seq::new(
                here.children.len(),
                |i: int| dispatched(rules, here.children[i], front, context_of(here), depth + 1),
            ),
            constituents: Seq::new(
                here.constituents.len(),
                |i: int|
                    (
                        here.constituents[i].0,
                        dispatched(rules, here.constituents[i].1, front, context_of(here), depth + 1),
                    ),
            ),
            ..here
        }
    }
}

/// Executable form of [`abstract_type`].
pub fn read_abstract_type(parse_data: &Vec<(String, GodotValue)>) -> (r: Option<String>)
    ensures
        r.deep_view() == abstract_type(fields_view(parse_data@)),
{
    let i = find_field(parse_data, "abstract_type");
    if i < parse_data.len() {
        match &parse_data[i].1 {
            GodotValue::String(t) => Some(t.clone()),
            _ => None,
        }
    } else {
        None
    }
}

impl TypedSentencesParser {
    /// Whether a rule may be tried under the given parent, as [`eligible`]
    /// says.
    pub fn rule_matches_parent(&self, rule: &TypeRule, parent_abstract_type: &Option<String>) -> (r:
        bool)
        ensures
            r == eligible(rule@, parent_abstract_type.deep_view()),
    {
        match parent_abstract_type {
            None => true,
            Some(parent_type) => rule.children.allowed(parent_type.as_str()),
        }
    }

    /// Tries one rule on a node, as [`tried`] says: the node is resolved
    /// and carries the rule's type, or it is left as it was.
    pub fn try_process_with_rule(
        &self,
        node: &mut DokeNode,
        frontmatter: &Vec<(String, GodotValue)>,
        rule: &TypeRule,
    ) -> (r: bool)
        ensures
            match tried(rule@, old(node)@, fields_view(frontmatter@)) {
                Some(n) => r && final(node)@ == n,
                None => !r && final(node)@ == old(node)@,
            },
    {
        proof {
            lemma_node_view(*node);
        }
        let was_unresolved = match &node.state {
            DokeNodeState::Unresolved => true,
            _ => false,
        };
        rule.sentence_parser.match_node(node, frontmatter);
        proof {
            lemma_node_view(*node);
        }
        let resolved = match &node.state {
            DokeNodeState::Resolved(_) => true,
            _ => false,
        };
        if resolved {
            set_field(
                &mut node.parse_data,
                String::from_str("abstract_type"),
                GodotValue::String(rule.target_type.clone()),
            );
            proof {
                lemma_node_view(*node);
            }
            true
        } else {
            if was_unresolved {
                node.state = DokeNodeState::Unresolved;
            }
            proof {
                lemma_node_view(*node);
            }
            false
        }
    }

    /// Tries the rules from the first on, as [`first_success`] says.
    fn try_rules(
        &self,
        node: &mut DokeNode,
        frontmatter: &Vec<(String, GodotValue)>,
        parent: &Option<String>,
        scoped: bool,
    ) -> (r: bool)
        ensures
            match first_success(
                self@,
                old(node)@,
                fields_view(frontmatter@),
                parent.deep_view(),
                scoped,
                0,
            ) {
                Some(n) => r && final(node)@ == n,
                None => !r && final(node)@ == old(node)@,
            },
    {
        let mut i: usize = 0;
        while i < self.rules.len()
            invariant
                i <= self.rules.len(),
                node@ == old(node)@,
                first_success(
                    self@,
                    old(node)@,
                    fields_view(frontmatter@),
                    parent.deep_view(),
                    scoped,
                    0,
                ) == first_success(
                    self@,
                    old(node)@,
                    fields_view(frontmatter@),
                    parent.deep_view(),
                    scoped,
                    i as int,
                ),
            decreases self.rules.len() - i,
        {
            let rule = &self.rules[i];
            assert(self@[i as int] == rule@);
            if !scoped || self.rule_matches_parent(rule, parent) {
                if self.try_process_with_rule(node, frontmatter, rule) {
                    return true;
                }
            }
            i += 1;
        }
        false
    }

    /// Applies the rules to a tree, as [`dispatched`] says.
    pub fn process_node_recursive(
        &self,
        node: &mut DokeNode,
        frontmatter: &Vec<(String, GodotValue)>,
        parent_abstract_type: &Option<String>,
        depth: usize,
    )
        ensures
            final(node)@ == dispatched(
                self@,
                old(node)@,
                fields_view(frontmatter@),
                parent_abstract_type.deep_view(),
                depth as nat,
            ),
        decreases MAX_DEPTH + 1 - depth,
    {
        proof {
            lemma_node_view(*node);
        }
        let unresolved = match &node.state {
            DokeNodeState::Unresolved => true,
            _ => false,
        };
        if depth > MAX_DEPTH {
            if unresolved {
                node.state = DokeNodeState::Error(
                    SentenceParseError::MaxRecursionDepthExceeded(node.statement.clone()),
                );
                proof {
                    lemma_node_view(*node);
                }
            }
            return ;
        }
        if unresolved {
            if !self.try_rules(node, frontmatter, parent_abstract_type, true) {
                let _ = self.try_rules(node, frontmatter, parent_abstract_type, false);
            }
        }
        let ghost here = node@;
        proof {
            lemma_node_view(*node);
        }
        let resolved = match &node.state {
            DokeNodeState::Resolved(_) => true,
            _ => false,
        };
        let current = if resolved {
            read_abstract_type(&node.parse_data)
        } else {
            None
        };
        let mut i: usize = 0;
        while i < node.children.len()
            invariant
                i <= node.children.len(),
                depth <= MAX_DEPTH,
                node.children.len() == here.children.len(),
                node.statement@ == here.statement,
                node.state@ == here.state,
                fields_view(node.parse_data@) == here.parse_data,
                named_nodes_view(node.constituents@) == here.constituents,
                node.span == here.span,
                current.deep_view() == context_of(here),
                forall|k: int|
                    0 <= k < i ==> #[trigger] nodes_view(node.children@)[k] == dispatched(
                        self@,
                        here.children[k],
                        fields_view(frontmatter@),
                        context_of(here),
                        (depth + 1) as nat,
                    ),
                forall|k: int|
                    i <= k < here.children.len() ==> #[trigger] nodes_view(node.children@)[k]
                        == here.children[k],
            decreases node.children.len() - i,
        {
            let ghost before = node.children@;
            let ghost seen = nodes_view(node.children@);
            assert(seen[i as int] == here.children[i as int]);
            let mut child = node.children.remove(i);
            self.process_node_recursive(&mut child, frontmatter, &current, depth + 1);
            node.children.insert(i, child);
            proof {
                assert(node.children@ =~= before.update(i as int, child));
                let after = nodes_view(node.children@);
                assert(after[i as int] == child@);
                assert forall|k: int| 0 <= k < here.children.len() && k != i implies after[k]
                    == seen[k] by {}
            }
            i += 1;
        }
        let mut j: usize = 0;
        while j < node.constituents.len()
            invariant
                j <= node.constituents.len(),
                depth <= MAX_DEPTH,
                node.constituents.len() == here.constituents.len(),
                node.statement@ == here.statement,
                node.state@ == here.state,
                fields_view(node.parse_data@) == here.parse_data,
                node.span == here.span,
                current.deep_view() == context_of(here),
                node.children.len() == here.children.len(),
                forall|k: int|
                    0 <= k < here.children.len() ==> #[trigger] nodes_view(node.children@)[k]
                        == dispatched(
                        self@,
                        here.children[k],
                        fields_view(frontmatter@),
                        context_of(here),
                        (depth + 1) as nat,
                    ),
                forall|k: int|
                    0 <= k < j ==> #[trigger] named_nodes_view(node.constituents@)[k] == (
                        here.constituents[k].0,
                        dispatched(
                            self@,
                            here.constituents[k].1,
                            fields_view(frontmatter@),
                            context_of(here),
                            (depth + 1) as nat,
                        ),
                    ),
                forall|k: int|
                    j <= k < here.constituents.len() ==> #[trigger] named_nodes_view(
                        node.constituents@,
                    )[k] == here.constituents[k],
            decreases node.constituents.len() - j,
        {
            let ghost before = node.constituents@;
            let ghost seen = named_nodes_view(node.constituents@);
            assert(seen[j as int] == here.constituents[j as int]);
            let (name, mut child) = node.constituents.remove(j);
            self.process_node_recursive(&mut child, frontmatter, &current, depth + 1);
            node.constituents.insert(j, (name, child));
            proof {
                assert(node.constituents@ =~= before.update(j as int, (name, child)));
                let after = named_nodes_view(node.constituents@);
                assert(after[j as int] == (name@, child@));
                assert forall|k: int| 0 <= k < here.constituents.len() && k != j implies after[k]
                    == seen[k] by {}
            }
            j += 1;
        }
        proof {
            lemma_node_view(*node);
            let want = dispatched(
                self@,
                old(node)@,
                fields_view(frontmatter@),
                parent_abstract_type.deep_view(),
                depth as nat,
            );
            assert(node@.children =~= want.children);
            assert(node@.constituents =~= want.constituents);
        }
    }

    /// Applies the rules to a tree from its root.
    pub fn process(&self, node: &mut DokeNode, frontmatter: &Vec<(String, GodotValue)>)
        ensures
            final(node)@ == dispatched(self@, old(node)@, fields_view(frontmatter@), None, 0),
    {
        let parent: Option<String> = None;
        self.process_node_recursive(node, frontmatter, &parent, 0);
    }
}

/// The strings among the first `n` items, in order.
pub open spec fn strings_in(items: Seq<YamlValue>, n: int) -> Seq<Seq<char>>
    decreases n,
{
    if n <= 0 || n > items.len() {
        Seq::empty()
    } else {
        match items[n - 1] {
            YamlValue::String(s) => strings_in(items, n - 1).push(s),
            _ => strings_in(items, n - 1),
        }
    }
}

/// The groups among the first `n` entries of a mapping: each entry with a
/// string for its key and a sequence for its value, with the strings of
/// that sequence.
pub open spec fn groups_in(entries: Seq<(YamlValue, YamlValue)>, n: int) -> Seq<
    (Seq<char>, Seq<Seq<char>>),
>
    decreases n,
{
    if n <= 0 || n > entries.len() {
        Seq::empty()
    } else {
        match (entries[n - 1].0, entries[n - 1].1) {
            (YamlValue::String(name), YamlValue::Array(items)) => groups_in(entries, n - 1).push(
                (name, strings_in(items, items.len() as int)),
            ),
            _ => groups_in(entries, n - 1),
        }
    }
}

/// The child spec that a YAML node declares: a sequence lists the
/// types, a mapping groups them; anything else allows no parent.
pub open spec fn child_spec_of(y: YamlValue) -> Children {
    match y {
        YamlValue::Array(items) => Children::Simple(strings_in(items, items.len() as int)),
        YamlValue::Hash(entries) => Children::Structured(groups_in(entries, entries.len() as int)),
        _ => Children::Simple(Seq::empty()),
    }
}

/// The strings of a YAML sequence, as [`strings_in`] says.
pub fn read_strings(items: &Vec<YamlNode>) -> (r: Vec<String>)
    ensures
        strings_view(r@) == strings_in(yaml_nodes_view(items@), items.len() as int),
{
    let ghost all = yaml_nodes_view(items@);
    let mut out: Vec<String> = Vec::new();
    assert(strings_view(out@) =~= Seq::empty());
    let mut i: usize = 0;
    while i < items.len()
        invariant
            i <= items.len(),
            all == yaml_nodes_view(items@),
            strings_view(out@) == strings_in(all, i as int),
        decreases items.len() - i,
    {
        assert(all[i as int] == items@[i as int]@);
        match &items[i] {
            YamlNode::String(s) => {
                out.push(s.clone());
                assert(strings_view(out@) =~= strings_in(all, i as int).push(s@));
            },
            _ => {},
        }
        i += 1;
    }
    out
}

impl TypedSentencesParser {
    /// Reads the child spec of a rule, as
    /// [`child_spec_of`] says.
    pub fn parse_child_spec(yaml: &YamlNode) -> (r: Result<ChildSpec, TypedSentencesError>)
        ensures
            r matches Ok(spec) && spec@ == child_spec_of(yaml@),
    {
        proof {
            lemma_yaml_view(*yaml);
        }
        match yaml {
            YamlNode::Array(items) => Ok(ChildSpec::Simple(read_strings(items))),
            YamlNode::Hash(entries) => {
                let ghost all = yaml_entries_view(entries@);
                let mut groups: Vec<(String, Vec<String>)> = Vec::new();
                assert(groups_view(groups@) =~= Seq::empty());
                let mut i: usize = 0;
                while i < entries.len()
                    invariant
                        i <= entries.len(),
                        all == yaml_entries_view(entries@),
                        groups_view(groups@) == groups_in(all, i as int),
                    decreases entries.len() - i,
                {
                    assert(all[i as int] == (entries@[i as int].0@, entries@[i as int].1@));
                    proof {
                        lemma_yaml_view(entries@[i as int].1);
                    }
                    match (&entries[i].0, &entries[i].1) {
                        (YamlNode::String(name), YamlNode::Array(items)) => {
                            let types = read_strings(items);
                            groups.push((name.clone(), types));
                            assert(groups_view(groups@) =~= groups_in(all, i as int).push(
                                (name@, strings_view(types@)),
                            ));
                        },
                        _ => {},
                    }
                    i += 1;
                }
                Ok(ChildSpec::Structured(groups))
            },
            _ => {
                let none: Vec<String> = Vec::new();
                assert(strings_view(none@) =~= Seq::empty());
                Ok(ChildSpec::Simple(none))
            },
        }
    }
}

/// What the entries of a rule have declared so far.
pub struct RuleDraft {
    pub target: Option<Seq<char>>,
    pub pattern: Option<Seq<char>>,
    pub priority: int,
    pub children: Children,
}

/// What the first `n` entries of a rule declare: `for` names the type,
/// `parser` the files of the grammar, `priority` the priority as a 32-bit
/// number, `children` the parents. An entry of another name or with a
/// value of another kind declares nothing; of two entries of one name the
/// later one counts.
pub open spec fn rule_fields(entries: Seq<(YamlValue, YamlValue)>, n: int) -> RuleDraft
    decreases n,
{
    if n <= 0 || n > entries.len() {
        RuleDraft {
            target: None,
            pattern: None,
            priority: 0,
            children: Children::Simple(Seq::empty()),
        }
    } else {
        let before = rule_fields(entries, n - 1);
        match entries[n - 1].0 {
            YamlValue::String(key) => if key == "for"@ {
                match entries[n - 1].1 {
                    YamlValue::String(t) => RuleDraft { target: Some(t), ..before },
                    _ => before,
                }
            } else if key == "parser"@ {
                match entries[n - 1].1 {
                    YamlValue::String(p) => RuleDraft { pattern: Some(p), ..before },
                    _ => before,
                }
            } else if key == "priority"@ {
                match entries[n - 1].1 {
                    YamlValue::Integer(i) => RuleDraft { priority: (i as i32) as int, ..before },
                    _ => before,
                }
            } else if key == "children"@ {
                RuleDraft { children: child_spec_of(entries[n - 1].1), ..before }
            } else {
                before
            },
            _ => before,
        }
    }
}

/// The grammar of a rule whose grammar has not been loaded.
pub open spec fn no_grammar() -> Grammar {
    Grammar { phrases: Seq::empty(), enums: Seq::empty() }
}

/// The rule that a mapping declares, without its grammar, or what is
/// missing: a rule needs a type and the files of its grammar.
pub open spec fn rule_of(entries: Seq<(YamlValue, YamlValue)>, base_dir: Seq<char>) -> Result<
    Rule,
    Seq<char>,
> {
    let draft = rule_fields(entries, entries.len() as int);
    match (draft.target, draft.pattern) {
        (None, _) => Err("Missing 'for' field"@),
        (Some(_), None) => Err("Missing 'parser' field"@),
        (Some(target), Some(pattern)) => Ok(
            Rule {
                target_type: target,
                pattern,
                base_dir,
                priority: draft.priority,
                children: draft.children,
                grammar: no_grammar(),
            },
        ),
    }
}

impl TypedSentencesParser {
    /// Reads one rule, as [`rule_of`] says.
    pub fn parse_rule(rule_hash: &Vec<(YamlNode, YamlNode)>, base_dir: &str) -> (r: Result<
        TypeRule,
        TypedSentencesError,
    >)
        ensures
            match rule_of(yaml_entries_view(rule_hash@), base_dir@) {
                Ok(rule) => r matches Ok(found) && found@ == rule,
                Err(m) => r matches Err(TypedSentencesError::InvalidRule(text)) && text@ == m,
            },
    {
        let ghost all = yaml_entries_view(rule_hash@);
        let mut target_type: Option<String> = None;
        let mut parser_pattern: Option<String> = None;
        let mut priority: i32 = 0;
        let none: Vec<String> = Vec::new();
        assert(strings_view(none@) =~= Seq::empty());
        let mut children = ChildSpec::Simple(none);
        let mut i: usize = 0;
        while i < rule_hash.len()
            invariant
                i <= rule_hash.len(),
                all == yaml_entries_view(rule_hash@),
                rule_fields(all, i as int) == (RuleDraft {
                    target: target_type.deep_view(),
                    pattern: parser_pattern.deep_view(),
                    priority: priority as int,
                    children: children@,
                }),
            decreases rule_hash.len() - i,
        {
            assert(all[i as int] == (rule_hash@[i as int].0@, rule_hash@[i as int].1@));
            match &rule_hash[i].0 {
                YamlNode::String(key) => {
                    if same_text(key.as_str(), "for") {
                        match &rule_hash[i].1 {
                            YamlNode::String(t) => {
                                target_type = Some(t.clone());
                            },
                            _ => {},
                        }
                    } else if same_text(key.as_str(), "parser") {
                        match &rule_hash[i].1 {
                            YamlNode::String(p) => {
                                parser_pattern = Some(p.clone());
                            },
                            _ => {},
                        }
                    } else if same_text(key.as_str(), "priority") {
                        match &rule_hash[i].1 {
                            YamlNode::Integer(prio) => {
                                priority = #[verifier::truncate]
                                (*prio as i32);
                            },
                            _ => {},
                        }
                    } else if same_text(key.as_str(), "children") {
                        match TypedSentencesParser::parse_child_spec(&rule_hash[i].1) {
                            Ok(spec) => {
                                children = spec;
                            },
                            Err(_) => {},
                        }
                    }
                },
                _ => {},
            }
            i += 1;
        }
        let target_type = match target_type {
            Some(t) => t,
            None => {
                return Err(
                    TypedSentencesError::InvalidRule(String::from_str("Missing 'for' field")),
                );
            },
        };
        let parser_pattern = match parser_pattern {
            Some(p) => p,
            None => {
                return Err(
                    TypedSentencesError::InvalidRule(String::from_str("Missing 'parser' field")),
                );
            },
        };
        let rule = TypeRule {
            target_type,
            parser_ref: ParserReference {
                pattern: parser_pattern,
                base_dir: String::from_str(base_dir),
            },
            priority,
            children,
            sentence_parser: SentenceParser { phrases: Vec::new(), type_patterns: Vec::new() },
        };
        assert(rule@.grammar.phrases =~= no_grammar().phrases);
        assert(rule@.grammar.enums =~= no_grammar().enums);
        Ok(rule)
    }
}

/// The rules that the first `n` items of a sequence declare, each without
/// its grammar: every mapping is a rule, anything else is passed over. The
/// first malformed rule refuses them all, with what it lacks.
pub open spec fn rules_in(items: Seq<YamlValue>, base_dir: Seq<char>, n: int) -> Result<
    Seq<Rule>,
    Seq<char>,
>
    decreases n,
{
    if n <= 0 || n > items.len() {
        Ok(Seq::empty())
    } else {
        match rules_in(items, base_dir, n - 1) {
            Err(m) => Err(m),
            Ok(rules) => match items[n - 1] {
                YamlValue::Hash(entries) => match rule_of(entries, base_dir) {
                    Ok(rule) => Ok(rules.push(rule)),
                    Err(m) => Err(m),
                },
                _ => Ok(rules),
            },
        }
    }
}

/// The rules that a document declares: those of the sequence under the
/// key `rules` of a mapping; none where the document has no such
/// sequence.
pub open spec fn rules_of_document(doc: YamlValue, base_dir: Seq<char>) -> Result<
    Seq<Rule>,
    Seq<char>,
> {
    match doc {
        YamlValue::Hash(root) => {
            let i = yaml_key_index(root, "rules"@, 0);
            if i < root.len() {
                match root[i].1 {
                    YamlValue::Array(items) => rules_in(items, base_dir, items.len() as int),
                    _ => Ok(Seq::empty()),
                }
            } else {
                Ok(Seq::empty())
            }
        },
        _ => Ok(Seq::empty()),
    }
}

proof fn lemma_rules_stay_refused(items: Seq<YamlValue>, base_dir: Seq<char>, k: int, n: int)
    requires
        0 <= k <= n <= items.len(),
    ensures
        rules_in(items, base_dir, k) is Err ==> rules_in(items, base_dir, n) == rules_in(
            items,
            base_dir,
            k,
        ),
    decreases n,
{
    if k < n {
        lemma_rules_stay_refused(items, base_dir, k, n - 1);
    }
}

impl TypedSentencesParser {
    /// Reads the rules that a document declares, as [`rules_of_document`]
    /// says; the grammars are loaded afterwards.
    pub fn rules_from_document(doc: &YamlNode, base_dir: &str) -> (r: Result<
        Vec<TypeRule>,
        TypedSentencesError,
    >)
        ensures
            match rules_of_document(doc@, base_dir@) {
                Ok(rules) => r matches Ok(found) && rules_view(found@) == rules,
                Err(m) => r matches Err(TypedSentencesError::InvalidRule(text)) && text@ == m,
            },
    {
        proof {
            lemma_yaml_view(*doc);
        }
        let mut rules: Vec<TypeRule> = Vec::new();
        assert(rules_view(rules@) =~= Seq::empty());
        let root = match doc {
            YamlNode::Hash(root) => root,
            _ => {
                return Ok(rules);
            },
        };
        let at = find_yaml_key(root, "rules");
        if at >= root.len() {
            return Ok(rules);
        }
        assert(yaml_entries_view(root@)[at as int] == (root@[at as int].0@, root@[at as int].1@));
        proof {
            lemma_yaml_view(root@[at as int].1);
        }
        let items = match &root[at].1 {
            YamlNode::Array(items) => items,
            _ => {
                return Ok(rules);
            },
        };
        let ghost all = yaml_nodes_view(items@);
        let mut i: usize = 0;
        while i < items.len()
            invariant
                i <= items.len(),
                all == yaml_nodes_view(items@),
                rules_of_document(doc@, base_dir@) == rules_in(all, base_dir@, items.len() as int),
                rules_in(all, base_dir@, i as int) == Ok::<Seq<Rule>, Seq<char>>(
                    rules_view(rules@),
                ),
            decreases items.len() - i,
        {
            assert(all[i as int] == items@[i as int]@);
            proof {
                lemma_yaml_view(items@[i as int]);
                lemma_rules_stay_refused(all, base_dir@, i + 1, items.len() as int);
            }
            match &items[i] {
                YamlNode::Hash(entries) => {
                    let rule = match TypedSentencesParser::parse_rule(entries, base_dir) {
                        Ok(rule) => rule,
                        Err(e) => {
                            return Err(e);
                        },
                    };
                    rules.push(rule);
                    assert(rules_view(rules@) =~= rules_in(all, base_dir@, i as int)->Ok_0.push(
                        rule@,
                    ));
                },
                _ => {},
            }
            i += 1;
        }
        Ok(rules)
    }

    /// Reads the rules that the first document of a YAML text declares.
    /// A text that is no YAML, or holds no document, is refused with
    /// `YamlParseError`; a malformed rule with `InvalidRule`.
    pub fn declared_rules(config: &str, base_dir: &str) -> (r: Result<
        Vec<TypeRule>,
        TypedSentencesError,
    >)
        ensures
            match yaml_documents(config@) {
                None => r matches Err(TypedSentencesError::YamlParseError(_)),
                Some(docs) => if docs.len() == 0 {
                    r matches Err(TypedSentencesError::YamlParseError(text)) && text@
                        == "Empty YAML"@
                } else {
                    match rules_of_document(docs[0], base_dir@) {
                        Ok(rules) => r matches Ok(found) && rules_view(found@) == rules,
                        Err(m) => r matches Err(TypedSentencesError::InvalidRule(text)) && text@
                            == m,
                    }
                },
            },
    {
        let docs = match load_documents(config) {
            Ok(docs) => docs,
            Err(e) => {
                return Err(TypedSentencesError::YamlParseError(scan_error_text(&e)));
            },
        };
        if docs.len() == 0 {
            return Err(TypedSentencesError::YamlParseError(String::from_str("Empty YAML")));
        }
        assert(yaml_nodes_view(docs@)[0] == docs@[0]@);
        TypedSentencesParser::rules_from_document(&docs[0], base_dir)
    }
}

/// The first `n` file contents one after the other, each followed by a
/// line that ends a YAML document.
pub open spec fn joined_sources(contents: Seq<Seq<char>>, n: int) -> Seq<char>
    decreases n,
{
    if n <= 0 || n > contents.len() {
        Seq::empty()
    } else {
        joined_sources(contents, n - 1) + contents[n - 1] + "\n---\n"@
    }
}

/// Joins the contents of the files of a grammar, as [`joined_sources`]
/// says.
pub fn join_sources(contents: &Vec<String>) -> (r: String)
    ensures
        r@ == joined_sources(strings_view(contents@), contents.len() as int),
{
    let ghost all = strings_view(contents@);
    let mut out: Vec<char> = Vec::new();
    let mut i: usize = 0;
    while i < contents.len()
        invariant
            i <= contents.len(),
            all == strings_view(contents@),
            out@ == joined_sources(all, i as int),
        decreases contents.len() - i,
    {
        assert(all[i as int] == contents@[i as int]@);
        let ghost before = out@;
        extend_chars(&mut out, &chars_of(contents[i].as_str()));
        extend_chars(&mut out, &chars_of("\n---\n"));
        assert(out@ =~= before + contents@[i as int]@ + "\n---\n"@);
        i += 1;
    }
    string_of(&out)
}

/// The extension of the file that a path names, if it has one: what
/// `Path::extension` yields, by the path rules of the platform that the
/// crate is built for.
pub uninterp spec fn extension_of(path: Seq<char>) -> Option<Seq<char>>;

/// The name, without its extension, of the file that a path names, if it
/// names one: what `Path::file_stem` yields, by the path rules of the
/// platform that the crate is built for.
pub uninterp spec fn file_stem_of(path: Seq<char>) -> Option<Seq<char>>;

/// `Path::extension` of the path that `path` spells.
#[verifier::external_body]
fn path_extension(path: &str) -> (r: Option<String>)
    ensures
        r.deep_view() == extension_of(path@),
{
    Path::new(path).extension().map(|e| e.to_string_lossy().into_owned())
}

/// `Path::file_stem` of the path that `path` spells.
#[verifier::external_body]
fn path_file_stem(path: &str) -> (r: Option<String>)
    ensures
        r.deep_view() == file_stem_of(path@),
{
    Path::new(path).file_stem().map(|e| e.to_string_lossy().into_owned())
}

/// Whether a file name without extension marks a grammar file: it holds
/// `doke` or ends in `Parser`.
pub open spec fn is_grammar_name(name: Seq<char>) -> bool {
    has_subtext(name, "dokedef"@) || has_subtext(name, "doke"@) || has_suffix(name, "Parser"@)
}

/// Whether a path names a grammar file: its extension is `yaml` or `yml`
/// and its name is a grammar name.
pub open spec fn is_grammar_path(path: Seq<char>) -> bool {
    match extension_of(path) {
        None => false,
        Some(ext) => (ext == "yaml"@ || ext == "yml"@) && match file_stem_of(path) {
            None => false,
            Some(name) => is_grammar_name(name),
        },
    }
}

/// Whether a file name without extension marks a grammar file, as
/// [`is_grammar_name`] says.
pub fn names_grammar(name: &str) -> (r: bool)
    ensures
        r == is_grammar_name(name@),
{
    let v = chars_of(name);
    contains_text(&v, "dokedef") || contains_text(&v, "doke") || ends_with(&v, "Parser")
}

/// Whether a path names a grammar file, as [`is_grammar_path`] says.
pub fn is_dokedef_file(path: &str) -> (r: bool)
    ensures
        r == is_grammar_path(path@),
{
    match path_extension(path) {
        None => false,
        Some(ext) => {
            if !same_text(ext.as_str(), "yaml") && !same_text(ext.as_str(), "yml") {
                return false;
            }
            match path_file_stem(path) {
                None => false,
                Some(name) => names_grammar(name.as_str()),
            }
        },
    }
}

/// Why the grammar of a rule could not be loaded.
pub enum LoadFailure {
    /// No file was found for the pattern.
    NoFiles(Seq<char>),
    /// The files hold no valid grammar.
    BadGrammar,
}

/// The grammar that the files of a rule declare, given their contents.
pub open spec fn grammar_of_files(pattern: Seq<char>, contents: Seq<Seq<char>>) -> Result<
    Grammar,
    LoadFailure,
> {
    if contents.len() == 0 {
        Err(LoadFailure::NoFiles(pattern))
    } else {
        match grammar_of_source(joined_sources(contents, contents.len() as int)) {
            Ok(g) => Ok(g),
            Err(_) => Err(LoadFailure::BadGrammar),
        }
    }
}

/// What is said when no file was found for the pattern.
pub open spec fn no_files_text(pattern: Seq<char>) -> Seq<char> {
    "No .dokedef.yaml files found for pattern: "@ + pattern
}

/// Whether the error `e` reports the failure `f`.
pub open spec fn reports(e: TypedSentencesError, f: LoadFailure) -> bool {
    match f {
        LoadFailure::NoFiles(pattern) => e matches TypedSentencesError::FileError(m) && m@
            == no_files_text(pattern),
        LoadFailure::BadGrammar => e is InvalidRule,
    }
}

/// The lists of strings of a list as plain values.
pub open spec fn sources_view(sources: Seq<Vec<String>>) -> Seq<Seq<Seq<char>>> {
    Seq::new(sources.len(), |i: int| strings_view(sources[i]@))
}

/// The first `n` rules, each with the grammar that its files declare; the
/// first grammar that cannot be loaded refuses them all.
pub open spec fn with_grammars(rules: Seq<Rule>, sources: Seq<Seq<Seq<char>>>, n: int) -> Result<
    Seq<Rule>,
    LoadFailure,
>
    decreases n,
{
    if n <= 0 || n > rules.len() || n > sources.len() {
        Ok(Seq::empty())
    } else {
        match with_grammars(rules, sources, n - 1) {
            Err(f) => Err(f),
            Ok(loaded) => match grammar_of_files(rules[n - 1].pattern, sources[n - 1]) {
                Ok(g) => Ok(loaded.push(Rule { grammar: g, ..rules[n - 1] })),
                Err(f) => Err(f),
            },
        }
    }
}

proof fn lemma_grammars_stay_refused(
    rules: Seq<Rule>,
    sources: Seq<Seq<Seq<char>>>,
    k: int,
    n: int,
)
    requires
        0 <= k <= n <= rules.len(),
        n <= sources.len(),
    ensures
        with_grammars(rules, sources, k) is Err ==> with_grammars(rules, sources, n)
            == with_grammars(rules, sources, k),
    decreases n,
{
    if k < n {
        lemma_grammars_stay_refused(rules, sources, k, n - 1);
    }
}

/// Where a rule of the given priority goes into a list that is in order:
/// in front of the first rule of a lower priority from `from` on, behind
/// every rule of the same priority.
pub open spec fn insertion_index(sorted: Seq<Rule>, priority: int, from: int) -> int
    decreases sorted.len() - from,
{
    if from < 0 || from >= sorted.len() || sorted[from].priority < priority {
        from
    } else {
        insertion_index(sorted, priority, from + 1)
    }
}

/// The first `n` rules in the order of dispatch: the higher priority
/// first, and rules of one priority in the order in which they were
/// declared.
pub open spec fn by_priority(rules: Seq<Rule>, n: int) -> Seq<Rule>
    decreases n,
{
    if n <= 0 || n > rules.len() {
        Seq::empty()
    } else {
        let sorted = by_priority(rules, n - 1);
        sorted.insert(insertion_index(sorted, rules[n - 1].priority, 0), rules[n - 1])
    }
}

/// Where [`insertion_index`] points: behind every rule of the priority or
/// a higher one, in front of a rule of a lower one.
proof fn lemma_insertion_index(sorted: Seq<Rule>, priority: int, from: int)
    requires
        0 <= from <= sorted.len(),
    ensures
        from <= insertion_index(sorted, priority, from) <= sorted.len(),
        forall|k: int|
            from <= k < insertion_index(sorted, priority, from) ==> (#[trigger] sorted[k]).priority
                >= priority,
        insertion_index(sorted, priority, from) < sorted.len() ==> sorted[insertion_index(
            sorted,
            priority,
            from,
        )].priority < priority,
    decreases sorted.len() - from,
{
    if from < sorted.len() && sorted[from].priority >= priority {
        lemma_insertion_index(sorted, priority, from + 1);
    }
}

/// The order of dispatch holds every rule once and never puts a rule
/// behind one of a lower priority.
pub proof fn lemma_by_priority_sorted(rules: Seq<Rule>, n: int)
    requires
        0 <= n <= rules.len(),
    ensures
        by_priority(rules, n).len() == n,
        forall|i: int, j: int|
            0 <= i < j < n ==> (#[trigger] by_priority(rules, n)[i]).priority >= (
            #[trigger] by_priority(rules, n)[j]).priority,
    decreases n,
{
    if n > 0 {
        lemma_by_priority_sorted(rules, n - 1);
        let sorted = by_priority(rules, n - 1);
        let p = rules[n - 1].priority;
        lemma_insertion_index(sorted, p, 0);
        let at = insertion_index(sorted, p, 0);
        let out = by_priority(rules, n);
        assert forall|i: int, j: int| 0 <= i < j < n implies (#[trigger] out[i]).priority >= (
        #[trigger] out[j]).priority by {
            if j < at {
                assert(out[i] == sorted[i] && out[j] == sorted[j]);
            } else if j == at {
                assert(out[i] == sorted[i]);
            } else if i < at {
                assert(out[i] == sorted[i] && out[j] == sorted[j - 1]);
                assert(sorted[at].priority >= sorted[j - 1].priority || at == j - 1);
            } else if i == at {
                assert(out[j] == sorted[j - 1]);
                assert(sorted[at].priority >= sorted[j - 1].priority || at == j - 1);
            } else {
                assert(out[i] == sorted[i - 1] && out[j] == sorted[j - 1]);
            }
        }
    }
}

/// Puts the rules in the order of dispatch, as [`by_priority`] says.
pub fn sort_by_priority(rules: Vec<TypeRule>) -> (r: Vec<TypeRule>)
    ensures
        rules_view(r@) == by_priority(rules_view(rules@), rules.len() as int),
{
    let ghost all = rules_view(rules@);
    let mut rest = rules;
    let mut out: Vec<TypeRule> = Vec::new();
    assert(rules_view(out@) =~= Seq::empty());
    let ghost mut done: int = 0;
    while rest.len() > 0
        invariant
            0 <= done <= all.len(),
            rest.len() == all.len() - done,
            forall|k: int| 0 <= k < rest.len() ==> (#[trigger] rest@[k])@ == all[done + k],
            rules_view(out@) == by_priority(all, done),
        decreases rest.len(),
    {
        let rule = rest.remove(0);
        assert(rule@ == all[done]);
        let ghost sorted = rules_view(out@);
        let mut at: usize = 0;
        while at < out.len() && out[at].priority >= rule.priority
            invariant
                at <= out.len(),
                sorted == rules_view(out@),
                insertion_index(sorted, rule.priority as int, 0) == insertion_index(
                    sorted,
                    rule.priority as int,
                    at as int,
                ),
            decreases out.len() - at,
        {
            assert(sorted[at as int] == out@[at as int]@);
            at += 1;
        }
        assert(at < out.len() ==> sorted[at as int] == out@[at as int]@);
        out.insert(at, rule);
        proof {
            assert(rules_view(out@) =~= sorted.insert(at as int, rule@));
            done = done + 1;
        }
    }
    out
}

impl TypedSentencesParser {
    /// Loads the grammar of a rule from the contents of its files, as
    /// [`grammar_of_files`] says. A rule without files is refused with
    /// `FileError`, files without a valid grammar with `InvalidRule`.
    pub fn load_parser_from_reference(parser_ref: &ParserReference, contents: &Vec<String>) -> (r:
        Result<SentenceParser, TypedSentencesError>)
        ensures
            match grammar_of_files(parser_ref.pattern@, strings_view(contents@)) {
                Ok(g) => r matches Ok(parser) && parser@ == g,
                Err(f) => r matches Err(e) && reports(e, f),
            },
    {
        if contents.len() == 0 {
            return Err(
                TypedSentencesError::FileError(
                    String::from_str("No .dokedef.yaml files found for pattern: ").concat(
                        parser_ref.pattern.as_str(),
                    ),
                ),
            );
        }
        let source = join_sources(contents);
        match SentenceParser::from_yaml(source.as_str()) {
            Ok(parser) => Ok(parser),
            Err(e) => Err(
                TypedSentencesError::InvalidRule(
                    String::from_str("Failed to parse YAML: ").concat(e.message().as_str()),
                ),
            ),
        }
    }

    /// Builds the table from the declared rules and, for each rule, the
    /// contents of the files of its grammar: every rule gets its grammar,
    /// as [`with_grammars`] says, and the rules are put in the order of
    /// dispatch, as [`by_priority`] says.
    pub fn from_rules(rules: Vec<TypeRule>, sources: &Vec<Vec<String>>) -> (r: Result<
        TypedSentencesParser,
        TypedSentencesError,
    >)
        ensures
            rules.len() != sources.len() ==> r matches Err(TypedSentencesError::InvalidRule(_)),
            rules.len() == sources.len() ==> match with_grammars(
                rules_view(rules@),
                sources_view(sources@),
                rules.len() as int,
            ) {
                Ok(loaded) => r matches Ok(table) && table@ == by_priority(
                    loaded,
                    loaded.len() as int,
                ),
                Err(f) => r matches Err(e) && reports(e, f),
            },
    {
        if rules.len() != sources.len() {
            return Err(
                TypedSentencesError::InvalidRule(
                    String::from_str("Every rule needs the files of its grammar"),
                ),
            );
        }
        let ghost all = rules_view(rules@);
        let ghost texts = sources_view(sources@);
        let mut rest = rules;
        let mut loaded: Vec<TypeRule> = Vec::new();
        assert(rules_view(loaded@) =~= Seq::empty());
        let mut i: usize = 0;
        while i < sources.len()
            invariant
                i <= sources.len(),
                all.len() == sources.len(),
                all == rules_view(rules@),
                rules.len() == sources.len(),
                texts == sources_view(sources@),
                rest.len() == all.len() - i,
                forall|k: int| 0 <= k < rest.len() ==> (#[trigger] rest@[k])@ == all[i + k],
                with_grammars(all, texts, i as int) == Ok::<Seq<Rule>, LoadFailure>(
                    rules_view(loaded@),
                ),
                loaded.len() == i,
            decreases sources.len() - i,
        {
            proof {
                lemma_grammars_stay_refused(all, texts, i + 1, all.len() as int);
            }
            let mut rule = rest.remove(0);
            assert(rule@ == all[i as int]);
            assert(texts[i as int] == strings_view(sources@[i as int]@));
            let parser = match TypedSentencesParser::load_parser_from_reference(
                &rule.parser_ref,
                &sources[i],
            ) {
                Ok(parser) => parser,
                Err(e) => {
                    return Err(e);
                },
            };
            rule.sentence_parser = parser;
            loaded.push(rule);
            assert(rules_view(loaded@) =~= with_grammars(all, texts, i as int)->Ok_0.push(rule@));
            i += 1;
        }
        Ok(TypedSentencesParser::new(loaded))
    }

    /// The table of the given rules, put in the order of dispatch as
    /// [`by_priority`] says.
    pub fn new(rules: Vec<TypeRule>) -> (r: Self)
        ensures
            r@ == by_priority(rules_view(rules@), rules.len() as int),
    {
        let sorted = sort_by_priority(rules);
        proof {
            lemma_by_priority_sorted(rules_view(rules@), rules.len() as int);
        }
        TypedSentencesParser { rules: sorted }
    }

    /// The rules of the table, which stand in the order of dispatch.
    pub fn rules(&self) -> (r: &Vec<TypeRule>)
        ensures
            rules_view(r@) == self@,
            in_dispatch_order(self@),
    {
        proof {
            use_type_invariant(self);
        }
        &self.rules
    }

    #[verifier::type_invariant]
    spec fn ordered(self) -> bool {
        in_dispatch_order(rules_view(self.rules@))
    }
}

/// Whatever rule resolves a node without constituents, it gives the node
/// only fresh constituents.
proof fn lemma_first_success_is_fresh(
    rules: Seq<Rule>,
    node: NodeView,
    front: Seq<(Seq<char>, Value)>,
    parent: Option<Seq<char>>,
    scoped: bool,
    from: int,
)
    requires
        node.constituents.len() == 0,
    ensures
        first_success(rules, node, front, parent, scoped, from) matches Some(found)
            ==> forall|i: int|
            0 <= i < found.constituents.len() ==> is_fresh((#[trigger] found.constituents[i]).1),
    decreases rules.len() - from,
{
    if 0 <= from < rules.len() {
        lemma_matched_constituents_are_fresh(rules[from].grammar, node, front);
        lemma_first_success_is_fresh(rules, node, front, parent, scoped, from + 1);
    }
}

/// The depth limit bounds every chain of constituents under dispatch too:
/// below a fresh node that is dispatched at `depth`, no chain of
/// constituents has more than `MAX_DEPTH + 1 - depth` steps, and a node
/// that stands so many steps below is in the error state and has no
/// constituent.
pub proof fn lemma_dispatched_chains_are_bounded(
    rules: Seq<Rule>,
    node: NodeView,
    front: Seq<(Seq<char>, Value)>,
    parent: Option<Seq<char>>,
    depth: nat,
)
    requires
        is_fresh(node),
        depth <= MAX_DEPTH + 1,
    ensures
        chains_end_within(
            dispatched(rules, node, front, parent, depth),
            (MAX_DEPTH + 1 - depth) as nat,
        ),
    decreases MAX_DEPTH + 1 - depth,
{
    if depth <= MAX_DEPTH {
        lemma_first_success_is_fresh(rules, node, front, parent, true, 0);
        lemma_first_success_is_fresh(rules, node, front, parent, false, 0);
        let here = dispatch_one(rules, node, front, parent);
        let out = dispatched(rules, node, front, parent, depth);
        assert forall|i: int| 0 <= i < out.constituents.len() implies chains_end_within(
            (#[trigger] out.constituents[i]).1,
            (MAX_DEPTH - depth) as nat,
        ) by {
            assert(is_fresh(here.constituents[i].1));
            lemma_dispatched_chains_are_bounded(
                rules,
                here.constituents[i].1,
                front,
                context_of(here),
                depth + 1,
            );
        }
    }
}

} // verus!
