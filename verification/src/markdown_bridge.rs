//! Markdown trees as values of the library, and the parser of the
//! `markdown` crate behind a contract that is taken on trust.

use crate::base_parser::Position;
use markdown::mdast::Node;
use vstd::prelude::*;

verus! {

/// `markdown::mdast::Node`, the node of the markdown crate that is copied
/// into a [`MdNode`].
#[verifier::external_type_specification]
#[verifier::external_body]
pub struct ExMarkdownNode(Node);

/// The kinds of markdown nodes that the statements of a document are made
/// of; every other kind is `Other`.
#[derive(Debug, Clone, Copy, PartialEq, Eq, Structural)]
pub enum MdKind {
    Paragraph,
    Heading,
    Code,
    InlineCode,
    List,
    ListItem,
    Other,
}

/// A node of the markdown tree: its kind, the text of a code node, the
/// language of a fenced code block, its place in the source where it has
/// one, and the nodes under it.
#[derive(Debug, PartialEq)]
pub struct MdNode {
    pub kind: MdKind,
    pub value: String,
    pub lang: Option<String>,
    pub position: Option<Position>,
    pub children: Vec<MdNode>,
}

/// A [`MdNode`] as plain values.
pub struct MdTree {
    pub kind: MdKind,
    pub value: Seq<char>,
    pub lang: Option<Seq<char>>,
    pub position: Option<Position>,
    pub children: Seq<MdTree>,
}

/// The tree that `n` stands for.
pub open spec fn md_tree_of(n: MdNode) -> MdTree
    decreases n,
{
    MdTree {
        kind: n.kind,
        value: n.value@,
        lang: match n.lang {
            Some(l) => Some(l@),
            None => None,
        },
        position: n.position,
        children: Seq::new(
            n.children.len() as nat,
            |i: int|
                if 0 <= i < n.children.len() {
                    md_tree_of(n.children[i])
                } else {
                    arbitrary()
                },
        ),
    }
}

impl View for MdNode {
    type V = MdTree;

    open spec fn view(&self) -> MdTree {
        md_tree_of(*self)
    }
}

/// The nodes of a list as plain values.
pub open spec fn md_view(nodes: Seq<MdNode>) -> Seq<MdTree> {
    Seq::new(nodes.len(), |i: int| nodes[i]@)
}

/// How the view of a node reads through its children.
pub proof fn lemma_md_view(n: MdNode)
    ensures
        n@.children == md_view(n.children@),
        n@.kind == n.kind,
        n@.value == n.value@,
        n@.position == n.position,
        n@.lang == n.lang.deep_view(),
{
    assert(n@.children =~= md_view(n.children@));
}

/// The tree that the markdown crate reads out of `text` with its default
/// options, or `None` where it reports an error: what `to_mdast` yields.
/// The place of a node is the range of its byte offsets.
pub uninterp spec fn markdown_tree(text: Seq<char>) -> Option<MdTree>;

/// The kind of a node of the markdown crate.
#[verifier::external_body]
fn md_kind(n: &Node) -> MdKind {
    match n {
        Node::Paragraph(_) => MdKind::Paragraph,
        Node::Heading(_) => MdKind::Heading,
        Node::Code(_) => MdKind::Code,
        Node::InlineCode(_) => MdKind::InlineCode,
        Node::List(_) => MdKind::List,
        Node::ListItem(_) => MdKind::ListItem,
        _ => MdKind::Other,
    }
}

/// Copies a node of the markdown crate into a [`MdNode`]: its kind, the
/// text and language of a code node, the byte offsets of its position and
/// its children. [`parse_markdown`] applies it to the root.
#[verifier::external_body]
fn md_node(n: &Node) -> MdNode {
    let (value, lang) = match n {
        Node::Code(c) => (c.value.clone(), c.lang.clone()),
        Node::InlineCode(c) => (c.value.clone(), None),
        _ => (String::new(), None),
    };
    let position = n.position().map(|p| Position { start: p.start.offset, end: p.end.offset });
    let children = n.children().map(|c| c.iter().map(md_node).collect()).unwrap_or_default();
    MdNode { kind: md_kind(n), value, lang, position, children }
}

/// `markdown::to_mdast` with the default options.
#[verifier::external_body]
pub(crate) fn parse_markdown(text: &str) -> (r: Option<MdNode>)
    ensures
        match r {
            Some(root) => markdown_tree(text@) == Some(root@),
            None => markdown_tree(text@) is None,
        },
{
    markdown::to_mdast(text, &markdown::ParseOptions::default()).ok().map(|n| md_node(&n))
}

} // verus!
