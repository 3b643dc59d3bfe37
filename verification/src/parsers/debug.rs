//! Shows a tree of statements as text.

use crate::semantic::{
    DokeNode, DokeNodeState, NodeView, State, lemma_node_view, named_nodes_view, nodes_view,
};
use crate::text::{chars_of, extend_chars, string_of};
use vstd::prelude::*;

verus! {

/// Shows a tree for debugging: one line for every node, with a mark for
/// its state.
#[derive(Debug, PartialEq)]
pub struct DebugPrinter;

/// The mark of a state.
pub open spec fn state_mark(state: State) -> Seq<char> {
    match state {
        State::Unresolved => "❓"@,
        State::Hypothesis(_) => "💡"@,
        State::Resolved(_) => "✅"@,
        State::Error(_) => "❌"@,
    }
}

/// The lines that show a node and everything below it. The line of a
/// node holds the padding, the name of a constituent with a colon, the
/// mark of the state and the statement; what stands below a node is
/// padded by two more spaces, children first, then constituents.
pub open spec fn shown(node: NodeView, padding: Seq<char>, name: Seq<char>) -> Seq<char>
    decreases node, 0int,
{
    padding + (if name.len() > 0 {
        name + seq![':']
    } else {
        Seq::empty()
    }) + state_mark(node.state) + seq![' '] + node.statement + seq!['\n'] + shown_children(
        node.children,
        padding + "  "@,
        node.children.len() as int,
    ) + shown_constituents(node.constituents, padding + "  "@, node.constituents.len() as int)
}

/// The lines of the first `n` nodes of a list.
pub open spec fn shown_children(nodes: Seq<NodeView>, padding: Seq<char>, n: int) -> Seq<char>
    decreases nodes, n,
{
    if n <= 0 || n > nodes.len() {
        Seq::empty()
    } else {
        shown_children(nodes, padding, n - 1) + shown(nodes[n - 1], padding, Seq::empty())
    }
}

/// The lines of the first `n` named nodes of a list.
pub open spec fn shown_constituents(nodes: Seq<(Seq<char>, NodeView)>, padding: Seq<char>, n: int) -> Seq<
    char,
>
    decreases nodes, n,
{
    if n <= 0 || n > nodes.len() {
        Seq::empty()
    } else {
        shown_constituents(nodes, padding, n - 1) + shown(nodes[n - 1].1, padding, nodes[n - 1].0)
    }
}

impl DebugPrinter {
    /// The mark of a state, as [`state_mark`] says.
    pub fn state_emoji(state: &DokeNodeState) -> (r: &'static str)
        ensures
            r@ == state_mark(state@),
    {
        match state {
            DokeNodeState::Unresolved => "❓",
            DokeNodeState::Hypothesis(_) => "💡",
            DokeNodeState::Resolved(_) => "✅",
            DokeNodeState::Error(_) => "❌",
        }
    }

    /// Appends the lines of a node to `out`, as [`shown`] says.
    pub fn print_node(out: &mut Vec<char>, node: &DokeNode, padding: &Vec<char>, name: &str)
        ensures
            final(out)@ == old(out)@ + shown(node@, padding@, name@),
        decreases node, 0int,
    {
        proof {
            lemma_node_view(*node);
        }
        extend_chars(out, padding);
        let label = chars_of(name);
        if label.len() > 0 {
            extend_chars(out, &label);
            out.push(':');
        }
        extend_chars(out, &chars_of(DebugPrinter::state_emoji(&node.state)));
        out.push(' ');
        extend_chars(out, &chars_of(node.statement.as_str()));
        out.push('\n');
        let ghost head = out@;
        assert(head =~= old(out)@ + (padding@ + (if name@.len() > 0 {
            name@ + seq![':']
        } else {
            Seq::empty()
        }) + state_mark(node.state@) + seq![' '] + node.statement@ + seq!['\n']));
        let deeper = chars_of("  ");
        let mut inner: Vec<char> = Vec::new();
        extend_chars(&mut inner, padding);
        extend_chars(&mut inner, &deeper);
        assert(inner@ =~= padding@ + "  "@);
        DebugPrinter::print_children(out, &node.children, &inner);
        DebugPrinter::print_constituents(out, &node.constituents, &inner);
        assert(out@ =~= old(out)@ + shown(node@, padding@, name@));
    }

    /// Appends the lines of the nodes of a list.
    fn print_children(out: &mut Vec<char>, nodes: &Vec<DokeNode>, padding: &Vec<char>)
        ensures
            final(out)@ == old(out)@ + shown_children(
                nodes_view(nodes@),
                padding@,
                nodes.len() as int,
            ),
        decreases nodes, 1int,
    {
        let ghost all = nodes_view(nodes@);
        let mut i: usize = 0;
        while i < nodes.len()
            invariant
                i <= nodes.len(),
                all == nodes_view(nodes@),
                out@ == old(out)@ + shown_children(all, padding@, i as int),
            decreases nodes.len() - i,
        {
            assert(all[i as int] == nodes@[i as int]@);
            DebugPrinter::print_node(out, &nodes[i], padding, "");
            proof {
                reveal_strlit("");
                assert(""@ =~= Seq::<char>::empty());
                assert(out@ =~= old(out)@ + shown_children(all, padding@, i + 1));
            }
            i += 1;
        }
    }

    /// Appends the lines of the named nodes of a list.
    fn print_constituents(out: &mut Vec<char>, nodes: &Vec<(String, DokeNode)>, padding: &Vec<char>)
        ensures
            final(out)@ == old(out)@ + shown_constituents(
                named_nodes_view(nodes@),
                padding@,
                nodes.len() as int,
            ),
        decreases nodes, 1int,
    {
        let ghost all = named_nodes_view(nodes@);
        let mut i: usize = 0;
        while i < nodes.len()
            invariant
                i <= nodes.len(),
                all == named_nodes_view(nodes@),
                out@ == old(out)@ + shown_constituents(all, padding@, i as int),
            decreases nodes.len() - i,
        {
            assert(all[i as int] == (nodes@[i as int].0@, nodes@[i as int].1@));
            DebugPrinter::print_node(out, &nodes[i].1, padding, nodes[i].0.as_str());
            proof {
                assert(out@ =~= old(out)@ + shown_constituents(all, padding@, i + 1));
            }
            i += 1;
        }
    }

    /// The text that shows a tree, as [`shown`] says; the node is left as
    /// it is.
    pub fn process(&self, node: &DokeNode) -> (r: String)
        ensures
            r@ == shown(node@, Seq::empty(), Seq::empty()),
    {
        let mut out: Vec<char> = Vec::new();
        let padding: Vec<char> = Vec::new();
        proof {
            reveal_strlit("");
            assert(""@ =~= Seq::<char>::empty());
        }
        DebugPrinter::print_node(&mut out, node, &padding, "");
        assert(out@ =~= shown(node@, Seq::empty(), Seq::empty()));
        string_of(&out)
    }
}

} // verus!
