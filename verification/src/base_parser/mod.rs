//! From the markdown tree of a document to its statements.

use crate::markdown_bridge::{MdKind, MdNode, MdTree, lemma_md_view, md_view};
use crate::yaml::{YamlNode, load_documents, yaml_documents, yaml_nodes_view};
use vstd::prelude::*;

verus! {

/// What reading a document can report.
#[derive(Debug, PartialEq)]
pub enum DokeParseError {
    /// The front matter is no valid YAML.
    YamlParseError(String),
    /// The front matter cannot be used as it is.
    YamlConversionError(String),
    /// The markdown tree is not built as expected.
    InvalidNodeStructure(String),
    /// A node has no place in the source.
    MissingPositionData,
    /// A node of one kind stands where another was expected.
    UnexpectedNodeType { expected: String, actual: String },
    /// The document could not be read.
    IoError(String),
}

/// A range of byte offsets in the source text.
#[derive(Debug, Clone, Copy, PartialEq, Eq, Structural)]
pub struct Position {
    pub start: usize,
    pub end: usize,
}

/// The smallest range that holds both ranges.
pub open spec fn merged_span(a: Position, b: Position) -> Position {
    Position {
        start: if a.start <= b.start {
            a.start
        } else {
            b.start
        },
        end: if a.end >= b.end {
            a.end
        } else {
            b.end
        },
    }
}

impl Position {
    /// The smallest range that holds both ranges.
    pub fn merge(&self, other: &Position) -> (r: Position)
        ensures
            r == merged_span(*self, *other),
    {
        Position {
            start: if self.start <= other.start {
                self.start
            } else {
                other.start
            },
            end: if self.end >= other.end {
                self.end
            } else {
                other.end
            },
        }
    }
}

/// A piece of code in a statement: fenced or inline.
#[derive(Debug, PartialEq)]
pub struct CodeBlock {
    pub content: String,
    pub language: Option<String>,
    pub position: Position,
}

/// A [`CodeBlock`] as plain values.
pub struct Code {
    pub content: Seq<char>,
    pub language: Option<Seq<char>>,
    pub position: Position,
}

impl View for CodeBlock {
    type V = Code;

    open spec fn view(&self) -> Code {
        Code {
            content: self.content@,
            language: self.language.deep_view(),
            position: self.position,
        }
    }
}

/// The code blocks of a list as plain values.
pub open spec fn codes_view(blocks: Seq<CodeBlock>) -> Seq<Code> {
    Seq::new(blocks.len(), |i: int| blocks[i]@)
}

/// A statement of the document: a paragraph, a heading, a code block or a
/// list item, with the statements nested under it.
#[derive(Debug, PartialEq)]
pub struct DokeStatement {
    /// The statements of the lists that follow the statement.
    pub children: Vec<DokeStatement>,
    /// The range of the statement's own text.
    pub statement_position: Option<Position>,
    /// The range of the node that the statement was made of.
    pub full_position: Option<Position>,
    /// The range that holds all children.
    pub children_position: Option<Position>,
    /// The code in the statement.
    pub code_blocks: Vec<CodeBlock>,
}

/// A [`DokeStatement`] as plain values.
pub struct Statement {
    pub children: Seq<Statement>,
    pub statement_position: Option<Position>,
    pub full_position: Option<Position>,
    pub children_position: Option<Position>,
    pub code_blocks: Seq<Code>,
}

/// The statement that `s` stands for.
pub open spec fn statement_of(s: DokeStatement) -> Statement
    decreases s,
{
    Statement {
        children: Seq::new(
            s.children.len() as nat,
            |i: int|
                if 0 <= i < s.children.len() {
                    statement_of(s.children[i])
                } else {
                    arbitrary()
                },
        ),
        statement_position: s.statement_position,
        full_position: s.full_position,
        children_position: s.children_position,
        code_blocks: codes_view(s.code_blocks@),
    }
}

impl View for DokeStatement {
    type V = Statement;

    open spec fn view(&self) -> Statement {
        statement_of(*self)
    }
}

impl DeepView for DokeStatement {
    type V = Statement;

    open spec fn deep_view(&self) -> Statement {
        statement_of(*self)
    }
}

/// The statements of a list as plain values.
pub open spec fn statements_view(statements: Seq<DokeStatement>) -> Seq<Statement> {
    Seq::new(statements.len(), |i: int| statements[i]@)
}

/// How the view of a statement reads through its children.
pub proof fn lemma_statement_view(s: DokeStatement)
    ensures
        s@ == (Statement {
            children: statements_view(s.children@),
            statement_position: s.statement_position,
            full_position: s.full_position,
            children_position: s.children_position,
            code_blocks: codes_view(s.code_blocks@),
        }),
{
    assert(s@.children =~= statements_view(s.children@));
}

/// A document as the markdown tree gives it: its statements, and the YAML
/// of its front matter.
#[derive(Debug, PartialEq)]
pub struct DokeBaseDocument {
    pub statements: Vec<DokeStatement>,
    pub frontmatter: Option<YamlNode>,
}

/// Turns the markdown tree of a document into its statements.
#[derive(Debug, PartialEq)]
pub struct DokeBaseParser;

/// The range `acc` widened by the range `p`, where there is one.
pub open spec fn widened(acc: Option<Position>, p: Option<Position>) -> Option<Position> {
    match (acc, p) {
        (Some(a), Some(b)) => Some(merged_span(a, b)),
        (None, _) => p,
        (_, None) => acc,
    }
}

/// The range `acc` widened by the places of a node and of every node
/// under it.
pub open spec fn inline_span(node: MdTree, acc: Option<Position>) -> Option<Position>
    decreases node, 0int,
{
    inline_span_all(node.children, widened(acc, node.position), node.children.len() as int)
}

/// The range `acc` widened by the first `n` nodes of a list and
/// everything under them.
pub open spec fn inline_span_all(nodes: Seq<MdTree>, acc: Option<Position>, n: int) -> Option<
    Position,
>
    decreases nodes, n,
{
    if n <= 0 || n > nodes.len() {
        acc
    } else {
        inline_span(nodes[n - 1], inline_span_all(nodes, acc, n - 1))
    }
}

/// The place of a piece of code: that of its node, or from zero to the
/// number of bytes of the code where the node has none.
pub open spec fn code_position(node: MdTree) -> Position {
    match node.position {
        Some(p) => p,
        None => Position { start: 0, end: vstd::utf8::encode_utf8(node.value).len() as usize },
    }
}

/// The blocks `acc` with the inline code of a node and of every node
/// under it added, in the order of the document.
pub open spec fn inline_codes(node: MdTree, acc: Seq<Code>) -> Seq<Code>
    decreases node, 0int,
{
    inline_codes_all(
        node.children,
        if node.kind == MdKind::InlineCode {
            acc.push(Code { content: node.value, language: None, position: code_position(node) })
        } else {
            acc
        },
        node.children.len() as int,
    )
}

/// The blocks `acc` with the inline code of the first `n` nodes of a list
/// added.
pub open spec fn inline_codes_all(nodes: Seq<MdTree>, acc: Seq<Code>, n: int) -> Seq<Code>
    decreases nodes, n,
{
    if n <= 0 || n > nodes.len() {
        acc
    } else {
        inline_codes(nodes[n - 1], inline_codes_all(nodes, acc, n - 1))
    }
}

/// The statement that a paragraph, a heading or a code block makes, before
/// any list is attached to it.
pub open spec fn block_statement(node: MdTree) -> Statement {
    Statement {
        children: Seq::empty(),
        statement_position: inline_span(node, None),
        full_position: node.position,
        children_position: None,
        code_blocks: inline_codes(
            node,
            if node.kind == MdKind::Code {
                seq![
                    Code { content: node.value, language: node.lang, position: code_position(node) },
                ]
            } else {
                Seq::empty()
            },
        ),
    }
}

/// The range that holds the first `n` statements, as far as they have a
/// place.
pub open spec fn span_of(statements: Seq<Statement>, n: int) -> Option<Position>
    decreases n,
{
    if n <= 0 || n > statements.len() {
        None
    } else {
        widened(span_of(statements, n - 1), statements[n - 1].full_position)
    }
}

/// The statement `s` with more children.
pub open spec fn with_children(s: Statement, more: Seq<Statement>) -> Statement {
    let children = s.children + more;
    Statement { children, children_position: span_of(children, children.len() as int), ..s }
}

/// Whether a node is a paragraph, a heading or a code block.
pub open spec fn is_block(kind: MdKind) -> bool {
    kind == MdKind::Paragraph || kind == MdKind::Heading || kind == MdKind::Code
}

/// Whether a list that follows the first `n` siblings belongs to the last
/// statement: it does behind a block and behind the lists that follow a
/// block.
pub open spec fn attaches(siblings: Seq<MdTree>, n: int) -> bool
    decreases n,
{
    if n <= 0 || n > siblings.len() {
        false
    } else if is_block(siblings[n - 1].kind) {
        true
    } else if siblings[n - 1].kind == MdKind::List {
        attaches(siblings, n - 1)
    } else {
        false
    }
}

/// The statement that a list item makes: the first statement of its
/// content with the other statements as its children; none where the item
/// holds no statement.
pub open spec fn item_statement(item: MdTree) -> Option<Statement>
    decreases item, 0int,
{
    let inner = sibling_statements(item.children, item.children.len() as int);
    if inner.len() > 0 {
        Some(with_children(inner[0], inner.subrange(1, inner.len() as int)))
    } else {
        None
    }
}

/// The statements of the first `n` items of a list.
pub open spec fn item_statements(items: Seq<MdTree>, n: int) -> Seq<Statement>
    decreases items, n,
{
    if n <= 0 || n > items.len() {
        Seq::empty()
    } else if items[n - 1].kind == MdKind::ListItem {
        match item_statement(items[n - 1]) {
            Some(s) => item_statements(items, n - 1).push(s),
            None => item_statements(items, n - 1),
        }
    } else {
        item_statements(items, n - 1)
    }
}

/// The statements that the first `n` siblings make.
///
/// A paragraph, a heading and a code block make a statement. The items of
/// a list become the children of the statement that the list follows,
/// else statements of their own. A list item by itself makes its
/// statement. Any other node makes none.
pub open spec fn sibling_statements(siblings: Seq<MdTree>, n: int) -> Seq<Statement>
    decreases siblings, n,
{
    if n <= 0 || n > siblings.len() {
        Seq::empty()
    } else {
        let before = sibling_statements(siblings, n - 1);
        let node = siblings[n - 1];
        if is_block(node.kind) {
            before.push(block_statement(node))
        } else if node.kind == MdKind::List {
            let items = item_statements(node.children, node.children.len() as int);
            if attaches(siblings, n - 1) && before.len() > 0 {
                before.update(before.len() - 1, with_children(before.last(), items))
            } else {
                before + items
            }
        } else if node.kind == MdKind::ListItem {
            match item_statement(node) {
                Some(s) => before.push(s),
                None => before,
            }
        } else {
            before
        }
    }
}

/// Widens a range, as [`widened`] says.
fn widen(acc: Option<Position>, p: Option<Position>) -> (r: Option<Position>)
    ensures
        r == widened(acc, p),
{
    match (acc, p) {
        (Some(a), Some(b)) => Some(a.merge(&b)),
        (None, _) => p,
        (_, None) => acc,
    }
}

/// The place of a piece of code, as [`code_position`] says.
fn place_of_code(node: &MdNode) -> (r: Position)
    ensures
        r == code_position(node@),
{
    proof {
        lemma_md_view(*node);
    }
    match node.position {
        Some(p) => p,
        None => Position { start: 0, end: node.value.as_str().len() },
    }
}

/// The range that holds the statements of a list, as [`span_of`] says.
fn span_of_statements(statements: &Vec<DokeStatement>) -> (r: Option<Position>)
    ensures
        r == span_of(statements_view(statements@), statements.len() as int),
{
    let ghost all = statements_view(statements@);
    let mut acc: Option<Position> = None;
    let mut i: usize = 0;
    while i < statements.len()
        invariant
            i <= statements.len(),
            all == statements_view(statements@),
            acc == span_of(all, i as int),
        decreases statements.len() - i,
    {
        assert(all[i as int] == statements@[i as int]@);
        acc = widen(acc, statements[i].full_position);
        i += 1;
    }
    acc
}

/// Gives a statement more children, as [`with_children`] says.
fn add_children(statement: &mut DokeStatement, more: Vec<DokeStatement>)
    ensures
        final(statement)@ == with_children(old(statement)@, statements_view(more@)),
{
    proof {
        lemma_statement_view(*statement);
    }
    let ghost start = statements_view(statement.children@);
    let ghost all = statements_view(more@);
    let mut rest = more;
    let ghost mut done: int = 0;
    while rest.len() > 0
        invariant
            0 <= done <= all.len(),
            rest.len() == all.len() - done,
            forall|k: int| 0 <= k < rest.len() ==> (#[trigger] rest@[k])@ == all[done + k],
            statements_view(statement.children@) == start + all.subrange(0, done),
            statement.statement_position == old(statement).statement_position,
            statement.full_position == old(statement).full_position,
            statement.code_blocks == old(statement).code_blocks,
        decreases rest.len(),
    {
        let child = rest.remove(0);
        assert(child@ == all[done]);
        let ghost prev = statements_view(statement.children@);
        statement.children.push(child);
        proof {
            assert(statements_view(statement.children@) =~= prev.push(child@));
            assert(all.subrange(0, done + 1) =~= all.subrange(0, done).push(all[done]));
            assert(statements_view(statement.children@) =~= start + all.subrange(0, done + 1));
            done = done + 1;
        }
    }
    assert(all.subrange(0, all.len() as int) =~= all);
    statement.children_position = span_of_statements(&statement.children);
    proof {
        lemma_statement_view(*statement);
    }
}

impl DokeBaseParser {
    /// The range of a node and everything under it, as [`inline_span`]
    /// says.
    pub fn merge_inline_positions(node: &MdNode) -> (r: Option<Position>)
        ensures
            r == inline_span(node@, None),
    {
        DokeBaseParser::span_into(node, None)
    }

    /// Widens `acc` by a node and everything under it.
    fn span_into(node: &MdNode, acc: Option<Position>) -> (r: Option<Position>)
        ensures
            r == inline_span(node@, acc),
        decreases node, 0int,
    {
        proof {
            lemma_md_view(*node);
        }
        DokeBaseParser::span_into_all(&node.children, widen(acc, node.position))
    }

    /// Widens `acc` by the nodes of a list and everything under them.
    fn span_into_all(nodes: &Vec<MdNode>, acc: Option<Position>) -> (r: Option<Position>)
        ensures
            r == inline_span_all(md_view(nodes@), acc, nodes.len() as int),
        decreases nodes, 1int,
    {
        let ghost all = md_view(nodes@);
        let mut out = acc;
        let mut i: usize = 0;
        while i < nodes.len()
            invariant
                i <= nodes.len(),
                all == md_view(nodes@),
                out == inline_span_all(all, acc, i as int),
            decreases nodes.len() - i,
        {
            assert(all[i as int] == nodes@[i as int]@);
            out = DokeBaseParser::span_into(&nodes[i], out);
            i += 1;
        }
        out
    }

    /// Adds the inline code of a node and of everything under it to the
    /// blocks, as [`inline_codes`] says.
    pub fn collect_inline_code_blocks(node: &MdNode, code_blocks: &mut Vec<CodeBlock>)
        ensures
            codes_view(final(code_blocks)@) == inline_codes(node@, codes_view(old(code_blocks)@)),
        decreases node, 0int,
    {
        proof {
            lemma_md_view(*node);
        }
        if node.kind == MdKind::InlineCode {
            let block = CodeBlock {
                content: node.value.clone(),
                language: None,
                position: place_of_code(node),
            };
            code_blocks.push(block);
            assert(codes_view(code_blocks@) =~= codes_view(old(code_blocks)@).push(block@));
        }
        DokeBaseParser::collect_all(&node.children, code_blocks);
    }

    /// Adds the inline code of the nodes of a list to the blocks.
    fn collect_all(nodes: &Vec<MdNode>, code_blocks: &mut Vec<CodeBlock>)
        ensures
            codes_view(final(code_blocks)@) == inline_codes_all(
                md_view(nodes@),
                codes_view(old(code_blocks)@),
                nodes.len() as int,
            ),
        decreases nodes, 1int,
    {
        let ghost all = md_view(nodes@);
        let ghost start = codes_view(code_blocks@);
        let mut i: usize = 0;
        while i < nodes.len()
            invariant
                i <= nodes.len(),
                all == md_view(nodes@),
                codes_view(code_blocks@) == inline_codes_all(all, start, i as int),
            decreases nodes.len() - i,
        {
            assert(all[i as int] == nodes@[i as int]@);
            DokeBaseParser::collect_inline_code_blocks(&nodes[i], code_blocks);
            i += 1;
        }
    }

    /// The statement of a paragraph, a heading or a code block, as
    /// [`block_statement`] says.
    pub fn parse_statement_node(node: &MdNode) -> (r: DokeStatement)
        ensures
            r@ == block_statement(node@),
    {
        proof {
            lemma_md_view(*node);
        }
        let mut code_blocks: Vec<CodeBlock> = Vec::new();
        assert(codes_view(code_blocks@) =~= Seq::empty());
        if node.kind == MdKind::Code {
            let block = CodeBlock {
                content: node.value.clone(),
                language: node.lang.clone(),
                position: place_of_code(node),
            };
            code_blocks.push(block);
            assert(codes_view(code_blocks@) =~= seq![block@]);
        }
        DokeBaseParser::collect_inline_code_blocks(node, &mut code_blocks);
        let r = DokeStatement {
            children: Vec::new(),
            statement_position: DokeBaseParser::merge_inline_positions(node),
            full_position: node.position,
            children_position: None,
            code_blocks,
        };
        proof {
            lemma_statement_view(r);
            assert(statements_view(r.children@) =~= Seq::empty());
        }
        r
    }

    /// The statement of a list item, as [`item_statement`] says.
    pub fn parse_list_item(item: &MdNode) -> (r: Option<DokeStatement>)
        requires
            item.kind == MdKind::ListItem,
        ensures
            r.deep_view() == item_statement(item@),
        decreases item, 0int,
    {
        proof {
            lemma_md_view(*item);
        }
        let mut inner = DokeBaseParser::parse_sibling_blocks(&item.children);
        if inner.len() > 0 {
            let ghost all = statements_view(inner@);
            let mut first = inner.remove(0);
            assert(statements_view(inner@) =~= all.subrange(1, all.len() as int));
            add_children(&mut first, inner);
            Some(first)
        } else {
            None
        }
    }

    /// The statements of the items of a list, as [`item_statements`]
    /// says.
    fn parse_list_items(items: &Vec<MdNode>) -> (r: Vec<DokeStatement>)
        ensures
            statements_view(r@) == item_statements(md_view(items@), items.len() as int),
        decreases items, 1int,
    {
        let ghost all = md_view(items@);
        let mut out: Vec<DokeStatement> = Vec::new();
        assert(statements_view(out@) =~= Seq::empty());
        let mut i: usize = 0;
        while i < items.len()
            invariant
                i <= items.len(),
                all == md_view(items@),
                statements_view(out@) == item_statements(all, i as int),
            decreases items.len() - i,
        {
            assert(all[i as int] == items@[i as int]@);
            proof {
                lemma_md_view(items@[i as int]);
            }
            if items[i].kind == MdKind::ListItem {
                match DokeBaseParser::parse_list_item(&items[i]) {
                    Some(s) => {
                        out.push(s);
                        assert(statements_view(out@) =~= item_statements(all, i as int).push(s@));
                    },
                    None => {},
                }
            }
            i += 1;
        }
        out
    }

    /// The statements that siblings make, as [`sibling_statements`] says.
    pub fn parse_sibling_blocks(siblings: &Vec<MdNode>) -> (r: Vec<DokeStatement>)
        ensures
            statements_view(r@) == sibling_statements(md_view(siblings@), siblings.len() as int),
        decreases siblings, 2int,
    {
        let ghost all = md_view(siblings@);
        let mut stmts: Vec<DokeStatement> = Vec::new();
        assert(statements_view(stmts@) =~= Seq::empty());
        let mut attach = false;
        let mut i: usize = 0;
        while i < siblings.len()
            invariant
                i <= siblings.len(),
                all == md_view(siblings@),
                attach == attaches(all, i as int),
                statements_view(stmts@) == sibling_statements(all, i as int),
            decreases siblings.len() - i,
        {
            let child = &siblings[i];
            assert(all[i as int] == child@);
            proof {
                lemma_md_view(*child);
            }
            let ghost before = statements_view(stmts@);
            if child.kind == MdKind::Paragraph || child.kind == MdKind::Heading || child.kind
                == MdKind::Code {
                let s = DokeBaseParser::parse_statement_node(child);
                stmts.push(s);
                assert(statements_view(stmts@) =~= before.push(s@));
                attach = true;
            } else if child.kind == MdKind::List {
                let items = DokeBaseParser::parse_list_items(&child.children);
                if attach && stmts.len() > 0 {
                    let mut last = stmts.pop().unwrap();
                    add_children(&mut last, items);
                    stmts.push(last);
                    assert(statements_view(stmts@) =~= before.update(before.len() - 1, last@));
                } else {
                    let ghost added = statements_view(items@);
                    let mut rest = items;
                    let ghost mut done: int = 0;
                    while rest.len() > 0
                        invariant
                            0 <= done <= added.len(),
                            rest.len() == added.len() - done,
                            forall|k: int|
                                0 <= k < rest.len() ==> (#[trigger] rest@[k])@ == added[done + k],
                            statements_view(stmts@) == before + added.subrange(0, done),
                        decreases rest.len(),
                    {
                        let s = rest.remove(0);
                        assert(s@ == added[done]);
                        let ghost prev = statements_view(stmts@);
                        stmts.push(s);
                        proof {
                            assert(statements_view(stmts@) =~= prev.push(s@));
                            assert(added.subrange(0, done + 1) =~= added.subrange(0, done).push(
                                added[done],
                            ));
                            assert(statements_view(stmts@) =~= before + added.subrange(
                                0,
                                done + 1,
                            ));
                            done = done + 1;
                        }
                    }
                    assert(added.subrange(0, added.len() as int) =~= added);
                }
            } else if child.kind == MdKind::ListItem {
                match DokeBaseParser::parse_list_item(child) {
                    Some(s) => {
                        stmts.push(s);
                        assert(statements_view(stmts@) =~= before.push(s@));
                    },
                    None => {},
                }
                attach = false;
            } else {
                attach = false;
            }
            i += 1;
        }
        stmts
    }

    /// Reads a document from the root of its markdown tree and the text
    /// of its front matter: the statements that the children of the root
    /// make, and the first YAML document of the front matter where it has
    /// one.
    pub fn parse_document(root: &MdNode, frontmatter_string: Option<&str>) -> (r: Result<
        DokeBaseDocument,
        DokeParseError,
    >)
        ensures
            r matches Ok(doc) && statements_view(doc.statements@) == sibling_statements(
                root@.children,
                root@.children.len() as int,
            ) && doc.frontmatter.deep_view() == match frontmatter_string {
                Some(text) => match yaml_documents(text@) {
                    Some(docs) => if docs.len() > 0 {
                        Some(docs[0])
                    } else {
                        None
                    },
                    None => None,
                },
                None => None,
            },
    {
        proof {
            lemma_md_view(*root);
        }
        let mut frontmatter: Option<YamlNode> = None;
        if let Some(text) = frontmatter_string {
            match load_documents(text) {
                Ok(mut docs) => {
                    if docs.len() > 0 {
                        assert(yaml_nodes_view(docs@)[0] == docs@[0]@);
                        frontmatter = Some(docs.remove(0));
                    }
                },
                Err(_) => {},
            }
        }
        let statements = DokeBaseParser::parse_sibling_blocks(&root.children);
        Ok(DokeBaseDocument { statements, frontmatter })
    }
}

} // verus!
