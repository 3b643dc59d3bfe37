use doke::base_parser::{DokeBaseParser, Position};
use doke::markdown_bridge::{MdKind, MdNode};
use doke::parsers::debug::DebugPrinter;
use doke::parsers::sentence::SentenceParser;
use doke::parsers::{substitute, FrontmatterTemplateParser};
use doke::semantic::{get_field, DokeNode, DokeNodeState, DokeValidationError, GodotValue};
use doke::yaml::YamlNode;
use doke::{
    extract_frontmatter, normalize_key, read_frontmatter, slice_bytes, yaml_value_to_godot,
    DokePipe, NodeFilter, PipeParser,
};

fn count_statements(nodes: &[DokeNode]) -> usize {
    nodes.iter().map(|n| 1 + count_statements(&n.children)).sum()
}

fn collect_statements<'a>(nodes: &'a [DokeNode], out: &mut Vec<&'a str>) {
    for n in nodes {
        out.push(n.statement.as_str());
        collect_statements(&n.children, out);
    }
}

#[test]
fn test_simple_statements_count() {
    let input = r#"This is a statement with a number: 42.

- First item

- Second item with [a link](http://example.com)
  - Nested item
"#;

    let doc = DokePipe::new().run_markdown(input).unwrap();

    // the statements of the document, nested ones included
    assert_eq!(count_statements(&doc.nodes), 4);

    let mut slices: Vec<&str> = Vec::new();
    collect_statements(&doc.nodes, &mut slices);
    assert_eq!(slices.len(), 4);
    assert_eq!(
        slices,
        vec![
            "This is a statement with a number: 42.",
            "First item",
            "Second item with [a link](http://example.com)",
            "Nested item"
        ]
    );
    // a list belongs to the paragraph that it follows
    assert_eq!(doc.nodes.len(), 1);
    assert_eq!(doc.nodes[0].children.len(), 2);
    assert_eq!(doc.nodes[0].children[1].children.len(), 1);
    assert_eq!(doc.nodes[0].span, Position { start: 0, end: 38 });
}

#[test]
fn front_matter_is_split_off() {
    assert_eq!(
        extract_frontmatter("---\ntitle: Sword\n---\n\n# Heading\n"),
        (Some("title: Sword"), "# Heading\n")
    );
    assert_eq!(extract_frontmatter("no front matter"), (None, "no front matter"));
    assert_eq!(extract_frontmatter("junk---a: 1"), (Some("a: 1"), ""));
    assert_eq!(extract_frontmatter("------rest"), (Some(""), "rest"));
    assert_eq!(extract_frontmatter("---\r\n a --- b --- c"), (Some("a"), " b --- c"));
    assert_eq!(extract_frontmatter(""), (None, ""));
}

#[test]
fn keys_are_normalized() {
    assert_eq!(normalize_key("  Item Name "), "item_name");
    assert_eq!(normalize_key("ÉLAN Vital"), "élan_vital");
    assert_eq!(normalize_key("already_ok"), "already_ok");
    assert_eq!(normalize_key(""), "");
}

#[test]
fn yaml_becomes_values() {
    let y = YamlNode::Hash(vec![
        (YamlNode::String("Max HP".to_string()), YamlNode::Integer(10)),
        (YamlNode::Integer(3), YamlNode::Boolean(true)),
        (YamlNode::String("speed".to_string()), YamlNode::Real("1.5".to_string())),
        (YamlNode::String("odd".to_string()), YamlNode::Real(".inf".to_string())),
        (
            YamlNode::String("tags".to_string()),
            YamlNode::Array(vec![YamlNode::String("a".to_string()), YamlNode::Null, YamlNode::Alias(1)]),
        ),
        (YamlNode::String("max hp".to_string()), YamlNode::Integer(12)),
        (
            YamlNode::String("Inner".to_string()),
            YamlNode::Hash(vec![(YamlNode::String("A Key".to_string()), YamlNode::BadValue)]),
        ),
    ]);
    let expected = vec![
        ("max_hp".to_string(), GodotValue::Int(12)),
        ("speed".to_string(), GodotValue::Float("1.5".to_string())),
        ("odd".to_string(), GodotValue::Float("0.0".to_string())),
        (
            "tags".to_string(),
            GodotValue::Array(vec![GodotValue::String("a".to_string()), GodotValue::Nil, GodotValue::Nil]),
        ),
        ("inner".to_string(), GodotValue::Dict(vec![("a_key".to_string(), GodotValue::Nil)])),
    ];
    assert_eq!(yaml_value_to_godot(&y), GodotValue::Dict(expected.clone()));
    assert_eq!(read_frontmatter(&y), expected);
    assert_eq!(read_frontmatter(&YamlNode::Integer(1)), vec![]);
}

#[test]
fn bytes_are_sliced_on_character_boundaries() {
    let text = "aé✅b";
    assert_eq!(slice_bytes(text, 0, 1), Some("a"));
    assert_eq!(slice_bytes(text, 1, 3), Some("é"));
    assert_eq!(slice_bytes(text, 1, 6), Some("é✅"));
    assert_eq!(slice_bytes(text, 0, 7), Some(text));
    assert_eq!(slice_bytes(text, 7, 7), Some(""));
    assert_eq!(slice_bytes(text, 2, 3), None);
    assert_eq!(slice_bytes(text, 1, 2), None);
    assert_eq!(slice_bytes(text, 3, 1), None);
    assert_eq!(slice_bytes(text, 0, 8), None);
    assert_eq!(slice_bytes(text, 9, 9), None);
}

#[test]
fn placeholders_are_filled_from_the_front_matter() {
    let front = vec![
        ("Item Name".to_string(), GodotValue::String("Sting".to_string())),
        ("damage".to_string(), GodotValue::Int(7)),
        ("ratio".to_string(), GodotValue::Float("0.5".to_string())),
        ("magic".to_string(), GodotValue::Bool(true)),
        ("tags".to_string(), GodotValue::Array(vec![])),
        ("DAMAGE".to_string(), GodotValue::Int(9)),
    ];
    assert_eq!(
        substitute("{item name} deals {Damage} x{ratio} {magic} {tags} {unknown} {a-b} {} {open", &front),
        "Sting deals 9 x0.5 true {tags} {unknown} {a-b} {} {open"
    );
    let mut node = DokeNode {
        statement: "Buy {item_name}".to_string(),
        state: DokeNodeState::Unresolved,
        children: vec![DokeNode {
            statement: "for {damage} coins".to_string(),
            state: DokeNodeState::Unresolved,
            children: vec![],
            parse_data: vec![],
            constituents: vec![],
            span: Position { start: 0, end: 0 },
        }],
        parse_data: vec![],
        constituents: vec![],
        span: Position { start: 0, end: 0 },
    };
    FrontmatterTemplateParser.process(&mut node, &front);
    assert_eq!(node.statement, "Buy Sting");
    assert_eq!(node.children[0].statement, "for 9 coins");
}

#[test]
fn tree_is_shown_with_marks() {
    let parser = SentenceParser::from_yaml("A:\n  - \"Hit {who: B}\"\n").unwrap();
    let mut node = DokeNode {
        statement: "Hit Bob".to_string(),
        state: DokeNodeState::Unresolved,
        children: vec![DokeNode {
            statement: "nested".to_string(),
            state: DokeNodeState::Unresolved,
            children: vec![],
            parse_data: vec![],
            constituents: vec![],
            span: Position { start: 0, end: 0 },
        }],
        parse_data: vec![],
        constituents: vec![],
        span: Position { start: 0, end: 0 },
    };
    parser.process(&mut node, &Vec::new());
    assert_eq!(DebugPrinter.process(&node), "✅ Hit Bob\n  ❓ nested\n  who:💡 Bob\n");
    assert_eq!(DebugPrinter::state_emoji(&DokeNodeState::Unresolved), "❓");
}

fn md(kind: MdKind, start: usize, end: usize, children: Vec<MdNode>) -> MdNode {
    MdNode { kind, value: String::new(), lang: None, position: Some(Position { start, end }), children }
}

#[test]
fn lists_attach_to_the_block_before_them() {
    let code = MdNode {
        kind: MdKind::Code,
        value: "let x = 1;".to_string(),
        lang: Some("rust".to_string()),
        position: None,
        children: vec![],
    };
    let inline = MdNode {
        kind: MdKind::InlineCode,
        value: "é".to_string(),
        lang: None,
        position: None,
        children: vec![],
    };
    let item = |start: usize, inner: Vec<MdNode>| md(MdKind::ListItem, start, start + 9, inner);
    let siblings = vec![
        md(MdKind::List, 0, 10, vec![item(0, vec![md(MdKind::Paragraph, 2, 8, vec![])])]),
        md(MdKind::Paragraph, 20, 30, vec![md(MdKind::Other, 22, 35, vec![inline])]),
        md(MdKind::List, 40, 50, vec![item(40, vec![md(MdKind::Paragraph, 42, 48, vec![])]), md(MdKind::Other, 0, 0, vec![])]),
        md(MdKind::List, 60, 70, vec![item(60, vec![md(MdKind::Heading, 62, 68, vec![]), md(MdKind::Paragraph, 69, 70, vec![])]), item(80, vec![])]),
        md(MdKind::Other, 71, 72, vec![]),
        md(MdKind::List, 90, 99, vec![item(90, vec![md(MdKind::Paragraph, 92, 98, vec![])])]),
        code,
        md(MdKind::ListItem, 100, 110, vec![md(MdKind::Paragraph, 102, 108, vec![])]),
    ];
    let statements = DokeBaseParser::parse_sibling_blocks(&siblings);
    assert_eq!(statements.len(), 5);
    // a list with no block before it makes statements of its own
    assert_eq!(statements[0].full_position, Some(Position { start: 2, end: 8 }));
    // the paragraph takes the items of both lists behind it
    let paragraph = &statements[1];
    assert_eq!(paragraph.statement_position, Some(Position { start: 20, end: 35 }));
    assert_eq!(paragraph.full_position, Some(Position { start: 20, end: 30 }));
    assert_eq!(paragraph.children.len(), 2);
    assert_eq!(paragraph.children_position, Some(Position { start: 42, end: 68 }));
    assert_eq!(paragraph.code_blocks.len(), 1);
    assert_eq!(paragraph.code_blocks[0].content, "é");
    assert_eq!(paragraph.code_blocks[0].position, Position { start: 0, end: 2 });
    // the first statement of an item takes the others as children
    let heading = &paragraph.children[1];
    assert_eq!(heading.full_position, Some(Position { start: 62, end: 68 }));
    assert_eq!(heading.children.len(), 1);
    assert_eq!(heading.children_position, Some(Position { start: 69, end: 70 }));
    // behind another node a list stands by itself again
    assert_eq!(statements[2].full_position, Some(Position { start: 92, end: 98 }));
    let block = &statements[3];
    assert_eq!(block.code_blocks.len(), 1);
    assert_eq!(block.code_blocks[0].language, Some("rust".to_string()));
    assert_eq!(block.code_blocks[0].position, Position { start: 0, end: 10 });
    assert_eq!(block.statement_position, None);
    assert_eq!(statements[4].full_position, Some(Position { start: 102, end: 108 }));
    assert_eq!(DokeBaseParser::parse_list_item(&item(0, vec![])), None);
}

#[test]
fn document_is_read_with_its_front_matter() {
    let root = md(MdKind::Other, 0, 5, vec![md(MdKind::Paragraph, 0, 5, vec![])]);
    let doc = DokeBaseParser::parse_document(&root, Some("a: 1\n---\nb: 2\n")).unwrap();
    assert_eq!(doc.statements.len(), 1);
    assert_eq!(
        doc.frontmatter,
        Some(YamlNode::Hash(vec![(YamlNode::String("a".to_string()), YamlNode::Integer(1))]))
    );
    assert_eq!(DokeBaseParser::parse_document(&root, Some("a: [")).unwrap().frontmatter, None);
    assert_eq!(DokeBaseParser::parse_document(&root, Some("")).unwrap().frontmatter, None);
    assert_eq!(DokeBaseParser::parse_document(&root, None).unwrap().frontmatter, None);
}

fn effects() -> SentenceParser {
    SentenceParser::from_yaml(
        "DamageEffect:\n  - \"Deals {damage: int}\"\nNamed:\n  - \"Called {name: string}\"\n",
    )
    .unwrap()
}

#[test]
fn pipe_turns_markdown_into_values() {
    let input = "---\nItem Name: Sting\npower: 7\n---\n\nCalled {item name}.\n\n- Deals {power}\n- Deals 0x10\n";
    let pipe = DokePipe::new()
        .add(PipeParser::Frontmatter(FrontmatterTemplateParser))
        .map(PipeParser::Sentences(effects()))
        .add(PipeParser::Debug(DebugPrinter));
    let doc = pipe.run_markdown(input).unwrap();
    assert_eq!(
        doc.frontmatter,
        vec![
            ("item_name".to_string(), GodotValue::String("Sting".to_string())),
            ("power".to_string(), GodotValue::Int(7))
        ]
    );
    assert_eq!(doc.nodes.len(), 1);
    assert_eq!(doc.nodes[0].statement, "Called Sting.");
    assert_eq!(doc.nodes[0].children[0].statement, "Deals 7");

    let values = pipe.validate(input).unwrap();
    assert_eq!(values.len(), 1);
    match &values[0] {
        GodotValue::Resource { resource_type, fields } => {
            assert_eq!(resource_type, "Named");
            assert_eq!(get_field(fields, "name"), Some(&GodotValue::String("Sting".to_string())));
            match get_field(fields, "children") {
                Some(GodotValue::Array(children)) => {
                    let damages: Vec<Option<&GodotValue>> = children
                        .iter()
                        .map(|c| match c {
                            GodotValue::Resource { fields, .. } => get_field(fields, "damage"),
                            _ => None,
                        })
                        .collect();
                    assert_eq!(damages, vec![Some(&GodotValue::Int(7)), Some(&GodotValue::Int(16))]);
                }
                other => panic!("unexpected children {:?}", other),
            }
        }
        other => panic!("unexpected value {:?}", other),
    }
}

#[test]
fn stages_differ_in_the_nodes_they_reach() {
    let input = "Called A\n\n- Called B\n  - Called C\n";
    let states = |pipe: DokePipe| {
        let doc = pipe.run_markdown(input).unwrap();
        let a = &doc.nodes[0];
        let b = &a.children[0];
        let c = &b.children[0];
        [a, b, c].map(|n| matches!(n.state, DokeNodeState::Resolved(_)))
    };
    assert_eq!(states(DokePipe::new()), [false, false, false]);
    assert_eq!(states(DokePipe::new().add(PipeParser::Sentences(effects()))), [true, false, false]);
    assert_eq!(states(DokePipe::new().map(PipeParser::Sentences(effects()))), [true, true, true]);
    let deeper = NodeFilter { min_level: 1, max_level: usize::MAX, unresolved_only: false };
    assert_eq!(states(DokePipe::new().filter_map(PipeParser::Sentences(effects()), deeper)), [false, true, true]);
    let middle = NodeFilter { min_level: 1, max_level: 1, unresolved_only: true };
    assert_eq!(states(DokePipe::new().filter_map(PipeParser::Sentences(effects()), middle)), [false, true, false]);
    assert!(middle.accepts(&DokePipe::new().run_markdown(input).unwrap().nodes[0], 1));
}

#[test]
fn failing_statements_of_a_document_are_all_reported() {
    let pipe = DokePipe::new().map(PipeParser::Sentences(effects()));
    let input = "Deals 1\n\nHeals 2\n\nDeals 3\n\nCalled\n\nBurns 5\n";
    match pipe.validate(input) {
        Err(DokeValidationError::MultipleErrors(errors)) => assert_eq!(errors.0.len(), 3),
        other => panic!("expected three errors, got {:?}", other),
    }
    match pipe.validate("Deals 1\n\nHeals 2.\n") {
        Err(DokeValidationError::HypothesisPromotionFailed(e, at)) => {
            assert_eq!(e.message(), "\"Heals 2\" : No sentence match");
            assert_eq!(at, Position { start: 9, end: 17 });
        }
        other => panic!("expected one error, got {:?}", other),
    }
    assert_eq!(pipe.validate("").unwrap(), vec![]);
}
