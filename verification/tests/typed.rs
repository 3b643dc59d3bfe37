use doke::base_parser::Position;
use doke::parsers::sentence::SentenceParser;
use doke::parsers::typed_sentences::{
    is_dokedef_file, join_sources, sort_by_priority, ChildSpec, ParserReference, TypeRule,
    TypedSentencesError, TypedSentencesParser,
};
use doke::semantic::{get_field, DokeNode, DokeNodeState, DokeValidate, GodotValue};
use doke::yaml::YamlNode;

fn unresolved_node(statement: &str) -> DokeNode {
    DokeNode {
        statement: statement.to_string(),
        state: DokeNodeState::Unresolved,
        children: Vec::new(),
        parse_data: Vec::new(),
        constituents: Vec::new(),
        span: Position { start: 0, end: 0 },
    }
}

fn rule(target: &str, priority: i32, children: ChildSpec, grammar: &str) -> TypeRule {
    TypeRule {
        target_type: target.to_string(),
        parser_ref: ParserReference { pattern: format!("{}.dokedef.yaml", target), base_dir: ".".to_string() },
        priority,
        children,
        sentence_parser: SentenceParser::from_yaml(grammar).unwrap(),
    }
}

fn names(list: &[&str]) -> Vec<String> {
    list.iter().map(|s| s.to_string()).collect()
}

#[test]
fn child_spec_names_the_parents() {
    let simple = ChildSpec::Simple(names(&["ItemEffect", "DamageEffect"]));
    assert!(simple.allowed("ItemEffect"));
    assert!(simple.allowed("DamageEffect"));
    assert!(!simple.allowed("damageeffect"));
    assert!(!ChildSpec::Simple(vec![]).allowed("ItemEffect"));
    let grouped = ChildSpec::Structured(vec![
        ("damage_effects".to_string(), names(&["DamageEffect"])),
        ("other_effects".to_string(), names(&["ItemEffect", "HealEffect"])),
    ]);
    assert!(grouped.allowed("HealEffect"));
    assert!(grouped.allowed("DamageEffect"));
    assert!(!grouped.allowed("damage_effects"));
    assert!(!ChildSpec::Structured(vec![]).allowed("x"));
}

#[test]
fn rules_are_read_from_yaml() {
    let config = r#"
rules:
  - for: Item
    parser: "items/*.dokedef.yaml"
    priority: 5
    children: [Shop, Chest]
  - for: Effect
    parser: effects.yaml
    children:
      on_hit: [Item]
      passive: [Item, Aura]
  - not a rule
"#;
    let rules = TypedSentencesParser::declared_rules(config, "/base").unwrap();
    assert_eq!(rules.len(), 2);
    assert_eq!(rules[0].target_type, "Item");
    assert_eq!(rules[0].parser_ref, ParserReference { pattern: "items/*.dokedef.yaml".to_string(), base_dir: "/base".to_string() });
    assert_eq!(rules[0].priority, 5);
    assert_eq!(rules[0].children, ChildSpec::Simple(names(&["Shop", "Chest"])));
    assert_eq!(rules[1].priority, 0);
    assert_eq!(
        rules[1].children,
        ChildSpec::Structured(vec![
            ("on_hit".to_string(), names(&["Item"])),
            ("passive".to_string(), names(&["Item", "Aura"]))
        ])
    );
    assert!(rules[1].sentence_parser.phrases.is_empty());
    assert_eq!(TypedSentencesParser::declared_rules("other: 1\n", ".").unwrap().len(), 0);
    assert_eq!(TypedSentencesParser::declared_rules("[1, 2]\n", ".").unwrap().len(), 0);
}

#[test]
fn malformed_rules_are_refused() {
    assert_eq!(
        TypedSentencesParser::declared_rules("rules:\n  - parser: x.yaml\n", "."),
        Err(TypedSentencesError::InvalidRule("Missing 'for' field".to_string()))
    );
    assert_eq!(
        TypedSentencesParser::declared_rules("rules:\n  - for: A\n    priority: 3\n", "."),
        Err(TypedSentencesError::InvalidRule("Missing 'parser' field".to_string()))
    );
    assert_eq!(
        TypedSentencesParser::declared_rules("", "."),
        Err(TypedSentencesError::YamlParseError("Empty YAML".to_string()))
    );
    assert!(matches!(
        TypedSentencesParser::declared_rules("rules: [", "."),
        Err(TypedSentencesError::YamlParseError(m)) if !m.is_empty() && m != "rules: ["
    ));
}

#[test]
fn child_spec_of_other_yaml_is_empty() {
    assert_eq!(
        TypedSentencesParser::parse_child_spec(&YamlNode::Integer(3)),
        Ok(ChildSpec::Simple(vec![]))
    );
    assert_eq!(
        TypedSentencesParser::parse_child_spec(&YamlNode::Array(vec![
            YamlNode::String("A".to_string()),
            YamlNode::Integer(1),
            YamlNode::String("B".to_string())
        ])),
        Ok(ChildSpec::Simple(names(&["A", "B"])))
    );
}

#[test]
fn priority_is_a_32_bit_number() {
    let entries = vec![
        (YamlNode::String("for".to_string()), YamlNode::String("A".to_string())),
        (YamlNode::String("parser".to_string()), YamlNode::String("a.yaml".to_string())),
        (YamlNode::String("priority".to_string()), YamlNode::Integer(4294967297)),
    ];
    assert_eq!(TypedSentencesParser::parse_rule(&entries, ".").unwrap().priority, 1);
}

#[test]
fn rules_are_ordered_by_priority() {
    let g = "A:\n  - \"a\"\n";
    let rules = vec![
        rule("low", 1, ChildSpec::Simple(vec![]), g),
        rule("high-first", 9, ChildSpec::Simple(vec![]), g),
        rule("mid", 5, ChildSpec::Simple(vec![]), g),
        rule("high-second", 9, ChildSpec::Simple(vec![]), g),
        rule("negative", -3, ChildSpec::Simple(vec![]), g),
    ];
    let sorted: Vec<String> = sort_by_priority(rules).into_iter().map(|r| r.target_type).collect();
    assert_eq!(sorted, names(&["high-first", "high-second", "mid", "low", "negative"]));
}

#[test]
fn grammars_are_loaded_for_the_rules() {
    let rules = TypedSentencesParser::declared_rules(
        "rules:\n  - for: Heal\n    parser: heal.yaml\n  - for: Damage\n    parser: dmg.yaml\n    priority: 2\n",
        ".",
    )
    .unwrap();
    let sources = vec![
        vec!["HealEffect:\n  - \"Heals {amount: int}\"\n".to_string()],
        vec!["DamageEffect:\n  - \"Deals {damage: int}\"\n".to_string(), "# more\n".to_string()],
    ];
    let table = TypedSentencesParser::from_rules(rules, &sources).unwrap();
    assert_eq!(table.rules().len(), 2);
    assert_eq!(table.rules()[0].target_type, "Damage");
    assert_eq!(table.rules()[0].sentence_parser.phrases.len(), 1);
    assert_eq!(table.rules()[1].sentence_parser.phrases[0].pattern, "Heals {amount: int}");
}

#[test]
fn grammars_that_cannot_be_loaded_are_refused() {
    let declared = || TypedSentencesParser::declared_rules("rules:\n  - for: A\n    parser: a.yaml\n", ".").unwrap();
    assert_eq!(
        TypedSentencesParser::from_rules(declared(), &vec![vec![]]),
        Err(TypedSentencesError::FileError("No .dokedef.yaml files found for pattern: a.yaml".to_string()))
    );
    assert!(matches!(
        TypedSentencesParser::from_rules(declared(), &vec![vec!["A:\n  - \"{broken\"\n".to_string()]]),
        Err(TypedSentencesError::InvalidRule(m)) if m == "Failed to parse YAML: Invalid pattern: {broken"
    ));
    assert!(matches!(
        TypedSentencesParser::from_rules(declared(), &vec![]),
        Err(TypedSentencesError::InvalidRule(_))
    ));
}

#[test]
fn sources_are_joined_as_documents() {
    assert_eq!(join_sources(&vec!["a: 1".to_string(), "b: 2\n".to_string()]), "a: 1\n---\nb: 2\n\n---\n");
    assert_eq!(join_sources(&vec![]), "");
}

#[test]
fn grammar_files_are_recognized() {
    assert!(is_dokedef_file("effects.dokedef.yaml"));
    assert!(is_dokedef_file("/some/dir/doke-items.yml"));
    assert!(is_dokedef_file("dir/ItemParser.yaml"));
    assert!(!is_dokedef_file("effects.yaml"));
    assert!(!is_dokedef_file("effects.dokedef.json"));
    assert!(!is_dokedef_file("dokedef"));
    assert!(!is_dokedef_file("doke/config.yaml"));
    assert!(!is_dokedef_file(""));
}

fn table() -> TypedSentencesParser {
    let rules = vec![
        rule("Effect", 1, ChildSpec::Simple(names(&["Item"])), "DamageEffect:\n  - \"Deals {damage: int}\"\n  - \"Deals {damage: int} to {target: Target}\"\nTarget:\n  - \"all {what: string}\"\n"),
        rule("Item", 5, ChildSpec::Simple(vec![]), "Sword:\n  - \"A sword named {name: string}\"\n"),
        rule("Catch", 0, ChildSpec::Simple(names(&["Nothing"])), "Any:\n  - \"{text: string}\"\n"),
    ];
    TypedSentencesParser::new(rules)
}

#[test]
fn nodes_are_dispatched_by_priority_and_parent() {
    let parser = table();
    let mut root = unresolved_node("A sword named Sting.");
    root.children.push(unresolved_node("Deals 3 to all orcs"));
    root.children.push(unresolved_node("Is very old"));
    parser.process(&mut root, &Vec::new());

    assert!(matches!(root.state, DokeNodeState::Resolved(_)));
    assert_eq!(get_field(&root.parse_data, "abstract_type"), Some(&GodotValue::String("Item".to_string())));
    // the child is resolved by the rule that names its parent
    let hit = &root.children[0];
    assert_eq!(get_field(&hit.parse_data, "abstract_type"), Some(&GodotValue::String("Effect".to_string())));
    // its constituent went through the whole table
    assert_eq!(hit.constituents.len(), 1);
    assert_eq!(hit.constituents[0].0, "target");
    assert_eq!(
        get_field(&hit.constituents[0].1.parse_data, "abstract_type"),
        Some(&GodotValue::String("Effect".to_string()))
    );
    // no rule under this parent matches: every rule is tried
    let old = &root.children[1];
    assert_eq!(get_field(&old.parse_data, "abstract_type"), Some(&GodotValue::String("Catch".to_string())));

    let mut roots = vec![root];
    let values = DokeValidate::validate_tree(&mut roots, &Vec::new()).unwrap();
    match &values[0] {
        GodotValue::Resource { resource_type, fields } => {
            assert_eq!(resource_type, "Sword");
            assert_eq!(get_field(fields, "name"), Some(&GodotValue::String("Sting".to_string())));
            match get_field(fields, "children") {
                Some(GodotValue::Array(children)) => {
                    assert_eq!(children.len(), 2);
                    match &children[0] {
                        GodotValue::Resource { resource_type, fields } => {
                            assert_eq!(resource_type, "DamageEffect");
                            assert_eq!(get_field(fields, "damage"), Some(&GodotValue::Int(3)));
                            assert!(matches!(get_field(fields, "target"), Some(GodotValue::Resource { resource_type, .. }) if resource_type == "Target"));
                        }
                        other => panic!("unexpected child {:?}", other),
                    }
                }
                other => panic!("unexpected children {:?}", other),
            }
        }
        other => panic!("unexpected value {:?}", other),
    }
}

#[test]
fn node_that_no_rule_resolves_stays_unresolved() {
    let rules = vec![rule("Item", 5, ChildSpec::Simple(vec![]), "Sword:\n  - \"A sword\"\n")];
    let parser = TypedSentencesParser::new(rules);
    let mut root = unresolved_node("A shield");
    let before = unresolved_node("A shield");
    parser.process(&mut root, &Vec::new());
    assert_eq!(root, before);
    assert!(!parser.try_process_with_rule(&mut root, &Vec::new(), &parser.rules()[0]));
    assert_eq!(root, before);
    assert!(parser.rule_matches_parent(&parser.rules()[0], &None));
    assert!(!parser.rule_matches_parent(&parser.rules()[0], &Some("Item".to_string())));
}

#[test]
fn dispatch_ends_at_the_depth_limit() {
    let rules = vec![rule("A", 1, ChildSpec::Simple(vec![]), "A:\n  - \"{inner: A}\"\n")];
    let parser = TypedSentencesParser::new(rules);
    let mut root = unresolved_node("again");
    parser.process(&mut root, &Vec::new());
    let mut depth = 0;
    let mut at = &root;
    while let DokeNodeState::Resolved(_) = at.state {
        at = &at.constituents[0].1;
        depth += 1;
    }
    assert_eq!(depth, 101);
    assert!(matches!(at.state, DokeNodeState::Error(_)));
    assert!(at.constituents.is_empty());
}
