use doke::base_parser::Position;
use doke::parsers::debug::DebugPrinter;
use doke::parsers::errors::SentenceParseError;
use doke::parsers::phrase::{PhraseConfig, ReturnSpec, phrase_specificity};
use doke::parsers::primitive::{is_basic_type, parse_basic_parameter};
use doke::parsers::render::perform_format_string;
use doke::parsers::sentence::{SentenceParser, match_phrase_exact, normalize_statement};
use doke::parsers::template::{ParameterDefinition, build_regex_for_phrase, split_trailing_ws};
use doke::semantic::{
    get_field, DokeNode, DokeNodeState, DokeValidate, DokeValidationError, GodotValue, Hypothesis,
    ResolvedValue,
};

fn unresolved(statement: &str) -> DokeNode {
    DokeNode {
        statement: statement.to_string(),
        state: DokeNodeState::Unresolved,
        children: Vec::new(),
        parse_data: Vec::new(),
        constituents: Vec::new(),
        span: Position { start: 0, end: 0 },
    }
}

// Process a statement and return the resolved value directly.
fn resolve_node(
    parser: &SentenceParser,
    statement: &str,
    frontmatter: Vec<(String, GodotValue)>,
) -> GodotValue {
    let mut node = unresolved(statement);
    parser.process(&mut node, &frontmatter);
    let debug_printer = DebugPrinter;
    println!("{}", debug_printer.process(&node));
    let mut roots = vec![node];
    let result =
        DokeValidate::validate_tree(&mut roots, &frontmatter).expect("Validation failed");
    result.into_iter().next().unwrap()
}

fn resource(v: GodotValue) -> Option<(String, Vec<(String, GodotValue)>)> {
    match v {
        GodotValue::Resource { resource_type, fields } => Some((resource_type, fields)),
        _ => None,
    }
}

#[test]
fn test_nested_reaction_effect() {
    let yaml = r#"
DamageEffect:
  - "Deals {damage: int}"

ReactionEffect:
  - "When hit: {damage_effect: DamageEffect}"
"#;
    let parser = SentenceParser::from_yaml(yaml).unwrap();
    let val = resolve_node(&parser, "When hit: Deals 7", Vec::new());

    if let GodotValue::Resource { resource_type, fields } = val {
        assert_eq!(resource_type, "ReactionEffect");
        if let GodotValue::Resource { resource_type: inner_type, fields: inner_fields } =
            get_field(&fields, "damage_effect").unwrap().clone()
        {
            assert_eq!(inner_type, "DamageEffect");
            assert_eq!(get_field(&inner_fields, "damage"), Some(&GodotValue::Int(7)));
        } else {
            panic!("Expected inner DamageEffect resource");
        }
    } else {
        panic!("Expected Resource");
    }
}

#[test]
fn test_multiple_effects_in_one_vocab() {
    let yaml = r#"
DamageEffect:
  - "Deals {damage: int}"

HealEffect:
  - "Heals {amount: int}"

ComboEffect:
  - "First: {dmg: DamageEffect}, Then: {heal: HealEffect}"
"#;
    let parser = SentenceParser::from_yaml(yaml).unwrap();
    let val = resolve_node(&parser, "First: Deals 10, Then: Heals 5", Vec::new());

    if let GodotValue::Resource { resource_type, fields } = val {
        assert_eq!(resource_type, "ComboEffect");
        if let GodotValue::Resource { resource_type: dmg_type, fields: dmg_fields } =
            get_field(&fields, "dmg").unwrap().clone()
        {
            assert_eq!(dmg_type, "DamageEffect");
            assert_eq!(get_field(&dmg_fields, "damage"), Some(&GodotValue::Int(10)));
        } else {
            panic!("Expected DamageEffect");
        }
        if let GodotValue::Resource { resource_type: heal_type, fields: heal_fields } =
            get_field(&fields, "heal").unwrap().clone()
        {
            assert_eq!(heal_type, "HealEffect");
            assert_eq!(get_field(&heal_fields, "amount"), Some(&GodotValue::Int(5)));
        } else {
            panic!("Expected HealEffect");
        }
    } else {
        panic!("Expected Resource");
    }
}

#[test]
fn test_nested_combo_with_reaction() {
    let yaml = r#"
DamageEffect:
  - "Deals {damage: int}"

HealEffect:
  - "Heals {amount: int}"

ReactionEffect:
  - "When hit: {damage_effect: DamageEffect}"

ComboEffect:
  - "First: {dmg: DamageEffect}, Then: {heal: HealEffect}, Reaction: {reaction: ReactionEffect}"
"#;

    let parser = SentenceParser::from_yaml(yaml).unwrap();
    let val = resolve_node(
        &parser,
        "First: Deals 10, Then: Heals 5, Reaction: When hit: Deals 2",
        Vec::new(),
    );

    if let GodotValue::Resource { resource_type, fields } = val {
        assert_eq!(resource_type, "ComboEffect");

        if let GodotValue::Resource { resource_type: dmg_type, fields: dmg_fields } =
            get_field(&fields, "dmg").unwrap().clone()
        {
            assert_eq!(dmg_type, "DamageEffect");
            assert_eq!(get_field(&dmg_fields, "damage"), Some(&GodotValue::Int(10)));
        } else {
            panic!("Expected DamageEffect");
        }

        if let GodotValue::Resource { resource_type: heal_type, fields: heal_fields } =
            get_field(&fields, "heal").unwrap().clone()
        {
            assert_eq!(heal_type, "HealEffect");
            assert_eq!(get_field(&heal_fields, "amount"), Some(&GodotValue::Int(5)));
        } else {
            panic!("Expected HealEffect");
        }

        if let GodotValue::Resource { resource_type: reaction_type, fields: reaction_fields } =
            get_field(&fields, "reaction").unwrap().clone()
        {
            assert_eq!(reaction_type, "ReactionEffect");

            if let GodotValue::Resource { resource_type: inner_type, fields: inner_fields } =
                get_field(&reaction_fields, "damage_effect").unwrap().clone()
            {
                assert_eq!(inner_type, "DamageEffect");
                assert_eq!(get_field(&inner_fields, "damage"), Some(&GodotValue::Int(2)));
            } else {
                panic!("Expected inner DamageEffect");
            }
        } else {
            panic!("Expected ReactionEffect");
        }
    } else {
        panic!("Expected ComboEffect");
    }
}

#[test]
fn test_multi_level_reactions() {
    let yaml = r#"
DamageEffect:
  - "Deals {damage: int}"

ReactionEffect:
  - "On hit: {damage_effect: DamageEffect}"

SuperReactionEffect:
  - "Triggered: {reaction: ReactionEffect}"
"#;

    let parser = SentenceParser::from_yaml(yaml).unwrap();
    let val = resolve_node(&parser, "Triggered: On hit: Deals 7", Vec::new());

    if let GodotValue::Resource { resource_type, fields } = val {
        assert_eq!(resource_type, "SuperReactionEffect");
        if let GodotValue::Resource { resource_type: reaction_type, fields: reaction_fields } =
            get_field(&fields, "reaction").unwrap().clone()
        {
            assert_eq!(reaction_type, "ReactionEffect");
            if let GodotValue::Resource { resource_type: inner_type, fields: inner_fields } =
                get_field(&reaction_fields, "damage_effect").unwrap().clone()
            {
                assert_eq!(inner_type, "DamageEffect");
                assert_eq!(get_field(&inner_fields, "damage"), Some(&GodotValue::Int(7)));
            } else {
                panic!("Expected inner DamageEffect");
            }
        } else {
            panic!("Expected ReactionEffect");
        }
    } else {
        panic!("Expected SuperReactionEffect");
    }
}

#[test]
fn deals_42_gives_a_damage_effect() {
    let parser = SentenceParser::from_yaml("DamageEffect:\n  - \"Deals {damage: int}\"\n").unwrap();
    assert_eq!(
        resolve_node(&parser, "Deals 42.", Vec::new()),
        GodotValue::Resource {
            resource_type: "DamageEffect".to_string(),
            fields: vec![("damage".to_string(), GodotValue::Int(42))],
        }
    );
}

#[test]
fn nested_sentence_gives_nested_resources_and_nothing_else() {
    let parser = SentenceParser::from_yaml(
        "DamageEffect:\n  - \"Deals {damage: int}\"\nReactionEffect:\n  - \"When hit: {damage_effect: DamageEffect}\"\n",
    )
    .unwrap();
    assert_eq!(
        resolve_node(&parser, "When hit: Deals 7", Vec::new()),
        GodotValue::Resource {
            resource_type: "ReactionEffect".to_string(),
            fields: vec![(
                "damage_effect".to_string(),
                GodotValue::Resource {
                    resource_type: "DamageEffect".to_string(),
                    fields: vec![("damage".to_string(), GodotValue::Int(7))],
                }
            )],
        }
    );
}

#[test]
fn translation_key_stays_with_the_result() {
    let parser = SentenceParser::from_yaml("DamageEffect:\n  - \"Deals {damage: int}\"\n").unwrap();
    let mut node = unresolved("Deals 42.");
    parser.process(&mut node, &Vec::new());
    match &node.state {
        DokeNodeState::Resolved(ResolvedValue::Sentence(result)) => {
            assert_eq!(result.tr_key, parser.phrases[0].make_tr_key());
            assert!(result.tr_key.starts_with("DAMAGE_EFFECT_"));
            assert_eq!(result.parameters, vec![("damage".to_string(), GodotValue::Int(42))]);
        }
        other => panic!("unexpected state {:?}", other),
    }
}

#[test]
fn literal_return_ignores_the_parameters() {
    let parser =
        SentenceParser::from_yaml("MessageEffect:\n  - \"Print Hello\": 'l\"Message\"'\n").unwrap();
    assert_eq!(
        resolve_node(&parser, "Print Hello", Vec::new()),
        GodotValue::String("Message".to_string())
    );
    let with_param = SentenceParser::from_yaml(
        "MessageEffect:\n  - \"Print {what: string}\": 'l\"Message\"'\n",
    )
    .unwrap();
    assert_eq!(
        resolve_node(&with_param, "Print anything", Vec::new()),
        GodotValue::String("Message".to_string())
    );
}

#[test]
fn format_return_fills_in_the_parameters() {
    let parser = SentenceParser::from_yaml(
        "MessageEffect:\n  - \"Print {message: string}\": 'f\"Message {message}\"'\n",
    )
    .unwrap();
    assert_eq!(
        resolve_node(&parser, "Print HelloWorld", Vec::new()),
        GodotValue::String("Message HelloWorld".to_string())
    );
}

#[test]
fn format_falls_back_on_the_front_matter() {
    let parser = SentenceParser::from_yaml(
        "MessageEffect:\n  - \"Print {message: string}\": 'f\"{message} by {author}, {missing}\"'\n",
    )
    .unwrap();
    let front = vec![("author".to_string(), GodotValue::String("Ann".to_string()))];
    assert_eq!(
        resolve_node(&parser, "Print Hi", front),
        GodotValue::String("Hi by Ann, {missing}".to_string())
    );
}

#[test]
fn unmatched_statement_is_one_error_with_its_text() {
    let parser = SentenceParser::from_yaml("DamageEffect:\n  - \"Deals {damage: int}\"\n").unwrap();
    let mut node = unresolved("  Heals 3. ");
    parser.process(&mut node, &Vec::new());
    match &node.state {
        DokeNodeState::Hypothesis(hs) => {
            assert_eq!(hs.len(), 1);
            assert_eq!(hs[0].confidence(), -1);
            assert!(matches!(&hs[0], Hypothesis::Failed(h) if h.statement == "Heals 3"));
        }
        _ => panic!("expected a hypothesis"),
    }
    let mut roots = vec![node];
    let err = DokeValidate::validate_tree(&mut roots, &Vec::new()).unwrap_err();
    match err {
        DokeValidationError::HypothesisPromotionFailed(e, at) => {
            assert_eq!(e, SentenceParseError::NoMatch("Heals 3".to_string()));
            assert_eq!(e.message(), "\"Heals 3\" : No sentence match");
            assert_eq!(at, Position { start: 0, end: 0 });
        }
        other => panic!("unexpected error {:?}", other),
    }
    // the node keeps its hypothesis
    assert!(matches!(roots[0].state, DokeNodeState::Hypothesis(_)));
}

#[test]
fn recursion_ends_at_the_depth_limit() {
    let parser = SentenceParser::from_yaml("A:\n  - \"{inner: A}\"\n").unwrap();
    let mut node = unresolved("again");
    parser.process(&mut node, &Vec::new());
    let mut depth = 0;
    let mut at = &node;
    loop {
        match &at.state {
            DokeNodeState::Resolved(_) => {
                assert_eq!(at.constituents.len(), 1);
                assert_eq!(at.constituents[0].0, "inner");
                at = &at.constituents[0].1;
                depth += 1;
            }
            DokeNodeState::Error(e) => {
                assert_eq!(*e, SentenceParseError::MaxRecursionDepthExceeded("again".to_string()));
                break;
            }
            _ => panic!("unexpected state at depth {}", depth),
        }
    }
    assert_eq!(depth, 101);
    let mut roots = vec![node];
    let err = DokeValidate::validate_tree(&mut roots, &Vec::new()).unwrap_err();
    assert_eq!(
        err,
        DokeValidationError::NodeError(
            "again".to_string(),
            "Max recursion depth exceeded : again".to_string()
        )
    );
}

#[test]
fn depth_beyond_the_limit_is_an_error_at_once() {
    let parser = SentenceParser::from_yaml("A:\n  - \"x\"\n").unwrap();
    let mut node = unresolved("x");
    parser.process_with_depth(&mut node, &Vec::new(), 101);
    assert!(matches!(node.state, DokeNodeState::Error(_)));
    let mut node = unresolved("x");
    parser.process_with_depth(&mut node, &Vec::new(), 100);
    assert!(matches!(node.state, DokeNodeState::Resolved(_)));
}

#[test]
fn template_compiles_to_an_anchored_pattern() {
    let (re, params) =
        build_regex_for_phrase("Deals {damage: int} damage to {target: Target}").unwrap();
    assert_eq!(
        re,
        r"^Deals\s+([-+]?(?:0[bB][01]+|0[oO][0-7]+|0[xX][0-9a-fA-F]+|\d+))\s+damage\s+to\s+(.+?)$"
    );
    assert_eq!(
        params,
        vec![
            ParameterDefinition {
                name: "damage".to_string(),
                param_type: "int".to_string(),
                optional: false
            },
            ParameterDefinition {
                name: "target".to_string(),
                param_type: "Target".to_string(),
                optional: false
            },
        ]
    );
}

#[test]
fn literal_characters_are_escaped() {
    let (re, params) = build_regex_for_phrase("Costs 5$ (net) a+b").unwrap();
    assert_eq!(re, r"^Costs\s+5\$\s+\(net\)\s+a\+b$");
    assert!(params.is_empty());
}

#[test]
fn template_without_placeholder_matches_only_its_text() {
    let parser = SentenceParser::from_yaml("Effect:\n  - \"Does   Stuff now\"\n").unwrap();
    let phrase = &parser.phrases[0];
    assert_eq!(phrase.regex, r"^Does\s+Stuff\s+now$");
    assert!(match_phrase_exact("Does Stuff now", phrase).is_ok());
    assert!(match_phrase_exact("Does \t Stuff  now", phrase).is_ok());
    assert_eq!(
        match_phrase_exact("Does Stuff now!", phrase),
        Err(SentenceParseError::NoMatch("Does   Stuff now".to_string()))
    );
    assert!(match_phrase_exact("DoesStuff now", phrase).is_err());
    assert!(match_phrase_exact("It Does Stuff now", phrase).is_err());
    assert!(match_phrase_exact("does stuff now", phrase).is_err());
}

#[test]
fn optional_parameter_may_be_left_out() {
    let (re, params) = build_regex_for_phrase("Attack {target:?: Target}").unwrap();
    assert_eq!(re, r"^Attack(?:\s+(.+?))?$");
    assert_eq!(
        params,
        vec![ParameterDefinition {
            name: "target".to_string(),
            param_type: "Target".to_string(),
            optional: true
        }]
    );
    let (re, params) = build_regex_for_phrase("Wait {turns:?}").unwrap();
    assert_eq!(re, r"^Wait(?:\s+(.+?))?$");
    assert_eq!(params[0].param_type, "string");
    assert!(params[0].optional);

    let parser = SentenceParser::from_yaml("Wait:\n  - \"Wait {turns:?: int}\"\n").unwrap();
    let (_, fields) = resource(resolve_node(&parser, "Wait 3", Vec::new())).unwrap();
    assert_eq!(get_field(&fields, "turns"), Some(&GodotValue::Int(3)));
    let (_, fields) = resource(resolve_node(&parser, "Wait", Vec::new())).unwrap();
    assert_eq!(get_field(&fields, "turns"), None);
}

#[test]
fn malformed_templates_are_refused() {
    for bad in ["Deals {damage", "Deals damage}", "Deals {}", "Deals {a {b}}", "Deals {a: }", "x { : int}", "{a:?: }"] {
        assert_eq!(
            build_regex_for_phrase(bad),
            Err(SentenceParseError::InvalidPattern(bad.to_string())),
            "{}",
            bad
        );
    }
    assert!(matches!(
        SentenceParser::from_yaml("A:\n  - \"ok\"\n  - \"Deals {damage\"\n"),
        Err(SentenceParseError::InvalidPattern(_))
    ));
}

#[test]
fn pattern_that_is_too_big_is_refused_by_the_regex_crate() {
    let template = "{a: int} ".repeat(20000);
    match build_regex_for_phrase(&template) {
        Err(SentenceParseError::RegexError(pattern, message)) => {
            assert!(pattern.starts_with("^([-+]?"));
            assert!(!message.is_empty());
            assert_ne!(message, pattern);
        }
        other => panic!("expected a regex error, got {:?}", other.map(|r| r.1.len())),
    }
}

#[test]
fn trailing_white_space_is_split_off() {
    assert_eq!(split_trailing_ws("Attack  "), ("Attack", true));
    assert_eq!(split_trailing_ws("Attack"), ("Attack", false));
    assert_eq!(split_trailing_ws(" a b"), (" a b", false));
    assert_eq!(split_trailing_ws("   "), ("", true));
    assert_eq!(split_trailing_ws(""), ("", false));
}

#[test]
fn statement_loses_one_final_mark() {
    assert_eq!(normalize_statement("  Deals 42.  "), "Deals 42");
    assert_eq!(normalize_statement("When hit:"), "When hit");
    assert_eq!(normalize_statement("Wait..."), "Wait..");
    assert_eq!(normalize_statement("."), "");
    assert_eq!(normalize_statement(" \t "), "");
}

#[test]
fn basic_types_ignore_case() {
    assert!(is_basic_type("int"));
    assert!(is_basic_type("Float"));
    assert!(is_basic_type("BOOL"));
    assert!(is_basic_type("String"));
    assert!(!is_basic_type("Target"));
    assert!(!is_basic_type("integer"));
    assert!(!is_basic_type(""));
}

#[test]
fn integers_parse_in_every_radix() {
    let int = |s: &str| parse_basic_parameter(s, "int");
    assert_eq!(int("42"), Ok(GodotValue::Int(42)));
    assert_eq!(int("-42"), Ok(GodotValue::Int(-42)));
    assert_eq!(int("+7"), Ok(GodotValue::Int(7)));
    assert_eq!(int("0b101"), Ok(GodotValue::Int(5)));
    assert_eq!(int("0O17"), Ok(GodotValue::Int(15)));
    assert_eq!(int("0xff"), Ok(GodotValue::Int(255)));
    assert_eq!(int("-0X1F"), Ok(GodotValue::Int(-31)));
    assert_eq!(int("9223372036854775807"), Ok(GodotValue::Int(i64::MAX)));
    assert_eq!(int("-9223372036854775808"), Ok(GodotValue::Int(i64::MIN)));
    assert_eq!(int("9223372036854775808"), Err("number does not fit in 64 bits".to_string()));
    assert_eq!(int("-9223372036854775809"), Err("number does not fit in 64 bits".to_string()));
    assert_eq!(int("12a"), Err("invalid digit found in string".to_string()));
    assert_eq!(int("0b12"), Err("invalid digit found in string".to_string()));
    assert_eq!(int(""), Err("invalid digit found in string".to_string()));
    assert_eq!(int("-"), Err("invalid digit found in string".to_string()));
    assert_eq!(int("0x"), Err("invalid digit found in string".to_string()));
}

#[test]
fn floats_bools_and_strings_parse() {
    let float = |s: &str| parse_basic_parameter(s, "float");
    for good in ["3.14", "-2.", ".5", "10", "1e9", "6.02E+23", "+.5e-3"] {
        assert_eq!(float(good), Ok(GodotValue::Float(good.to_string())));
        assert!(good.parse::<f64>().is_ok());
    }
    for bad in ["", ".", "1e", "e5", "1.2.3", "--1", "1 ", "inf"] {
        assert_eq!(float(bad), Err("invalid float literal".to_string()), "{}", bad);
    }
    let boolean = |s: &str| parse_basic_parameter(s, "Bool");
    for yes in ["true", "YES", "1", "True"] {
        assert_eq!(boolean(yes), Ok(GodotValue::Bool(true)));
    }
    for no in ["false", "No", "0"] {
        assert_eq!(boolean(no), Ok(GodotValue::Bool(false)));
    }
    assert_eq!(boolean("maybe"), Err("Invalid boolean value: maybe".to_string()));
    assert_eq!(
        parse_basic_parameter("some text", "STRING"),
        Ok(GodotValue::String("some text".to_string()))
    );
    assert_eq!(
        parse_basic_parameter("x", "Target"),
        Err("Unknown basic type: Target".to_string())
    );
}

#[test]
fn failed_primitive_is_recorded_and_left_out() {
    let parser = SentenceParser::from_yaml("Big:\n  - \"Big {n: int}\"\n").unwrap();
    let mut node = unresolved("Big 99999999999999999999");
    parser.process(&mut node, &Vec::new());
    assert_eq!(
        get_field(&node.parse_data, "n_error"),
        Some(&GodotValue::String("number does not fit in 64 bits".to_string()))
    );
    let mut roots = vec![node];
    let values = DokeValidate::validate_tree(&mut roots, &Vec::new()).unwrap();
    let (ty, fields) = resource(values[0].clone()).unwrap();
    assert_eq!(ty, "Big");
    assert_eq!(get_field(&fields, "n"), None);
}

fn phrase(pattern: &str) -> PhraseConfig {
    let (regex, parameters) = build_regex_for_phrase(pattern).unwrap();
    PhraseConfig {
        pattern: pattern.to_string(),
        regex,
        parameters,
        return_spec: ReturnSpec::Type("T".to_string()),
        section: "T".to_string(),
    }
}

#[test]
fn specificity_counts_literal_weight() {
    // 19 characters, one parameter that costs 6 + 3 + 4
    assert_eq!(phrase_specificity(&phrase("Deals {damage: int}")), (6, usize::MAX - 1));
    assert_eq!(phrase_specificity(&phrase("Deals damage")), (12, usize::MAX));
    // the weight never falls below zero
    assert_eq!(phrase_specificity(&phrase("{a}{b}")), (0, usize::MAX - 2));
    assert!(phrase_specificity(&phrase("Deals damage")) > phrase_specificity(&phrase("Deals {damage: int}")));
}

#[test]
fn the_more_specific_sentence_wins() {
    let yaml = "Any:\n  - \"{what: string}\"\nHit:\n  - \"Hit {who: string} hard\"\nHit2:\n  - \"Hit {who: string} very hard\"\n";
    let parser = SentenceParser::from_yaml(yaml).unwrap();
    let (ty, _) = resource(resolve_node(&parser, "Hit Bob very hard", Vec::new())).unwrap();
    assert_eq!(ty, "Hit2");
    let (ty, fields) = resource(resolve_node(&parser, "Hit Bob hard", Vec::new())).unwrap();
    assert_eq!(ty, "Hit");
    assert_eq!(get_field(&fields, "who"), Some(&GodotValue::String("Bob".to_string())));
    let (ty, _) = resource(resolve_node(&parser, "Something else", Vec::new())).unwrap();
    assert_eq!(ty, "Any");
}

#[test]
fn of_equally_specific_sentences_the_last_wins() {
    let yaml = "First:\n  - \"Go {a: string}\"\nSecond:\n  - \"Go {b: string}\"\n";
    let parser = SentenceParser::from_yaml(yaml).unwrap();
    assert_eq!(parser.select("Go home", &None).unwrap().0, 1);
    let (ty, _) = resource(resolve_node(&parser, "Go home", Vec::new())).unwrap();
    assert_eq!(ty, "Second");
}

#[test]
fn enum_section_resolves_without_a_constituent() {
    let yaml = "enum Target:\n  - self\n  - \"all enemies\": 3\nAttack:\n  - \"Attack {target: Target}\"\n";
    let parser = SentenceParser::from_yaml(yaml).unwrap();
    assert!(parser.phrases.len() == 1 && parser.type_patterns.len() == 1);
    assert_eq!(parser.enum_lookup("Target", "self"), Some(GodotValue::String("self".to_string())));
    assert_eq!(parser.enum_lookup("Target", "Self"), None);
    let mut node = unresolved("Attack all enemies");
    parser.process(&mut node, &Vec::new());
    assert!(node.constituents.is_empty());
    let mut roots = vec![node];
    let (_, fields) = resource(DokeValidate::validate_tree(&mut roots, &Vec::new()).unwrap().remove(0)).unwrap();
    assert_eq!(get_field(&fields, "target"), Some(&GodotValue::Int(3)));
    // a text that the table does not hold becomes a constituent
    let mut node = unresolved("Attack the moon");
    parser.process(&mut node, &Vec::new());
    assert_eq!(node.constituents.len(), 1);
    assert_eq!(node.constituents[0].1.statement, "the moon");
}

#[test]
fn malformed_enum_is_refused() {
    assert!(matches!(
        SentenceParser::from_yaml("enum Target:\n  - [a, b]\n"),
        Err(SentenceParseError::InvalidPattern(_))
    ));
    assert!(matches!(
        SentenceParser::from_yaml("enum Target:\n  - self: [1]\n"),
        Err(SentenceParseError::InvalidPattern(_))
    ));
}

#[test]
fn grammar_configuration_errors() {
    assert!(matches!(SentenceParser::from_yaml("a: [unclosed"), Err(SentenceParseError::YamlParseError(m)) if !m.is_empty()));
    assert_eq!(SentenceParser::from_yaml(""), Err(SentenceParseError::EmptyYaml));
    assert_eq!(
        SentenceParser::from_yaml("- just\n- a list\n"),
        Err(SentenceParseError::InvalidPattern("Top-level YAML must be a mapping".to_string()))
    );
    assert_eq!(
        SentenceParser::from_yaml("A:\n  - 3: x\n"),
        Err(SentenceParseError::InvalidPattern("Phrase key must be string".to_string()))
    );
    assert_eq!(
        SentenceParser::from_yaml("A:\n  - \"go\": [1, 2]\n"),
        Err(SentenceParseError::InvalidPattern("Unsupported RHS".to_string()))
    );
}

#[test]
fn right_hand_sides_are_read() {
    let yaml = "A:\n  - \"a\": 'l\"lit\"'\n  - \"b\": 'f\"{x}!\"'\n  - \"c\": \"12\"\n  - \"d\": 7\n  - \"e\": \"2.5\"\n  - \"f\": 1.5\n  - \"g\": \"yes\"\n  - \"h\": false\n  - \"i\": Other\n  - \"j\":\n  - \"k\": ' Spaced '\n";
    let parser = SentenceParser::from_yaml(yaml).unwrap();
    let specs: Vec<&ReturnSpec> = parser.phrases.iter().map(|p| &p.return_spec).collect();
    assert_eq!(*specs[0], ReturnSpec::Literal(GodotValue::String("lit".to_string())));
    assert_eq!(*specs[1], ReturnSpec::Format("{x}!".to_string()));
    assert_eq!(*specs[2], ReturnSpec::Literal(GodotValue::Int(12)));
    assert_eq!(*specs[3], ReturnSpec::Literal(GodotValue::Int(7)));
    assert_eq!(*specs[4], ReturnSpec::Literal(GodotValue::Float("2.5".to_string())));
    assert_eq!(*specs[5], ReturnSpec::Literal(GodotValue::Float("1.5".to_string())));
    assert_eq!(*specs[6], ReturnSpec::Literal(GodotValue::Bool(true)));
    assert_eq!(*specs[7], ReturnSpec::Literal(GodotValue::Bool(false)));
    assert_eq!(*specs[8], ReturnSpec::Type("Other".to_string()));
    assert_eq!(*specs[9], ReturnSpec::Type("A".to_string()));
    assert_eq!(*specs[10], ReturnSpec::Type("Spaced".to_string()));
}

#[test]
fn format_string_leaves_unknown_placeholders() {
    let params = vec![
        ("n".to_string(), GodotValue::Int(-5)),
        ("list".to_string(), GodotValue::Array(vec![GodotValue::Bool(true), GodotValue::Nil, GodotValue::Float("1.5".to_string())])),
    ];
    let front = vec![
        ("n".to_string(), GodotValue::Int(1)),
        ("who".to_string(), GodotValue::Resource { resource_type: "P".to_string(), fields: vec![("hp".to_string(), GodotValue::Int(3))] }),
        ("d".to_string(), GodotValue::Dict(vec![("a".to_string(), GodotValue::Int(1)), ("b".to_string(), GodotValue::String("x".to_string()))])),
    ];
    assert_eq!(
        perform_format_string("{n} {list} {who} {d} {} {x} {open", &params, &front),
        "-5 [true, , 1.5] Resource(type=P,hp=3) {a:1, b:x} {} {x} {open"
    );
    assert_eq!(perform_format_string("", &params, &front), "");
    assert_eq!(perform_format_string("{{n}", &params, &front), "{{n}");
}

#[test]
fn translation_key_depends_on_section_and_template() {
    let a = phrase("Deals {damage: int}");
    let key = a.make_tr_key();
    assert!(key.starts_with("T_"));
    assert_eq!(key.len(), 2 + 7);
    assert!(key[2..].chars().all(|c| c.is_ascii_uppercase() || ('2'..='7').contains(&c)));
    assert_eq!(key, phrase("Deals {damage: int}").make_tr_key());
    assert_ne!(key, phrase("Deals {damage: float}").make_tr_key());
    let mut other = phrase("Deals {damage: int}");
    other.section = "damageEffect".to_string();
    assert!(other.make_tr_key().starts_with("DAMAGE_EFFECT_"));
    assert_eq!(other.make_tr_key()[14..], key[2..]);
}

#[test]
fn expected_type_restricts_the_sentences() {
    let yaml = "Attack:\n  - \"Attack {target: Target}\"\nTarget:\n  - \"{name: string}\"\nPlace:\n  - \"the {where: string}\"\nOther:\n  - \"the moon\": Target\n";
    let parser = SentenceParser::from_yaml(yaml).unwrap();
    // without a hint the most specific sentence wins
    let (ty, _) = resource(resolve_node(&parser, "the cave", Vec::new())).unwrap();
    assert_eq!(ty, "Place");
    // the captured text is expected to be a Target: only sentences of that
    // section, or that return that type, are tried
    let (_, fields) = resource(resolve_node(&parser, "Attack the cave", Vec::new())).unwrap();
    match get_field(&fields, "target") {
        Some(GodotValue::Resource { resource_type, fields }) => {
            assert_eq!(resource_type, "Target");
            assert_eq!(get_field(fields, "name"), Some(&GodotValue::String("the cave".to_string())));
        }
        other => panic!("unexpected target {:?}", other),
    }
    let (_, fields) = resource(resolve_node(&parser, "Attack the moon", Vec::new())).unwrap();
    match get_field(&fields, "target") {
        Some(GodotValue::Resource { resource_type, fields }) => {
            assert_eq!(resource_type, "Target");
            assert_eq!(get_field(fields, "name"), None);
        }
        other => panic!("unexpected target {:?}", other),
    }
    let mut hinted = unresolved("the cave");
    hinted.parse_data.push(("sentence_type".to_string(), GodotValue::String("Nothing".to_string())));
    parser.process(&mut hinted, &Vec::new());
    assert!(matches!(hinted.state, DokeNodeState::Hypothesis(_)));
}
