use doke::base_parser::Position;
use doke::parsers::errors::SentenceParseError;
use doke::parsers::sentence::{ErrorHypo, SentenceResult};
use doke::semantic::{
    best_hypothesis, get_field, set_field, DokeErrors, DokeNode, DokeNodeState, DokeValidate,
    DokeValidationError, GodotValue, GodotValueError, Hypothesis, ResolvedValue,
};

fn node(statement: &str, state: DokeNodeState) -> DokeNode {
    DokeNode {
        statement: statement.to_string(),
        state,
        children: Vec::new(),
        parse_data: Vec::new(),
        constituents: Vec::new(),
        span: Position { start: 3, end: 9 },
    }
}

fn value(v: GodotValue) -> DokeNodeState {
    DokeNodeState::Resolved(ResolvedValue::Value(v))
}

fn text(s: &str) -> GodotValue {
    GodotValue::String(s.to_string())
}

#[test]
fn kinds_have_their_names() {
    assert_eq!(GodotValue::Nil.kind(), "Null");
    assert_eq!(GodotValue::Bool(true).kind(), "Bool");
    assert_eq!(GodotValue::Int(1).kind(), "Int");
    assert_eq!(GodotValue::Float("1.5".to_string()).kind(), "Float");
    assert_eq!(text("x").kind(), "String");
    assert_eq!(GodotValue::Array(vec![]).kind(), "Array");
    assert_eq!(GodotValue::Dict(vec![]).kind(), "Dict");
    assert_eq!(GodotValue::Resource { resource_type: "T".to_string(), fields: vec![] }.kind(), "Resource");
}

#[test]
fn clone_is_equal() {
    let v = GodotValue::Resource {
        resource_type: "T".to_string(),
        fields: vec![
            ("a".to_string(), GodotValue::Array(vec![GodotValue::Int(1), GodotValue::Nil])),
            ("b".to_string(), GodotValue::Dict(vec![("k".to_string(), text("v"))])),
        ],
    };
    assert_eq!(v.clone(), v);
    assert_eq!(v.to_godot(), v);
}

#[test]
fn scalars_take_no_child() {
    for (mut v, name) in [
        (GodotValue::Nil, "Null"),
        (GodotValue::Bool(false), "Bool"),
        (GodotValue::Int(3), "Int"),
        (GodotValue::Float("0.5".to_string()), "Float"),
        (text("s"), "String"),
    ] {
        let before = v.clone();
        let err = v.use_child(GodotValue::Int(1)).unwrap_err();
        assert_eq!(err, GodotValueError::InvalidChild(name.to_string()));
        assert_eq!(err.message(), format!("Tried to add a child to a {}", name));
        assert_eq!(v, before);
    }
}

#[test]
fn containers_take_children() {
    let mut a = GodotValue::Array(vec![GodotValue::Int(1)]);
    a.use_child(text("x")).unwrap();
    assert_eq!(a, GodotValue::Array(vec![GodotValue::Int(1), text("x")]));

    let mut d = GodotValue::Dict(vec![("a".to_string(), GodotValue::Int(1))]);
    d.use_child(text("x")).unwrap();
    d.use_child(text("y")).unwrap();
    assert_eq!(
        d,
        GodotValue::Dict(vec![("a".to_string(), GodotValue::Int(1)), ("children".to_string(), text("y"))])
    );

    let mut r = GodotValue::Resource { resource_type: "T".to_string(), fields: vec![] };
    r.use_child(text("x")).unwrap();
    r.use_child(text("y")).unwrap();
    assert_eq!(
        r,
        GodotValue::Resource {
            resource_type: "T".to_string(),
            fields: vec![("children".to_string(), GodotValue::Array(vec![text("x"), text("y")]))],
        }
    );

    let mut bad = GodotValue::Resource {
        resource_type: "T".to_string(),
        fields: vec![("children".to_string(), GodotValue::Int(1))],
    };
    let before = bad.clone();
    assert_eq!(
        bad.use_child(text("x")),
        Err(GodotValueError::InvalidChild(
            "Can't add child to resource : children field is not empty or an array".to_string()
        ))
    );
    assert_eq!(bad, before);
}

#[test]
fn fields_are_replaced_in_place() {
    let mut fields = vec![("a".to_string(), GodotValue::Int(1)), ("b".to_string(), GodotValue::Int(2))];
    set_field(&mut fields, "a".to_string(), GodotValue::Int(9));
    set_field(&mut fields, "c".to_string(), GodotValue::Int(3));
    assert_eq!(
        fields,
        vec![
            ("a".to_string(), GodotValue::Int(9)),
            ("b".to_string(), GodotValue::Int(2)),
            ("c".to_string(), GodotValue::Int(3))
        ]
    );
    assert_eq!(get_field(&fields, "b"), Some(&GodotValue::Int(2)));
    assert_eq!(get_field(&fields, "B"), None);
}

#[test]
fn sentence_result_merges_children_and_constituents() {
    let mut r = SentenceResult::new_type("T".to_string(), vec![("n".to_string(), GodotValue::Int(1))], "T_KEY".to_string());
    assert_eq!(r.kind(), "SentenceResult");
    r.use_child(text("x")).unwrap();
    r.use_child(text("y")).unwrap();
    r.use_constituent("part", GodotValue::Int(2)).unwrap();
    r.use_constituent("n", GodotValue::Int(5)).unwrap();
    assert_eq!(
        r.to_godot(),
        GodotValue::Resource {
            resource_type: "T".to_string(),
            fields: vec![
                ("n".to_string(), GodotValue::Int(5)),
                ("children".to_string(), GodotValue::Array(vec![text("x"), text("y")])),
                ("part".to_string(), GodotValue::Int(2)),
            ],
        }
    );
    let mut lit = SentenceResult::new_literal(GodotValue::Int(7), vec![], "K".to_string());
    lit.use_child(text("x")).unwrap();
    lit.use_constituent("part", GodotValue::Int(2)).unwrap();
    assert_eq!(lit.to_godot(), GodotValue::Int(7));
    let mut bad = SentenceResult::new_type("T".to_string(), vec![("children".to_string(), GodotValue::Int(1))], "K".to_string());
    assert_eq!(
        bad.use_child(text("x")),
        Err(GodotValueError::InvalidChild("children field is not an array".to_string()))
    );
}

#[test]
fn unresolved_and_error_nodes_fail() {
    let mut roots = vec![node("What is this", DokeNodeState::Unresolved)];
    assert_eq!(
        DokeValidate::validate_tree(&mut roots, &Vec::new()),
        Err(DokeValidationError::UnresolvedNode("What is this".to_string()))
    );
    let mut roots = vec![node("bad", DokeNodeState::Error(SentenceParseError::EmptyYaml))];
    assert_eq!(
        DokeValidate::validate_tree(&mut roots, &Vec::new()),
        Err(DokeValidationError::NodeError("bad".to_string(), "Empty YAML document".to_string()))
    );
    let mut roots = vec![node("empty", DokeNodeState::Hypothesis(vec![]))];
    assert_eq!(
        DokeValidate::validate_tree(&mut roots, &Vec::new()),
        Err(DokeValidationError::UnresolvedNode("empty".to_string()))
    );
}

#[test]
fn every_failing_root_is_reported() {
    let mut roots = vec![
        node("one", value(GodotValue::Int(1))),
        node("two", DokeNodeState::Unresolved),
        node("three", value(GodotValue::Int(3))),
        node("four", DokeNodeState::Error(SentenceParseError::NoMatch("four".to_string()))),
        node("five", DokeNodeState::Unresolved),
    ];
    match DokeValidate::validate_tree(&mut roots, &Vec::new()) {
        Err(DokeValidationError::MultipleErrors(DokeErrors(errors))) => {
            assert_eq!(
                errors,
                vec![
                    DokeValidationError::UnresolvedNode("two".to_string()),
                    DokeValidationError::NodeError(
                        "four".to_string(),
                        "\"four\" : No sentence match".to_string()
                    ),
                    DokeValidationError::UnresolvedNode("five".to_string()),
                ]
            );
        }
        other => panic!("expected several errors, got {:?}", other),
    }
    // exactly one failure is reported by itself
    let mut roots = vec![node("one", value(GodotValue::Int(1))), node("two", DokeNodeState::Unresolved)];
    assert_eq!(
        DokeValidate::validate_tree(&mut roots, &Vec::new()),
        Err(DokeValidationError::UnresolvedNode("two".to_string()))
    );
    // no failure gives every value, in order
    let mut roots = vec![node("one", value(GodotValue::Int(1))), node("two", value(text("b")))];
    assert_eq!(DokeValidate::validate_tree(&mut roots, &Vec::new()), Ok(vec![GodotValue::Int(1), text("b")]));
    let mut none: Vec<DokeNode> = vec![];
    assert_eq!(DokeValidate::validate_tree(&mut none, &Vec::new()), Ok(vec![]));
}

#[test]
fn children_are_merged_in_document_order() {
    let mut root = node("list", value(GodotValue::Array(vec![])));
    root.children.push(node("a", value(GodotValue::Int(1))));
    root.children.push(node("b", value(GodotValue::Int(2))));
    let mut deep = node("c", value(GodotValue::Array(vec![])));
    deep.children.push(node("d", value(GodotValue::Int(4))));
    root.children.push(deep);
    let mut roots = vec![root];
    assert_eq!(
        DokeValidate::validate_tree(&mut roots, &Vec::new()),
        Ok(vec![GodotValue::Array(vec![
            GodotValue::Int(1),
            GodotValue::Int(2),
            GodotValue::Array(vec![GodotValue::Int(4)])
        ])])
    );
    // the result of the node holds what was merged
    assert_eq!(
        roots[0].state,
        value(GodotValue::Array(vec![
            GodotValue::Int(1),
            GodotValue::Int(2),
            GodotValue::Array(vec![GodotValue::Int(4)])
        ]))
    );
}

#[test]
fn first_failure_below_a_node_stops_it() {
    let mut root = node("root", value(GodotValue::Array(vec![])));
    root.children.push(node("a", value(GodotValue::Int(1))));
    root.children.push(node("b", DokeNodeState::Unresolved));
    root.children.push(node("c", DokeNodeState::Unresolved));
    let mut roots = vec![root];
    assert_eq!(
        DokeValidate::validate_tree(&mut roots, &Vec::new()),
        Err(DokeValidationError::UnresolvedNode("b".to_string()))
    );
    // the node's own state was not looked at
    assert_eq!(roots[0].state, value(GodotValue::Array(vec![])));
}

#[test]
fn child_that_cannot_be_taken_is_reported() {
    let mut root = node("root", value(GodotValue::Int(5)));
    root.children.push(node("a", value(GodotValue::Int(1))));
    let mut roots = vec![root];
    assert_eq!(
        DokeValidate::validate_tree(&mut roots, &Vec::new()),
        Err(DokeValidationError::ChildUsageFailed(GodotValueError::InvalidChild("Int".to_string())))
    );
}

#[test]
fn best_hypothesis_is_promoted() {
    let guess = |confidence: i32, v: i64| Hypothesis::Guess {
        confidence,
        result: ResolvedValue::Value(GodotValue::Int(v)),
    };
    let failed = || {
        Hypothesis::Failed(ErrorHypo {
            error: SentenceParseError::NoMatch("x".to_string()),
            statement: "x".to_string(),
        })
    };
    let hs = vec![guess(2, 10), failed(), guess(5, 20), guess(5, 30), guess(1, 40)];
    // of the readings of the greatest confidence the last
    assert_eq!(best_hypothesis(&hs), Some(3));
    assert_eq!(best_hypothesis(&vec![]), None);
    let mut roots = vec![node("x", DokeNodeState::Hypothesis(hs))];
    assert_eq!(DokeValidate::validate_tree(&mut roots, &Vec::new()), Ok(vec![GodotValue::Int(30)]));
    assert_eq!(roots[0].state, value(GodotValue::Int(30)));

    // a failed reading loses against any guess
    let mut roots = vec![node("x", DokeNodeState::Hypothesis(vec![guess(0, 1), failed()]))];
    assert_eq!(DokeValidate::validate_tree(&mut roots, &Vec::new()), Ok(vec![GodotValue::Int(1)]));

    // a failed reading by itself gives its error and stays
    let mut roots = vec![node("x", DokeNodeState::Hypothesis(vec![failed()]))];
    assert_eq!(
        DokeValidate::validate_tree(&mut roots, &Vec::new()),
        Err(DokeValidationError::HypothesisPromotionFailed(
            SentenceParseError::NoMatch("x".to_string()),
            Position { start: 3, end: 9 }
        ))
    );
    assert_eq!(roots[0].state, DokeNodeState::Hypothesis(vec![failed()]));
}

#[test]
fn error_texts() {
    assert_eq!(SentenceParseError::YamlParseError("e".to_string()).message(), "YAML parse error: e");
    assert_eq!(SentenceParseError::EmptyYaml.message(), "Empty YAML document");
    assert_eq!(
        SentenceParseError::RegexError("p".to_string(), "m".to_string()).message(),
        "Regex error for pattern 'p': m"
    );
    assert_eq!(SentenceParseError::InvalidPattern("t".to_string()).message(), "Invalid pattern: t");
    assert_eq!(SentenceParseError::NoMatch("t".to_string()).message(), "\"t\" : No sentence match");
    assert_eq!(
        SentenceParseError::MaxRecursionDepthExceeded("t".to_string()).message(),
        "Max recursion depth exceeded : t"
    );
    assert_eq!(
        SentenceParseError::TranslationWriteError("t".to_string()).message(),
        "Could not read translation file : t"
    );
    let errors: DokeErrors = vec![DokeValidationError::UnresolvedNode("a".to_string())].into();
    assert_eq!(errors.0.len(), 1);
}

fn final_value_of<T: doke::semantic::DokeOut>(result: &T) -> GodotValue {
    result.to_godot()
}

fn promote_any<H: doke::semantic::Hypo>(reading: H) -> (i32, bool) {
    (reading.confidence(), reading.promote().is_ok())
}

#[test]
fn results_and_readings_behind_their_traits() {
    assert_eq!(final_value_of(&GodotValue::Int(3)), GodotValue::Int(3));
    let sentence = SentenceResult::new_literal(text("x"), vec![], "K".to_string());
    assert_eq!(final_value_of(&sentence), text("x"));
    assert_eq!(final_value_of(&ResolvedValue::Sentence(sentence)), text("x"));
    let failed = ErrorHypo { error: SentenceParseError::EmptyYaml, statement: "s".to_string() };
    assert_eq!(failed.kind(), "SentenceParseError");
    assert_eq!(promote_any(failed), (-1, false));
    let guess = Hypothesis::Guess { confidence: 4, result: ResolvedValue::Value(GodotValue::Nil) };
    assert_eq!(promote_any(guess), (4, true));
}
