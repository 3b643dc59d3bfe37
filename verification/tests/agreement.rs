use doke::numbers::{check_float, int_chars, parse_decimal};
use doke::parsers::grammar::strip_types;
use doke::parsers::primitive::{is_basic_type, parse_bool};
use doke::parsers::render::perform_format_string;
use doke::parsers::substitute;
use doke::parsers::template::build_regex_for_phrase;
use doke::semantic::GodotValue;
use doke::text::{chars_of, string_of, trim_chars};
use regex::Regex;

const SAMPLES: [&str; 24] = [
    "",
    "plain text",
    "{a}",
    "{a} and {b}",
    "{a: int} to {b : Target}",
    "{}",
    "{{a}",
    "{a}}",
    "{a:}",
    "{:a}",
    "{a b}",
    "{a-b}",
    "{open",
    "close}",
    "{x}{y}{z}",
    "a {n} b {missing} c {N}",
    "{ spaced }",
    "{a:b:c}",
    "{a\n}",
    "{é}",
    "x{a: int",
    "{a }: {b}",
    "{n}{",
    "}{n}{",
];

fn front() -> Vec<(String, GodotValue)> {
    vec![
        ("n".to_string(), GodotValue::Int(7)),
        ("a".to_string(), GodotValue::String("A".to_string())),
        ("a b".to_string(), GodotValue::Bool(false)),
        ("é".to_string(), GodotValue::String("e".to_string())),
    ]
}

#[test]
fn format_strings_agree_with_their_pattern() {
    let re = Regex::new(r"\{([^}]+)\}").unwrap();
    let params = vec![("b".to_string(), GodotValue::Int(2)), ("n".to_string(), GodotValue::Int(1))];
    let front = front();
    for fmt in SAMPLES {
        let mut expected = String::new();
        let mut last = 0;
        for cap in re.captures_iter(fmt) {
            let m = cap.get(0).unwrap();
            let key = cap.get(1).unwrap().as_str();
            expected.push_str(&fmt[last..m.start()]);
            let text = params
                .iter()
                .chain(front.iter())
                .find(|(k, _)| k == key)
                .map(|(_, v)| match v {
                    GodotValue::Int(i) => i.to_string(),
                    GodotValue::String(s) => s.clone(),
                    GodotValue::Bool(b) => b.to_string(),
                    _ => unreachable!(),
                });
            expected.push_str(&text.unwrap_or(m.as_str().to_string()));
            last = m.end();
        }
        expected.push_str(&fmt[last..]);
        assert_eq!(perform_format_string(fmt, &params, &front), expected, "{:?}", fmt);
    }
}

#[test]
fn statements_are_filled_as_their_pattern_says() {
    let re = Regex::new(r"\{([a-zA-Z0-9_ ]+)\}").unwrap();
    let front = front();
    for statement in SAMPLES {
        let expected = re.replace_all(statement, |caps: &regex::Captures| {
            let key = caps[1].to_lowercase().replace(' ', "_");
            let found = front
                .iter()
                .rev()
                .find(|(k, _)| k.to_lowercase().replace(' ', "_") == key)
                .map(|(_, v)| match v {
                    GodotValue::Int(i) => i.to_string(),
                    GodotValue::String(s) => s.clone(),
                    GodotValue::Bool(b) => b.to_string(),
                    _ => unreachable!(),
                });
            found.unwrap_or(format!("{{{}}}", &caps[1]))
        });
        assert_eq!(substitute(statement, &front), expected, "{:?}", statement);
    }
}

#[test]
fn types_are_stripped_as_their_pattern_says() {
    let re = Regex::new(r"\{([^}:]+)(?:\s*:\s*[^}]*)?\}").unwrap();
    for template in SAMPLES {
        assert_eq!(strip_types(template), re.replace_all(template, "{$1}"), "{:?}", template);
    }
}

#[test]
fn parameters_of_well_formed_templates_are_those_of_the_pattern() {
    let re = Regex::new(r"\{([^}:]+)(?::([^}]+))?\}").unwrap();
    for template in [
        "plain text",
        "{a}",
        "{a} and {b}",
        "{a: int} to {b : Target}",
        "{a b}",
        "{a-b}",
        "{x}{y}{z}",
        "{ spaced }",
        "{a:b:c}",
        "{é}",
        "Deals {damage: int} damage to {target: Target}",
    ] {
        let (_, params) = build_regex_for_phrase(template).unwrap();
        let expected: Vec<(String, String)> = re
            .captures_iter(template)
            .map(|cap| {
                (
                    cap.get(1).unwrap().as_str().trim().to_string(),
                    cap.get(2).map(|m| m.as_str().trim().to_string()).unwrap_or("string".to_string()),
                )
            })
            .collect();
        let found: Vec<(String, String)> =
            params.into_iter().map(|p| (p.name, p.param_type)).collect();
        assert_eq!(found, expected, "{:?}", template);
    }
}

#[test]
fn numbers_and_words_agree_with_the_standard_library() {
    for text in [
        "0", "-0", "+5", "007", "12345678901234567890", "-9223372036854775808", "9223372036854775807",
        "", "-", "+", "1 ", " 1", "1_0", "0x10", "١٢", "1e3", "--1", "+-1",
    ] {
        assert_eq!(parse_decimal(&chars_of(text)).ok(), text.parse::<i64>().ok(), "{:?}", text);
    }
    for i in [0i64, 1, -1, 9, 10, -10, 99, 100, 4096, i64::MAX, i64::MIN, i64::MIN + 1] {
        assert_eq!(string_of(&int_chars(i)), i.to_string());
    }
    for text in [
        "1", "1.", ".5", "1.5", "-1.5e10", "+1E-2", "1e+5", "", ".", "e", "1e", "1.e3", ".e3", "1.5.2",
        "1e5.5", "0x1p3", "1_0.0", " 1.0", "1.0 ", "١.٥", "+", "-.", "5e", "5e+",
    ] {
        assert_eq!(check_float(&chars_of(text)), text.parse::<f64>().is_ok(), "{:?}", text);
    }
    for text in ["  a b  ", "\t\n x \r\n", "\u{a0}x\u{3000}", "", "   ", "x", " é "] {
        assert_eq!(string_of(&trim_chars(&chars_of(text))), text.trim(), "{:?}", text);
    }
    for word in ["int", "INT", "Int", "float", "bOOl", "STRING", "\u{130}NT", "ınt", "strıng", "ſtring", "boo\u{212a}"] {
        let lower = word.to_lowercase();
        let expected = matches!(lower.as_str(), "int" | "float" | "bool" | "string");
        assert_eq!(is_basic_type(word), expected, "{:?}", word);
    }
    for word in ["true", "TRUE", "Yes", "1", "false", "NO", "0", "maybe", "tru\u{212a}", "ye\u{17f}"] {
        let lower = word.to_lowercase();
        let expected = match lower.as_str() {
            "true" | "yes" | "1" => Some(true),
            "false" | "no" | "0" => Some(false),
            _ => None,
        };
        assert_eq!(parse_bool(&chars_of(word)), expected, "{:?}", word);
    }
}
