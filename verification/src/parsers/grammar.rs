//! Loads a grammar from its YAML document, and lists its sentences for
//! translators.

use crate::numbers::{check_float, decimal_literal, int_result, is_float_literal, parse_decimal};
use crate::parsers::errors::{ParseFailure, SentenceParseError, same_failure};
use crate::parsers::phrase::{
    Phrase, PhraseConfig, ReturnSpec, Returned, phrases_view, translation_key,
};
use crate::parsers::primitive::{bool_literal, parse_bool, read_real, real_value};
use crate::parsers::sentence::{Grammar, SentenceParser};
use crate::parsers::template::{build_regex_for_phrase, compiled_template};
use crate::regex_bridge::pattern_compiles;
use crate::semantic::{GodotValue, Value, fields_view, find_key, lemma_key_index_is, upsert};
use crate::text::{
    chars_of, extend_chars, find_char, index_of, same_chars, string_of, sub_vec, trim_chars,
    trimmed,
};
use crate::yaml::{
    YamlNode, YamlValue, lemma_yaml_view, load_documents, scan_error_text, yaml_documents,
    yaml_entries_view, yaml_nodes_view,
};
use vstd::prelude::*;

verus! {

/// The text between the quotes of `mark"..."`, where `t` has that form.
pub open spec fn quoted(t: Seq<char>, mark: char) -> Option<Seq<char>> {
    if t.len() >= 3 && t[0] == mark && t[1] == '"' && t.last() == '"' {
        Some(t.subrange(2, t.len() - 1))
    } else {
        None
    }
}

/// What the right-hand side `node` of an entry in the section `section`
/// says that a sentence produces.
///
/// Nothing: a resource of the section's type. A string `l"..."`: the
/// string between the quotes; `f"..."`: the format between the quotes; a
/// string that reads as a decimal integer, a decimal number or a truth
/// word: that value; any other string: a resource of the type it names.
/// An integer, a float or a boolean: that value. Anything else is refused.
pub open spec fn return_spec_of(node: YamlValue, section: Seq<char>) -> Result<
    Returned,
    ParseFailure,
> {
    match node {
        YamlValue::Null => Ok(Returned::Type(section)),
        YamlValue::String(s) => {
            let t = trimmed(s);
            if quoted(t, 'l') is Some {
                Ok(Returned::Literal(Value::String(quoted(t, 'l').unwrap())))
            } else if quoted(t, 'f') is Some {
                Ok(Returned::Format(quoted(t, 'f').unwrap()))
            } else if int_result(decimal_literal(t)) is Ok {
                Ok(Returned::Literal(Value::Int(int_result(decimal_literal(t)).unwrap() as int)))
            } else if is_float_literal(t) {
                Ok(Returned::Literal(Value::Float(t)))
            } else if bool_literal(t) is Some {
                Ok(Returned::Literal(Value::Bool(bool_literal(t).unwrap())))
            } else {
                Ok(Returned::Type(t))
            }
        },
        YamlValue::Integer(i) => Ok(Returned::Literal(Value::Int(i))),
        YamlValue::Real(r) => Ok(Returned::Literal(real_value(r))),
        YamlValue::Boolean(b) => Ok(Returned::Literal(Value::Bool(b))),
        _ => Err(ParseFailure::InvalidPattern("Unsupported RHS"@)),
    }
}

/// Executable form of [`quoted`].
fn read_quoted(t: &Vec<char>, mark: char) -> (r: Option<String>)
    ensures
        r.deep_view() == quoted(t@, mark),
{
    let n = t.len();
    if n >= 3 && t[0] == mark && t[1] == '"' && t[n - 1] == '"' {
        Some(string_of(&sub_vec(t, 2, n - 1)))
    } else {
        None
    }
}

/// Reads the right-hand side of an entry, as [`return_spec_of`] says.
pub fn parse_rhs_to_return_spec(node: &YamlNode, section_default: &str) -> (r: Result<
    ReturnSpec,
    SentenceParseError,
>)
    ensures
        match return_spec_of(node@, section_default@) {
            Ok(spec) => r matches Ok(found) && found@ == spec,
            Err(f) => r matches Err(e) && e@ == f,
        },
{
    match node {
        YamlNode::Null => Ok(ReturnSpec::Type(String::from_str(section_default))),
        YamlNode::String(s) => {
            let t = trim_chars(&chars_of(s.as_str()));
            if let Some(inner) = read_quoted(&t, 'l') {
                return Ok(ReturnSpec::Literal(GodotValue::String(inner)));
            }
            if let Some(inner) = read_quoted(&t, 'f') {
                return Ok(ReturnSpec::Format(inner));
            }
            if let Ok(i) = parse_decimal(&t) {
                return Ok(ReturnSpec::Literal(GodotValue::Int(i)));
            }
            if check_float(&t) {
                return Ok(ReturnSpec::Literal(GodotValue::Float(string_of(&t))));
            }
            if let Some(b) = parse_bool(&t) {
                return Ok(ReturnSpec::Literal(GodotValue::Bool(b)));
            }
            Ok(ReturnSpec::Type(string_of(&t)))
        },
        YamlNode::Integer(i) => Ok(ReturnSpec::Literal(GodotValue::Int(*i))),
        YamlNode::Real(r) => Ok(ReturnSpec::Literal(read_real(r.as_str()))),
        YamlNode::Boolean(b) => Ok(ReturnSpec::Literal(GodotValue::Bool(*b))),
        _ => Err(SentenceParseError::InvalidPattern(String::from_str("Unsupported RHS"))),
    }
}

/// The phrase that the template `template` of the section `section`
/// compiles to, or why it does not compile.
pub open spec fn phrase_of(template: Seq<char>, section: Seq<char>, ret: Returned) -> Result<
    Phrase,
    ParseFailure,
> {
    match compiled_template(template) {
        None => Err(ParseFailure::InvalidPattern(template)),
        Some((re, params)) => if pattern_compiles(re) {
            Ok(Phrase { pattern: template, regex: re, parameters: params, return_spec: ret, section })
        } else {
            Err(ParseFailure::RegexError(re, Seq::empty()))
        },
    }
}

/// Compiles one template into a phrase, as [`phrase_of`] says.
pub fn compile_phrase(template: &str, section: &str, ret: ReturnSpec) -> (r: Result<
    PhraseConfig,
    SentenceParseError,
>)
    ensures
        match phrase_of(template@, section@, ret@) {
            Ok(p) => r matches Ok(found) && found@ == p,
            Err(f) => r matches Err(e) && same_failure(e@, f),
        },
{
    match build_regex_for_phrase(template) {
        Ok((regex, parameters)) => Ok(
            PhraseConfig {
                pattern: String::from_str(template),
                regex,
                parameters,
                return_spec: ret,
                section: String::from_str(section),
            },
        ),
        Err(e) => Err(e),
    }
}

/// The type that a section named `section` enumerates: the name behind
/// `enum ` where the section's name starts so.
pub open spec fn enum_type_of(section: Seq<char>) -> Option<Seq<char>> {
    let t = trimmed(section.subrange(5, section.len() as int));
    if section.len() > 5 && section.subrange(0, 5) == "enum "@ && t.len() > 0 {
        Some(t)
    } else {
        None
    }
}

/// Executable form of [`enum_type_of`].
pub fn read_enum_type(section: &str) -> (r: Option<String>)
    ensures
        r.deep_view() == enum_type_of(section@),
{
    let s = chars_of(section);
    if s.len() > 5 {
        let head = sub_vec(&s, 0, 5);
        if is_exact_word(&head, "enum ") {
            let t = trim_chars(&sub_vec(&s, 5, s.len()));
            if t.len() > 0 {
                return Some(string_of(&t));
            }
        }
    }
    None
}

/// Whether `s` reads `word`.
fn is_exact_word(s: &Vec<char>, word: &str) -> (r: bool)
    ensures
        r == (s@ == word@),
{
    same_chars(s, &chars_of(word))
}

/// The value of a YAML scalar; `None` for a sequence, a mapping, an alias
/// and a bad value.
pub open spec fn scalar_value(node: YamlValue) -> Option<Value> {
    match node {
        YamlValue::String(s) => Some(Value::String(s)),
        YamlValue::Integer(i) => Some(Value::Int(i)),
        YamlValue::Real(r) => Some(real_value(r)),
        YamlValue::Boolean(b) => Some(Value::Bool(b)),
        YamlValue::Null => Some(Value::Nil),
        _ => None,
    }
}

/// Executable form of [`scalar_value`].
pub fn read_scalar(node: &YamlNode) -> (r: Option<GodotValue>)
    ensures
        r.deep_view() == scalar_value(node@),
{
    match node {
        YamlNode::String(s) => Some(GodotValue::String(s.clone())),
        YamlNode::Integer(i) => Some(GodotValue::Int(*i)),
        YamlNode::Real(r) => Some(read_real(r.as_str())),
        YamlNode::Boolean(b) => Some(GodotValue::Bool(*b)),
        YamlNode::Null => Some(GodotValue::Nil),
        _ => None,
    }
}

/// The table `table` with the first `n` entries of a mapping added: each
/// gives the value of its scalar to the text of its key.
pub open spec fn enum_entries(
    entries: Seq<(YamlValue, YamlValue)>,
    table: Seq<(Seq<char>, Value)>,
    n: int,
) -> Result<Seq<(Seq<char>, Value)>, ParseFailure>
    decreases n,
{
    if n <= 0 || n > entries.len() {
        Ok(table)
    } else {
        match enum_entries(entries, table, n - 1) {
            Err(f) => Err(f),
            Ok(t) => match entries[n - 1].0 {
                YamlValue::String(text) => match scalar_value(entries[n - 1].1) {
                    Some(v) => Ok(t.push((text, v))),
                    None => Err(ParseFailure::InvalidPattern("Unsupported enum value"@)),
                },
                _ => Err(ParseFailure::InvalidPattern("Enum key must be string"@)),
            },
        }
    }
}

/// The table `table` with the first `n` items of an enum section added: a
/// string stands for itself, a mapping adds its entries.
pub open spec fn enum_items(items: Seq<YamlValue>, table: Seq<(Seq<char>, Value)>, n: int) -> Result<
    Seq<(Seq<char>, Value)>,
    ParseFailure,
>
    decreases n,
{
    if n <= 0 || n > items.len() {
        Ok(table)
    } else {
        match enum_items(items, table, n - 1) {
            Err(f) => Err(f),
            Ok(t) => match items[n - 1] {
                YamlValue::String(text) => Ok(t.push((text, Value::String(text)))),
                YamlValue::Hash(entries) => enum_entries(entries, t, entries.len() as int),
                _ => Err(ParseFailure::InvalidPattern("Malformed enum entry"@)),
            },
        }
    }
}

/// The phrases `phrases` with those of the first `n` entries of a mapping
/// added: the key is the template, the value says what it returns.
pub open spec fn phrase_entries(
    section: Seq<char>,
    entries: Seq<(YamlValue, YamlValue)>,
    phrases: Seq<Phrase>,
    n: int,
) -> Result<Seq<Phrase>, ParseFailure>
    decreases n,
{
    if n <= 0 || n > entries.len() {
        Ok(phrases)
    } else {
        match phrase_entries(section, entries, phrases, n - 1) {
            Err(f) => Err(f),
            Ok(ps) => match entries[n - 1].0 {
                YamlValue::String(template) => match return_spec_of(entries[n - 1].1, section) {
                    Err(f) => Err(f),
                    Ok(ret) => match phrase_of(template, section, ret) {
                        Err(f) => Err(f),
                        Ok(p) => Ok(ps.push(p)),
                    },
                },
                _ => Err(ParseFailure::InvalidPattern("Phrase key must be string"@)),
            },
        }
    }
}

/// The phrases `phrases` with those of the first `n` items of a section
/// added: a string is a template that returns the section's type, a
/// mapping adds its entries, anything else is passed over.
pub open spec fn phrase_items(
    section: Seq<char>,
    items: Seq<YamlValue>,
    phrases: Seq<Phrase>,
    n: int,
) -> Result<Seq<Phrase>, ParseFailure>
    decreases n,
{
    if n <= 0 || n > items.len() {
        Ok(phrases)
    } else {
        match phrase_items(section, items, phrases, n - 1) {
            Err(f) => Err(f),
            Ok(ps) => match items[n - 1] {
                YamlValue::String(template) => match phrase_of(
                    template,
                    section,
                    Returned::Type(section),
                ) {
                    Err(f) => Err(f),
                    Ok(p) => Ok(ps.push(p)),
                },
                YamlValue::Hash(entries) => phrase_entries(
                    section,
                    entries,
                    ps,
                    entries.len() as int,
                ),
                _ => Ok(ps),
            },
        }
    }
}

/// The grammar `g` with the first `n` sections of a document added. A
/// section is an entry with a string for its name and a sequence for its
/// items; other entries are passed over. A section named `enum T` adds the
/// table of the type `T`, any other section adds its phrases.
pub open spec fn sections(entries: Seq<(YamlValue, YamlValue)>, g: Grammar, n: int) -> Result<
    Grammar,
    ParseFailure,
>
    decreases n,
{
    if n <= 0 || n > entries.len() {
        Ok(g)
    } else {
        match sections(entries, g, n - 1) {
            Err(f) => Err(f),
            Ok(h) => match (entries[n - 1].0, entries[n - 1].1) {
                (YamlValue::String(section), YamlValue::Array(items)) => match enum_type_of(
                    section,
                ) {
                    Some(ty) => match enum_items(items, Seq::empty(), items.len() as int) {
                        Err(f) => Err(f),
                        Ok(table) => Ok(Grammar { enums: h.enums.push((ty, table)), ..h }),
                    },
                    None => match phrase_items(section, items, h.phrases, items.len() as int) {
                        Err(f) => Err(f),
                        Ok(ps) => Ok(Grammar { phrases: ps, ..h }),
                    },
                },
                _ => Ok(h),
            },
        }
    }
}

/// The grammar that a document declares; the document must be a mapping.
/// The first malformed entry, in the order of the document, refuses the
/// whole document.
pub open spec fn grammar_of(doc: YamlValue) -> Result<Grammar, ParseFailure> {
    match doc {
        YamlValue::Hash(entries) => sections(
            entries,
            Grammar { phrases: Seq::empty(), enums: Seq::empty() },
            entries.len() as int,
        ),
        _ => Err(ParseFailure::InvalidPattern("Top-level YAML must be a mapping"@)),
    }
}

/// The grammar that the first document of a YAML text declares.
pub open spec fn grammar_of_source(config: Seq<char>) -> Result<Grammar, ParseFailure> {
    match yaml_documents(config) {
        None => Err(ParseFailure::YamlParseError(Seq::empty())),
        Some(docs) => if docs.len() == 0 {
            Err(ParseFailure::EmptyYaml)
        } else {
            grammar_of(docs[0])
        },
    }
}

/// Once the entries of a mapping have been refused, more entries change
/// nothing.
proof fn lemma_enum_entries_stay_refused(
    entries: Seq<(YamlValue, YamlValue)>,
    table: Seq<(Seq<char>, Value)>,
    k: int,
    n: int,
)
    requires
        0 <= k <= n <= entries.len(),
    ensures
        enum_entries(entries, table, k) is Err ==> enum_entries(entries, table, n)
            == enum_entries(entries, table, k),
    decreases n,
{
    if k < n {
        lemma_enum_entries_stay_refused(entries, table, k, n - 1);
    }
}

proof fn lemma_enum_items_stay_refused(
    items: Seq<YamlValue>,
    table: Seq<(Seq<char>, Value)>,
    k: int,
    n: int,
)
    requires
        0 <= k <= n <= items.len(),
    ensures
        enum_items(items, table, k) is Err ==> enum_items(items, table, n) == enum_items(
            items,
            table,
            k,
        ),
    decreases n,
{
    if k < n {
        lemma_enum_items_stay_refused(items, table, k, n - 1);
    }
}

proof fn lemma_phrase_entries_stay_refused(
    section: Seq<char>,
    entries: Seq<(YamlValue, YamlValue)>,
    phrases: Seq<Phrase>,
    k: int,
    n: int,
)
    requires
        0 <= k <= n <= entries.len(),
    ensures
        phrase_entries(section, entries, phrases, k) is Err ==> phrase_entries(
            section,
            entries,
            phrases,
            n,
        ) == phrase_entries(section, entries, phrases, k),
    decreases n,
{
    if k < n {
        lemma_phrase_entries_stay_refused(section, entries, phrases, k, n - 1);
    }
}

proof fn lemma_phrase_items_stay_refused(
    section: Seq<char>,
    items: Seq<YamlValue>,
    phrases: Seq<Phrase>,
    k: int,
    n: int,
)
    requires
        0 <= k <= n <= items.len(),
    ensures
        phrase_items(section, items, phrases, k) is Err ==> phrase_items(
            section,
            items,
            phrases,
            n,
        ) == phrase_items(section, items, phrases, k),
    decreases n,
{
    if k < n {
        lemma_phrase_items_stay_refused(section, items, phrases, k, n - 1);
    }
}

proof fn lemma_sections_stay_refused(
    entries: Seq<(YamlValue, YamlValue)>,
    g: Grammar,
    k: int,
    n: int,
)
    requires
        0 <= k <= n <= entries.len(),
    ensures
        sections(entries, g, k) is Err ==> sections(entries, g, n) == sections(entries, g, k),
    decreases n,
{
    if k < n {
        lemma_sections_stay_refused(entries, g, k, n - 1);
    }
}

/// Adds the entries of a mapping to the table of an enumerated type, as
/// [`enum_entries`] says.
fn add_enum_entries(entries: &Vec<(YamlNode, YamlNode)>, table: &mut Vec<(String, GodotValue)>) -> (r:
    Result<(), SentenceParseError>)
    ensures
        match enum_entries(
            yaml_entries_view(entries@),
            fields_view(old(table)@),
            entries.len() as int,
        ) {
            Ok(t) => r is Ok && fields_view(final(table)@) == t,
            Err(f) => r matches Err(e) && e@ == f,
        },
{
    let ghost all = yaml_entries_view(entries@);
    let ghost start = fields_view(table@);
    let mut i: usize = 0;
    while i < entries.len()
        invariant
            i <= entries.len(),
            all == yaml_entries_view(entries@),
            start == fields_view(old(table)@),
            enum_entries(all, start, i as int) == Ok::<Seq<(Seq<char>, Value)>, ParseFailure>(
                fields_view(table@),
            ),
        decreases entries.len() - i,
    {
        assert(all[i as int] == (entries@[i as int].0@, entries@[i as int].1@));
        proof {
            lemma_enum_entries_stay_refused(all, start, i + 1, entries.len() as int);
        }
        match &entries[i].0 {
            YamlNode::String(text) => match read_scalar(&entries[i].1) {
                Some(v) => {
                    table.push((text.clone(), v));
                    assert(fields_view(table@) =~= enum_entries(all, start, i as int)->Ok_0.push(
                        (text@, v@),
                    ));
                },
                None => {
                    proof {
                        lemma_enum_entries_stay_refused(all, start, i + 1, entries.len() as int);
                    }
                    return Err(
                        SentenceParseError::InvalidPattern(
                            String::from_str("Unsupported enum value"),
                        ),
                    );
                },
            },
            _ => {
                proof {
                    lemma_enum_entries_stay_refused(all, start, i + 1, entries.len() as int);
                }
                return Err(
                    SentenceParseError::InvalidPattern(String::from_str("Enum key must be string")),
                );
            },
        }
        i += 1;
    }
    Ok(())
}

/// Builds the table of an enumerated type from the items of its section,
/// as [`enum_items`] says.
pub fn read_enum_table(items: &Vec<YamlNode>) -> (r: Result<
    Vec<(String, GodotValue)>,
    SentenceParseError,
>)
    ensures
        match enum_items(yaml_nodes_view(items@), Seq::empty(), items.len() as int) {
            Ok(t) => r matches Ok(table) && fields_view(table@) == t,
            Err(f) => r matches Err(e) && e@ == f,
        },
{
    let ghost all = yaml_nodes_view(items@);
    let mut table: Vec<(String, GodotValue)> = Vec::new();
    assert(fields_view(table@) =~= Seq::empty());
    let mut i: usize = 0;
    while i < items.len()
        invariant
            i <= items.len(),
            all == yaml_nodes_view(items@),
            enum_items(all, Seq::empty(), i as int) == Ok::<Seq<(Seq<char>, Value)>, ParseFailure>(
                fields_view(table@),
            ),
        decreases items.len() - i,
    {
        assert(all[i as int] == items@[i as int]@);
        proof {
            lemma_yaml_view(items@[i as int]);
        }
        match &items[i] {
            YamlNode::String(text) => {
                table.push((text.clone(), GodotValue::String(text.clone())));
                assert(fields_view(table@) =~= enum_items(
                    all,
                    Seq::empty(),
                    i as int,
                )->Ok_0.push((text@, Value::String(text@))));
            },
            YamlNode::Hash(entries) => {
                match add_enum_entries(entries, &mut table) {
                    Ok(()) => {},
                    Err(e) => {
                        proof {
                            lemma_enum_items_stay_refused(
                                all,
                                Seq::empty(),
                                i + 1,
                                items.len() as int,
                            );
                        }
                        return Err(e);
                    },
                }
            },
            _ => {
                proof {
                    lemma_enum_items_stay_refused(all, Seq::empty(), i + 1, items.len() as int);
                }
                return Err(
                    SentenceParseError::InvalidPattern(String::from_str("Malformed enum entry")),
                );
            },
        }
        i += 1;
    }
    Ok(table)
}

/// Adds the phrases of the entries of a mapping, as [`phrase_entries`]
/// says.
fn add_phrase_entries(
    section: &str,
    entries: &Vec<(YamlNode, YamlNode)>,
    phrases: &mut Vec<PhraseConfig>,
) -> (r: Result<(), SentenceParseError>)
    ensures
        match phrase_entries(
            section@,
            yaml_entries_view(entries@),
            phrases_view(old(phrases)@),
            entries.len() as int,
        ) {
            Ok(ps) => r is Ok && phrases_view(final(phrases)@) == ps,
            Err(f) => r matches Err(e) && same_failure(e@, f),
        },
{
    let ghost all = yaml_entries_view(entries@);
    let ghost start = phrases_view(phrases@);
    let mut i: usize = 0;
    while i < entries.len()
        invariant
            i <= entries.len(),
            all == yaml_entries_view(entries@),
            start == phrases_view(old(phrases)@),
            phrase_entries(section@, all, start, i as int) == Ok::<Seq<Phrase>, ParseFailure>(
                phrases_view(phrases@),
            ),
        decreases entries.len() - i,
    {
        assert(all[i as int] == (entries@[i as int].0@, entries@[i as int].1@));
        proof {
            lemma_phrase_entries_stay_refused(section@, all, start, i + 1, entries.len() as int);
        }
        match &entries[i].0 {
            YamlNode::String(template) => {
                let ret = match parse_rhs_to_return_spec(&entries[i].1, section) {
                    Ok(ret) => ret,
                    Err(e) => {
                        return Err(e);
                    },
                };
                let phrase = match compile_phrase(template.as_str(), section, ret) {
                    Ok(p) => p,
                    Err(e) => {
                        return Err(e);
                    },
                };
                phrases.push(phrase);
                assert(phrases_view(phrases@) =~= phrase_entries(
                    section@,
                    all,
                    start,
                    i as int,
                )->Ok_0.push(phrase@));
            },
            _ => {
                return Err(
                    SentenceParseError::InvalidPattern(
                        String::from_str("Phrase key must be string"),
                    ),
                );
            },
        }
        i += 1;
    }
    Ok(())
}

/// Adds the phrases of the items of a section, as [`phrase_items`] says.
fn add_phrase_items(section: &str, items: &Vec<YamlNode>, phrases: &mut Vec<PhraseConfig>) -> (r:
    Result<(), SentenceParseError>)
    ensures
        match phrase_items(
            section@,
            yaml_nodes_view(items@),
            phrases_view(old(phrases)@),
            items.len() as int,
        ) {
            Ok(ps) => r is Ok && phrases_view(final(phrases)@) == ps,
            Err(f) => r matches Err(e) && same_failure(e@, f),
        },
{
    let ghost all = yaml_nodes_view(items@);
    let ghost start = phrases_view(phrases@);
    let mut i: usize = 0;
    while i < items.len()
        invariant
            i <= items.len(),
            all == yaml_nodes_view(items@),
            start == phrases_view(old(phrases)@),
            phrase_items(section@, all, start, i as int) == Ok::<Seq<Phrase>, ParseFailure>(
                phrases_view(phrases@),
            ),
        decreases items.len() - i,
    {
        assert(all[i as int] == items@[i as int]@);
        proof {
            lemma_yaml_view(items@[i as int]);
            lemma_phrase_items_stay_refused(section@, all, start, i + 1, items.len() as int);
        }
        match &items[i] {
            YamlNode::String(template) => {
                let ret = ReturnSpec::Type(String::from_str(section));
                let phrase = match compile_phrase(template.as_str(), section, ret) {
                    Ok(p) => p,
                    Err(e) => {
                        return Err(e);
                    },
                };
                phrases.push(phrase);
                assert(phrases_view(phrases@) =~= phrase_items(
                    section@,
                    all,
                    start,
                    i as int,
                )->Ok_0.push(phrase@));
            },
            YamlNode::Hash(entries) => {
                match add_phrase_entries(section, entries, phrases) {
                    Ok(()) => {},
                    Err(e) => {
                        return Err(e);
                    },
                }
            },
            _ => {},
        }
        i += 1;
    }
    Ok(())
}

impl SentenceParser {
    /// Builds the grammar that a YAML document declares, as
    /// [`grammar_of`] says.
    pub fn from_document(doc: &YamlNode) -> (r: Result<SentenceParser, SentenceParseError>)
        ensures
            match grammar_of(doc@) {
                Ok(g) => r matches Ok(parser) && parser@ == g,
                Err(f) => r matches Err(e) && same_failure(e@, f),
            },
    {
        proof {
            lemma_yaml_view(*doc);
        }
        let entries = match doc {
            YamlNode::Hash(entries) => entries,
            _ => {
                return Err(
                    SentenceParseError::InvalidPattern(
                        String::from_str("Top-level YAML must be a mapping"),
                    ),
                );
            },
        };
        let ghost all = yaml_entries_view(entries@);
        let ghost start = Grammar { phrases: Seq::empty(), enums: Seq::empty() };
        let mut parser = SentenceParser { phrases: Vec::new(), type_patterns: Vec::new() };
        assert(parser@.phrases =~= start.phrases && parser@.enums =~= start.enums);
        let mut i: usize = 0;
        while i < entries.len()
            invariant
                i <= entries.len(),
                all == yaml_entries_view(entries@),
                doc@ == YamlValue::Hash(all),
                start == (Grammar { phrases: Seq::empty(), enums: Seq::empty() }),
                sections(all, start, i as int) == Ok::<Grammar, ParseFailure>(parser@),
            decreases entries.len() - i,
        {
            assert(all[i as int] == (entries@[i as int].0@, entries@[i as int].1@));
            proof {
                lemma_yaml_view(entries@[i as int].1);
                lemma_sections_stay_refused(all, start, i + 1, entries.len() as int);
            }
            match (&entries[i].0, &entries[i].1) {
                (YamlNode::String(section), YamlNode::Array(items)) => {
                    match read_enum_type(section.as_str()) {
                        Some(ty) => {
                            let table = match read_enum_table(items) {
                                Ok(t) => t,
                                Err(e) => {
                                    return Err(e);
                                },
                            };
                            let ghost before = parser@;
                            parser.type_patterns.push((ty, table));
                            assert(parser@.enums =~= before.enums.push((ty@, fields_view(table@))));
                        },
                        None => {
                            match add_phrase_items(section.as_str(), items, &mut parser.phrases) {
                                Ok(()) => {},
                                Err(e) => {
                                    return Err(e);
                                },
                            }
                        },
                    }
                },
                _ => {},
            }
            i += 1;
        }
        Ok(parser)
    }

    /// Loads the grammar that the first document of a YAML text declares,
    /// as [`grammar_of_source`] says.
    pub fn from_yaml(config: &str) -> (r: Result<SentenceParser, SentenceParseError>)
        ensures
            match grammar_of_source(config@) {
                Ok(g) => r matches Ok(parser) && parser@ == g,
                Err(f) => r matches Err(e) && same_failure(e@, f),
            },
    {
        let docs = match load_documents(config) {
            Ok(docs) => docs,
            Err(e) => {
                return Err(SentenceParseError::YamlParseError(scan_error_text(&e)));
            },
        };
        if docs.len() == 0 {
            return Err(SentenceParseError::EmptyYaml);
        }
        assert(yaml_nodes_view(docs@)[0] == docs@[0]@);
        SentenceParser::from_document(&docs[0])
    }
}

/// The first index at or after `from` that holds `}` or `:`, or the
/// length of `s`.
pub open spec fn name_stop(s: Seq<char>, from: int) -> int
    decreases s.len() - from,
{
    if from < 0 || from >= s.len() || s[from] == '}' || s[from] == ':' {
        from
    } else {
        name_stop(s, from + 1)
    }
}

/// The template `s` from index `from` on as a translator sees it: every
/// placeholder `{name: type}` reads `{name}`.
pub open spec fn untyped_template(s: Seq<char>, from: int) -> Seq<char>
    decreases s.len() - from,
{
    let p = index_of(s, '{', from);
    let q = name_stop(s, p + 1);
    let r = index_of(s, '}', q);
    if from < 0 || from >= s.len() {
        Seq::empty()
    } else if p >= s.len() || p < from {
        s.subrange(from, s.len() as int)
    } else if p + 1 < q && q <= r < s.len() {
        s.subrange(from, p + 1) + s.subrange(p + 1, q) + seq!['}'] + untyped_template(s, r + 1)
    } else {
        s.subrange(from, p + 1) + untyped_template(s, p + 1)
    }
}

/// Index form of [`name_stop`].
fn find_name_stop(s: &Vec<char>, from: usize) -> (r: usize)
    requires
        from <= s.len(),
    ensures
        r == name_stop(s@, from as int),
        from <= r <= s.len(),
{
    let mut i: usize = from;
    while i < s.len() && s[i] != '}' && s[i] != ':'
        invariant
            from <= i <= s.len(),
            name_stop(s@, from as int) == name_stop(s@, i as int),
        decreases s.len() - i,
    {
        i += 1;
    }
    i
}

/// Takes the types out of the placeholders of a template, as
/// [`untyped_template`] says.
pub fn strip_types(template: &str) -> (r: String)
    ensures
        r@ == untyped_template(template@, 0),
{
    let s = chars_of(template);
    let mut out: Vec<char> = Vec::new();
    let mut i: usize = 0;
    while i < s.len()
        invariant
            i <= s.len(),
            untyped_template(s@, 0) == out@ + untyped_template(s@, i as int),
        decreases s.len() - i,
    {
        let p = find_char(&s, '{', i);
        if p >= s.len() {
            extend_chars(&mut out, &sub_vec(&s, i, s.len()));
            i = s.len();
        } else {
            let q = find_name_stop(&s, p + 1);
            let r = find_char(&s, '}', q);
            if p + 1 < q && r < s.len() {
                extend_chars(&mut out, &sub_vec(&s, i, q));
                out.push('}');
                assert(s@.subrange(i as int, q as int) =~= s@.subrange(i as int, p + 1) + s@.subrange(
                    p + 1,
                    q as int,
                ));
                i = r + 1;
            } else {
                extend_chars(&mut out, &sub_vec(&s, i, p + 1));
                i = p + 1;
            }
        }
        assert(untyped_template(s@, 0) =~= out@ + untyped_template(s@, i as int));
    }
    assert(out@ =~= untyped_template(s@, 0));
    string_of(&out)
}

/// The catalog of the first `n` phrases: under the translation key of each
/// its template without types; of two phrases with one key the later one
/// counts.
pub open spec fn catalog(phrases: Seq<Phrase>, n: int) -> Seq<(Seq<char>, Seq<char>)>
    decreases n,
{
    if n <= 0 || n > phrases.len() {
        Seq::empty()
    } else {
        upsert(
            catalog(phrases, n - 1),
            translation_key(phrases[n - 1].section, phrases[n - 1].pattern),
            untyped_template(phrases[n - 1].pattern, 0),
        )
    }
}

/// The entries of a catalog as plain values.
pub open spec fn catalog_view(entries: Seq<(String, String)>) -> Seq<(Seq<char>, Seq<char>)> {
    Seq::new(entries.len(), |i: int| (entries[i].0@, entries[i].1@))
}

impl SentenceParser {
    /// The catalog of the sentences for translators, as [`catalog`] says.
    pub fn get_en_translation(&self) -> (r: Vec<(String, String)>)
        ensures
            catalog_view(r@) == catalog(self@.phrases, self.phrases.len() as int),
    {
        let mut trads: Vec<(String, String)> = Vec::new();
        assert(catalog_view(trads@) =~= Seq::empty());
        let mut i: usize = 0;
        while i < self.phrases.len()
            invariant
                i <= self.phrases.len(),
                catalog_view(trads@) == catalog(self@.phrases, i as int),
            decreases self.phrases.len() - i,
        {
            let phrase = &self.phrases[i];
            assert(self@.phrases[i as int] == phrase@);
            let key = phrase.make_tr_key();
            let text = strip_types(phrase.pattern.as_str());
            let at = find_key(&trads, key.as_str());
            proof {
                lemma_key_index_is(catalog_view(trads@), key@, at as int);
            }
            let ghost before = catalog_view(trads@);
            if at < trads.len() {
                trads.set(at, (key, text));
            } else {
                trads.push((key, text));
            }
            assert(catalog_view(trads@) =~= upsert(before, key@, text@));
            i += 1;
        }
        trads
    }
}

} // verus!
