//! Compiled sentences, their translation keys and their ranking by
//! specificity.

use crate::parsers::template::{Param, ParameterDefinition, params_view};
use crate::semantic::{GodotValue, Value};
use crate::text::{chars_of, extend_chars, string_of, sub_vec};
use crate::utility::{
    base32_text, camel_to_const_case, const_case, hash_of, hash_value, u64_to_base32,
};
use vstd::prelude::*;

verus! {

/// What a matched sentence produces.
#[derive(Debug, PartialEq)]
pub enum ReturnSpec {
    /// A resource of this type, with the parsed parameters as its fields.
    Type(String),
    /// This value, whatever the parameters.
    Literal(GodotValue),
    /// The string that this format string gives.
    Format(String),
}

/// A [`ReturnSpec`] as plain values.
pub enum Returned {
    Type(Seq<char>),
    Literal(Value),
    Format(Seq<char>),
}

impl View for ReturnSpec {
    type V = Returned;

    open spec fn view(&self) -> Returned {
        match self {
            ReturnSpec::Type(t) => Returned::Type(t@),
            ReturnSpec::Literal(v) => Returned::Literal(v@),
            ReturnSpec::Format(f) => Returned::Format(f@),
        }
    }
}

impl Clone for ReturnSpec {
    fn clone(&self) -> (r: Self)
        ensures
            r@ == self@,
    {
        match self {
            ReturnSpec::Type(t) => ReturnSpec::Type(t.clone()),
            ReturnSpec::Literal(v) => ReturnSpec::Literal(v.clone()),
            ReturnSpec::Format(f) => ReturnSpec::Format(f.clone()),
        }
    }
}

/// A compiled sentence template: the template text, the anchored pattern
/// that the regex crate matches statements against, the parameters in the
/// order of their capture groups, what a match produces, and the section
/// that the template stands in.
#[derive(Debug, PartialEq)]
pub struct PhraseConfig {
    pub pattern: String,
    pub regex: String,
    pub parameters: Vec<ParameterDefinition>,
    pub return_spec: ReturnSpec,
    pub section: String,
}

/// A [`PhraseConfig`] as plain values.
pub struct Phrase {
    pub pattern: Seq<char>,
    pub regex: Seq<char>,
    pub parameters: Seq<Param>,
    pub return_spec: Returned,
    pub section: Seq<char>,
}

impl View for PhraseConfig {
    type V = Phrase;

    open spec fn view(&self) -> Phrase {
        Phrase {
            pattern: self.pattern@,
            regex: self.regex@,
            parameters: params_view(self.parameters@),
            return_spec: self.return_spec@,
            section: self.section@,
        }
    }
}

/// The phrases of a list as plain values.
pub open spec fn phrases_view(phrases: Seq<PhraseConfig>) -> Seq<Phrase> {
    Seq::new(phrases.len(), |i: int| phrases[i]@)
}

/// The translation key of a template: its section in constant case, an
/// underscore, and the first seven base-32 digits of the template's hash.
pub open spec fn translation_key(section: Seq<char>, template: Seq<char>) -> Seq<char> {
    let digits = base32_text(hash_of(template) as nat);
    const_case(section) + seq!['_'] + (if digits.len() > 7 {
        digits.subrange(0, 7)
    } else {
        digits
    })
}

impl PhraseConfig {
    /// The translation key of this phrase, as [`translation_key`] says. It
    /// depends on the section and the template alone.
    pub fn make_tr_key(&self) -> (r: String)
        ensures
            r@ == translation_key(self.section@, self.pattern@),
    {
        let digits = chars_of(u64_to_base32(hash_value(self.pattern.as_str())).as_str());
        let mut key = chars_of(camel_to_const_case(self.section.as_str()).as_str());
        key.push('_');
        if digits.len() > 7 {
            let head = sub_vec(&digits, 0, 7);
            extend_chars(&mut key, &head);
        } else {
            extend_chars(&mut key, &digits);
        }
        string_of(&key)
    }
}

/// What is left of `weight` after the first `n` parameters have taken
/// their share: each costs the length of its name, the length of its type
/// and four more, and the weight never falls below zero.
pub open spec fn literal_weight(weight: nat, params: Seq<Param>, n: int) -> nat
    decreases n,
{
    if n <= 0 || n > params.len() {
        weight
    } else {
        let before = literal_weight(weight, params, n - 1);
        let cost = params[n - 1].name.len() + params[n - 1].param_type.len() + 4;
        if before >= cost {
            (before - cost) as nat
        } else {
            0
        }
    }
}

/// The specificity of a phrase: the literal weight of its template, which
/// is the number of its characters less the share of every parameter, and
/// the number of its parameters.
pub open spec fn specificity(p: Phrase) -> (nat, nat) {
    (literal_weight(p.pattern.len(), p.parameters, p.parameters.len() as int), p.parameters.len())
}

/// Whether `a` ranks strictly above `b`: by the greater literal weight,
/// and between equal weights by the smaller number of parameters.
pub open spec fn outranks(a: (nat, nat), b: (nat, nat)) -> bool {
    a.0 > b.0 || (a.0 == b.0 && a.1 < b.1)
}

/// Computes the specificity of a phrase: its literal weight, and the
/// number of its parameters counted down from `usize::MAX`, so that the
/// greater pair is the more specific phrase.
pub fn phrase_specificity(p: &PhraseConfig) -> (r: (usize, usize))
    ensures
        r.0 == specificity(p@).0,
        r.1 == usize::MAX - specificity(p@).1,
{
    let mut literal: usize = p.pattern.as_str().unicode_len();
    let mut i: usize = 0;
    while i < p.parameters.len()
        invariant
            i <= p.parameters.len(),
            literal == literal_weight(p.pattern@.len(), params_view(p.parameters@), i as int),
        decreases p.parameters.len() - i,
    {
        let name_len = p.parameters[i].name.as_str().unicode_len();
        let type_len = p.parameters[i].param_type.as_str().unicode_len();
        assert(params_view(p.parameters@)[i as int] == p.parameters@[i as int]@);
        literal = take_away(take_away(take_away(literal, name_len), type_len), 4);
        i += 1;
    }
    (literal, usize::MAX - p.parameters.len())
}

/// `a - b`, or zero where `b` is the greater.
fn take_away(a: usize, b: usize) -> (r: usize)
    ensures
        r == if a >= b {
            a - b
        } else {
            0
        },
{
    if a >= b {
        a - b
    } else {
        0
    }
}

/// The ranking by specificity is a strict total order on the pairs: no
/// pair outranks itself, of two different pairs exactly one outranks the
/// other, and outranking carries over.
pub proof fn lemma_specificity_total_order(a: (nat, nat), b: (nat, nat), c: (nat, nat))
    ensures
        !outranks(a, a),
        a != b ==> (outranks(a, b) <==> !outranks(b, a)),
        a == b ==> !outranks(a, b) && !outranks(b, a),
        outranks(a, b) && outranks(b, c) ==> outranks(a, c),
{
}

/// Of two phrases the one with the greater literal weight outranks the
/// other, whatever their parameters; in particular where both declare the
/// same number of them.
pub proof fn lemma_longer_literal_wins(a: Phrase, b: Phrase)
    requires
        specificity(a).0 > specificity(b).0,
    ensures
        outranks(specificity(a), specificity(b)),
        !outranks(specificity(b), specificity(a)),
{
}

} // verus!
