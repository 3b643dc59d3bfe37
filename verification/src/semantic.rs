//! Values, the tree of statements, and the pass that validates a tree
//! into values.

use crate::base_parser::Position;
use crate::parsers::errors::{ParseFailure, SentenceParseError, failure_text};
use crate::parsers::sentence::{
    ErrorHypo, Sentence, SentenceResult, parameters_with_child, sentence_value,
};
use crate::text::same_text;
use vstd::prelude::*;

verus! {

/// The mathematical value that a [`GodotValue`] stands for.
///
/// Dictionaries and resource fields are sequences of entries in the order
/// in which they were first inserted; a lookup takes the first entry whose
/// key matches.
pub enum Value {
    Nil,
    Bool(bool),
    Int(int),
    Float(Seq<char>),
    String(Seq<char>),
    Array(Seq<Value>),
    Dict(Seq<(Seq<char>, Value)>),
    Resource { resource_type: Seq<char>, fields: Seq<(Seq<char>, Value)> },
}

/// The first index at or after `from` whose key is `key`, or the number of
/// entries when no key matches.
pub open spec fn key_index<V>(entries: Seq<(Seq<char>, V)>, key: Seq<char>, from: int) -> int
    decreases entries.len() - from,
{
    if from < 0 || from >= entries.len() || entries[from].0 == key {
        from
    } else {
        key_index(entries, key, from + 1)
    }
}

/// The value stored under `key`, if any.
pub open spec fn lookup<V>(entries: Seq<(Seq<char>, V)>, key: Seq<char>) -> Option<V> {
    let i = key_index(entries, key, 0);
    if i < entries.len() {
        Some(entries[i].1)
    } else {
        None
    }
}

/// `entries` with `value` stored under `key`: in place of the entry that
/// held the key, or at the end when no entry did.
pub open spec fn upsert<V>(entries: Seq<(Seq<char>, V)>, key: Seq<char>, value: V) -> Seq<
    (Seq<char>, V),
> {
    let i = key_index(entries, key, 0);
    if i < entries.len() {
        entries.update(i, (key, value))
    } else {
        entries.push((key, value))
    }
}

/// No key occurs twice.
pub open spec fn unique_keys<V>(entries: Seq<(Seq<char>, V)>) -> bool {
    forall|i: int, j: int| 0 <= i < j < entries.len() ==> entries[i].0 != entries[j].0
}

/// What [`key_index`] finds: an index within the entries, the first that
/// holds the key.
pub proof fn lemma_key_index<V>(entries: Seq<(Seq<char>, V)>, key: Seq<char>, from: int)
    requires
        0 <= from <= entries.len(),
    ensures
        from <= key_index(entries, key, from) <= entries.len(),
        key_index(entries, key, from) < entries.len() ==> entries[key_index(
            entries,
            key,
            from,
        )].0 == key,
        forall|k: int| from <= k < key_index(entries, key, from) ==> entries[k].0 != key,
    decreases entries.len() - from,
{
    if from < entries.len() && entries[from].0 != key {
        lemma_key_index(entries, key, from + 1);
    }
}

/// Storing under a key keeps the keys distinct.
pub proof fn lemma_upsert_unique<V>(entries: Seq<(Seq<char>, V)>, key: Seq<char>, value: V)
    requires
        unique_keys(entries),
    ensures
        unique_keys(upsert(entries, key, value)),
        lookup(upsert(entries, key, value), key) == Some(value),
{
    lemma_key_index(entries, key, 0);
    let out = upsert(entries, key, value);
    lemma_key_index(out, key, 0);
    let i = key_index(entries, key, 0);
    assert(out[i].0 == key);
}

/// A value as the engine produces it: nil, a scalar, an array, a
/// dictionary or a typed resource. A `Float` holds the decimal text of the
/// number; the view of a value is its [`Value`].
#[derive(Debug, PartialEq)]
pub enum GodotValue {
    Nil,
    Bool(bool),
    Int(i64),
    Float(String),
    String(String),
    Array(Vec<GodotValue>),
    Dict(Vec<(String, GodotValue)>),
    Resource { resource_type: String, fields: Vec<(String, GodotValue)> },
}

/// The entries of a field list as mathematical values.
pub open spec fn fields_view(fields: Seq<(String, GodotValue)>) -> Seq<(Seq<char>, Value)> {
    Seq::new(fields.len(), |i: int| (fields[i].0@, fields[i].1@))
}

/// The items of a list as mathematical values.
pub open spec fn values_view(items: Seq<GodotValue>) -> Seq<Value> {
    Seq::new(items.len(), |i: int| items[i]@)
}

/// The mathematical value of `v`.
pub open spec fn value_of(v: GodotValue) -> Value
    decreases v,
{
    match v {
        GodotValue::Nil => Value::Nil,
        GodotValue::Bool(b) => Value::Bool(b),
        GodotValue::Int(i) => Value::Int(i as int),
        GodotValue::Float(s) => Value::Float(s@),
        GodotValue::String(s) => Value::String(s@),
        GodotValue::Array(items) => Value::Array(
            Seq::new(
                items.len() as nat,
                |i: int|
                    if 0 <= i < items.len() {
                        value_of(items[i])
                    } else {
                        Value::Nil
                    },
            ),
        ),
        GodotValue::Dict(entries) => Value::Dict(
            Seq::new(
                entries.len() as nat,
                |i: int|
                    if 0 <= i < entries.len() {
                        (entries[i].0@, value_of(entries[i].1))
                    } else {
                        (Seq::empty(), Value::Nil)
                    },
            ),
        ),
        GodotValue::Resource { resource_type, fields } => Value::Resource {
            resource_type: resource_type@,
            fields: Seq::new(
                fields.len() as nat,
                |i: int|
                    if 0 <= i < fields.len() {
                        (fields[i].0@, value_of(fields[i].1))
                    } else {
                        (Seq::empty(), Value::Nil)
                    },
            ),
        },
    }
}

impl View for GodotValue {
    type V = Value;

    open spec fn view(&self) -> Value {
        value_of(*self)
    }
}

impl DeepView for GodotValue {
    type V = Value;

    open spec fn deep_view(&self) -> Value {
        value_of(*self)
    }
}

/// How the view of a value reads through its lists.
pub proof fn lemma_value_view(v: GodotValue)
    ensures
        v matches GodotValue::Array(items) ==> v@ == Value::Array(values_view(items@)),
        v matches GodotValue::Dict(entries) ==> v@ == Value::Dict(fields_view(entries@)),
        v matches GodotValue::Resource { resource_type, fields } ==> v@ == (Value::Resource {
            resource_type: resource_type@,
            fields: fields_view(fields@),
        }),
{
    if v is Array {
        assert(v@->Array_0 =~= values_view(v->Array_0@));
    } else if v is Dict {
        assert(v@->Dict_0 =~= fields_view(v->Dict_0@));
    } else if v is Resource {
        assert(v@->fields =~= fields_view(v->fields@));
    }
}

/// The index of the first entry stored under `key`, or the number of
/// entries when there is none.
pub fn find_field(fields: &Vec<(String, GodotValue)>, key: &str) -> (r: usize)
    ensures
        r == key_index(fields_view(fields@), key@, 0),
        r <= fields.len(),
{
    let mut i: usize = 0;
    while i < fields.len()
        invariant
            i <= fields.len(),
            key_index(fields_view(fields@), key@, 0) == key_index(
                fields_view(fields@),
                key@,
                i as int,
            ),
        decreases fields.len() - i,
    {
        if same_text(fields[i].0.as_str(), key) {
            return i;
        }
        i += 1;
    }
    i
}

/// The value stored under `key`, as [`lookup`] says.
pub fn get_field<'a>(fields: &'a Vec<(String, GodotValue)>, key: &str) -> (r: Option<
    &'a GodotValue,
>)
    ensures
        r.deep_view() == lookup(fields_view(fields@), key@),
{
    let i = find_field(fields, key);
    if i < fields.len() {
        Some(&fields[i].1)
    } else {
        None
    }
}

/// Stores `value` under `key`, as [`upsert`] does.
pub fn set_field(fields: &mut Vec<(String, GodotValue)>, key: String, value: GodotValue)
    ensures
        fields_view(final(fields)@) == upsert(fields_view(old(fields)@), key@, value@),
{
    let i = find_field(fields, key.as_str());
    if i < fields.len() {
        fields.set(i, (key, value));
    } else {
        fields.push((key, value));
    }
    assert(fields_view(fields@) =~= upsert(fields_view(old(fields)@), key@, value@));
}

impl Clone for GodotValue {
    fn clone(&self) -> (r: Self)
        ensures
            r@ == self@,
        decreases self,
    {
        match self {
            GodotValue::Nil => GodotValue::Nil,
            GodotValue::Bool(b) => GodotValue::Bool(*b),
            GodotValue::Int(i) => GodotValue::Int(*i),
            GodotValue::Float(s) => GodotValue::Float(s.clone()),
            GodotValue::String(s) => GodotValue::String(s.clone()),
            GodotValue::Array(items) => {
                let copy = clone_values(items);
                let r = GodotValue::Array(copy);
                proof {
                    lemma_value_view(r);
                    lemma_value_view(*self);
                }
                r
            },
            GodotValue::Dict(entries) => {
                let copy = clone_fields(entries);
                let r = GodotValue::Dict(copy);
                proof {
                    lemma_value_view(r);
                    lemma_value_view(*self);
                }
                r
            },
            GodotValue::Resource { resource_type, fields } => {
                let copy = clone_fields(fields);
                let r = GodotValue::Resource { resource_type: resource_type.clone(), fields: copy };
                proof {
                    lemma_value_view(r);
                    lemma_value_view(*self);
                }
                r
            },
        }
    }
}

/// A copy of a list of values.
pub fn clone_values(items: &Vec<GodotValue>) -> (r: Vec<GodotValue>)
    ensures
        values_view(r@) == values_view(items@),
    decreases items,
{
    let mut r: Vec<GodotValue> = Vec::new();
    let mut i: usize = 0;
    while i < items.len()
        invariant
            i <= items.len(),
            r.len() == i,
            forall|k: int| 0 <= k < i ==> r@[k]@ == items@[k]@,
        decreases items.len() - i,
    {
        r.push(items[i].clone());
        i += 1;
    }
    assert(values_view(r@) =~= values_view(items@));
    r
}

/// A copy of a field list.
pub fn clone_fields(fields: &Vec<(String, GodotValue)>) -> (r: Vec<(String, GodotValue)>)
    ensures
        fields_view(r@) == fields_view(fields@),
    decreases fields,
{
    let mut r: Vec<(String, GodotValue)> = Vec::new();
    let mut i: usize = 0;
    while i < fields.len()
        invariant
            i <= fields.len(),
            r.len() == i,
            forall|k: int| 0 <= k < i ==> r@[k].0@ == fields@[k].0@ && r@[k].1@ == fields@[k].1@,
        decreases fields.len() - i,
    {
        r.push((fields[i].0.clone(), fields[i].1.clone()));
        i += 1;
    }
    assert(fields_view(r@) =~= fields_view(fields@));
    r
}

/// Why a value could not take a child.
#[derive(Debug, PartialEq)]
pub enum GodotValueError {
    /// The value named here has no place for children.
    InvalidChild(String),
}

impl GodotValueError {
    /// The text of the error.
    pub fn message(&self) -> (r: String)
        ensures
            self matches GodotValueError::InvalidChild(what) && r@ == "Tried to add a child to a "@
                + what@,
    {
        match self {
            GodotValueError::InvalidChild(what) => {
                String::from_str("Tried to add a child to a ").concat(what.as_str())
            },
        }
    }
}

/// The name of the variant of `v`.
pub open spec fn kind_of(v: Value) -> Seq<char> {
    match v {
        Value::Nil => "Null"@,
        Value::Bool(_) => "Bool"@,
        Value::Int(_) => "Int"@,
        Value::Float(_) => "Float"@,
        Value::String(_) => "String"@,
        Value::Array(_) => "Array"@,
        Value::Dict(_) => "Dict"@,
        Value::Resource { .. } => "Resource"@,
    }
}

/// The key under which a dictionary or a resource keeps its children.
pub open spec fn children_key() -> Seq<char> {
    "children"@
}

/// What a resource says when its `children` field is no array.
pub open spec fn children_not_array() -> Seq<char> {
    "Can't add child to resource : children field is not empty or an array"@
}

/// `v` after it has taken `child`, or `None` where it cannot take one.
///
/// An array gains one item; a dictionary stores the child under
/// `children`; a resource appends it to the array under `children`, which
/// it creates when absent. A scalar, and a resource whose `children` is no
/// array, take no child.
pub open spec fn with_child(v: Value, child: Value) -> Option<Value> {
    match v {
        Value::Array(items) => Some(Value::Array(items.push(child))),
        Value::Dict(entries) => Some(Value::Dict(upsert(entries, children_key(), child))),
        Value::Resource { resource_type, fields } => match lookup(fields, children_key()) {
            None => Some(
                Value::Resource {
                    resource_type,
                    fields: fields.push((children_key(), Value::Array(seq![child]))),
                },
            ),
            Some(Value::Array(items)) => Some(
                Value::Resource {
                    resource_type,
                    fields: fields.update(
                        key_index(fields, children_key(), 0),
                        (children_key(), Value::Array(items.push(child))),
                    ),
                },
            ),
            Some(_) => None,
        },
        _ => None,
    }
}

/// What the error says when `v` cannot take a child.
pub open spec fn child_refusal(v: Value) -> Seq<char> {
    if v is Resource {
        children_not_array()
    } else {
        kind_of(v)
    }
}

impl GodotValue {
    /// The name of this value's variant.
    pub fn kind(&self) -> (r: &'static str)
        ensures
            r@ == kind_of(self@),
    {
        match self {
            GodotValue::Nil => "Null",
            GodotValue::Bool(_) => "Bool",
            GodotValue::Int(_) => "Int",
            GodotValue::Float(_) => "Float",
            GodotValue::String(_) => "String",
            GodotValue::Array(_) => "Array",
            GodotValue::Dict(_) => "Dict",
            GodotValue::Resource { .. } => "Resource",
        }
    }

    /// This value as a final value: a copy of itself.
    pub fn to_godot(&self) -> (r: GodotValue)
        ensures
            r@ == self@,
    {
        self.clone()
    }

    /// Gives this value one more child, as [`with_child`] says, or leaves
    /// it unchanged and reports why it takes none.
    pub fn use_child(&mut self, child: GodotValue) -> (r: Result<(), GodotValueError>)
        ensures
            match with_child(old(self)@, child@) {
                Some(v) => r is Ok && final(self)@ == v,
                None => {
                    &&& final(self)@ == old(self)@
                    &&& r matches Err(GodotValueError::InvalidChild(what))
                    &&& what@ == child_refusal(old(self)@)
                },
            },
    {
        let mut taken = GodotValue::Nil;
        core::mem::swap(self, &mut taken);
        proof {
            lemma_value_view(taken);
        }
        match taken {
            GodotValue::Array(mut items) => {
                items.push(child);
                *self = GodotValue::Array(items);
                proof {
                    lemma_value_view(*self);
                    assert(values_view(items@) =~= values_view(old(self)->Array_0@).push(child@));
                }
                Ok(())
            },
            GodotValue::Dict(mut entries) => {
                set_field(&mut entries, String::from_str("children"), child);
                *self = GodotValue::Dict(entries);
                proof {
                    lemma_value_view(*self);
                }
                Ok(())
            },
            GodotValue::Resource { resource_type, mut fields } => {
                let i = find_field(&fields, "children");
                if i >= fields.len() {
                    let mut items: Vec<GodotValue> = Vec::new();
                    items.push(child);
                    let list = GodotValue::Array(items);
                    proof {
                        lemma_value_view(list);
                        assert(values_view(list->Array_0@) =~= seq![child@]);
                    }
                    fields.push((String::from_str("children"), list));
                    *self = GodotValue::Resource { resource_type, fields };
                    proof {
                        lemma_value_view(*self);
                        assert(fields_view(fields@) =~= fields_view(old(self)->fields@).push(
                            (children_key(), Value::Array(seq![child@])),
                        ));
                    }
                    Ok(())
                } else {
                    let (key, slot) = fields.remove(i);
                    match slot {
                        GodotValue::Array(mut items) => {
                            proof {
                                lemma_value_view(slot);
                            }
                            items.push(child);
                            let list = GodotValue::Array(items);
                            proof {
                                lemma_value_view(list);
                                assert(values_view(items@) =~= values_view(slot->Array_0@).push(
                                    child@,
                                ));
                            }
                            fields.insert(i, (key, list));
                            *self = GodotValue::Resource { resource_type, fields };
                            proof {
                                lemma_value_view(*self);
                                let before = fields_view(old(self)->fields@);
                                lemma_key_index(before, children_key(), 0);
                                assert(fields_view(fields@) =~= before.update(
                                    i as int,
                                    (children_key(), list@),
                                ));
                            }
                            Ok(())
                        },
                        other => {
                            fields.insert(i, (key, other));
                            *self = GodotValue::Resource { resource_type, fields };
                            proof {
                                lemma_value_view(*self);
                                assert(fields_view(fields@) =~= fields_view(old(self)->fields@));
                            }
                            Err(
                                GodotValueError::InvalidChild(
                                    String::from_str(
                                        "Can't add child to resource : children field is not empty or an array",
                                    ),
                                ),
                            )
                        },
                    }
                }
            },
            other => {
                let what = String::from_str(other.kind());
                *self = other;
                Err(GodotValueError::InvalidChild(what))
            },
        }
    }
}

/// What a node resolved to: a plain value, or the result of a sentence.
#[derive(Debug, PartialEq)]
pub enum ResolvedValue {
    Value(GodotValue),
    Sentence(SentenceResult),
}

/// A [`ResolvedValue`] as plain values.
pub enum Resolution {
    Value(Value),
    Sentence(Sentence),
}

impl View for ResolvedValue {
    type V = Resolution;

    open spec fn view(&self) -> Resolution {
        match self {
            ResolvedValue::Value(v) => Resolution::Value(v@),
            ResolvedValue::Sentence(s) => Resolution::Sentence(s@),
        }
    }
}

/// The final value of a resolution.
pub open spec fn resolution_value(r: Resolution) -> Value {
    match r {
        Resolution::Value(v) => v,
        Resolution::Sentence(s) => sentence_value(s),
    }
}

/// The resolution after the value of a child statement has been merged in,
/// or what the error names where it takes no child.
pub open spec fn resolution_with_child(r: Resolution, child: Value) -> Result<
    Resolution,
    Seq<char>,
> {
    match r {
        Resolution::Value(v) => match with_child(v, child) {
            Some(w) => Ok(Resolution::Value(w)),
            None => Err(child_refusal(v)),
        },
        Resolution::Sentence(s) => match parameters_with_child(s.parameters, child) {
            Some(p) => Ok(Resolution::Sentence(Sentence { parameters: p, ..s })),
            None => Err("children field is not an array"@),
        },
    }
}

/// The resolution after the value of a constituent has been merged in
/// under its name: a sentence stores it among its parameters, a plain
/// value ignores it.
pub open spec fn resolution_with_constituent(r: Resolution, name: Seq<char>, value: Value) -> Resolution {
    match r {
        Resolution::Value(v) => Resolution::Value(v),
        Resolution::Sentence(s) => Resolution::Sentence(
            Sentence { parameters: upsert(s.parameters, name, value), ..s },
        ),
    }
}

impl ResolvedValue {
    /// The final value, as [`resolution_value`] says.
    pub fn to_godot(&self) -> (r: GodotValue)
        ensures
            r@ == resolution_value(self@),
    {
        match self {
            ResolvedValue::Value(v) => v.to_godot(),
            ResolvedValue::Sentence(s) => s.to_godot(),
        }
    }

    /// Merges the value of a child statement, as [`resolution_with_child`]
    /// says; on an error nothing changes.
    pub fn use_child(&mut self, child: GodotValue) -> (r: Result<(), GodotValueError>)
        ensures
            match resolution_with_child(old(self)@, child@) {
                Ok(next) => r is Ok && final(self)@ == next,
                Err(what) => {
                    &&& final(self)@ == old(self)@
                    &&& r matches Err(GodotValueError::InvalidChild(w))
                    &&& w@ == what
                },
            },
    {
        let mut taken = ResolvedValue::Value(GodotValue::Nil);
        core::mem::swap(self, &mut taken);
        match taken {
            ResolvedValue::Value(mut v) => {
                let r = v.use_child(child);
                *self = ResolvedValue::Value(v);
                r
            },
            ResolvedValue::Sentence(mut s) => {
                let r = s.use_child(child);
                *self = ResolvedValue::Sentence(s);
                r
            },
        }
    }

    /// Merges the value of a constituent, as
    /// [`resolution_with_constituent`] says.
    pub fn use_constituent(&mut self, name: &str, value: GodotValue) -> (r: Result<
        (),
        GodotValueError,
    >)
        ensures
            r is Ok,
            final(self)@ == resolution_with_constituent(old(self)@, name@, value@),
    {
        let mut taken = ResolvedValue::Value(GodotValue::Nil);
        core::mem::swap(self, &mut taken);
        match taken {
            ResolvedValue::Value(v) => {
                *self = ResolvedValue::Value(v);
                Ok(())
            },
            ResolvedValue::Sentence(mut s) => {
                let r = s.use_constituent(name, value);
                *self = ResolvedValue::Sentence(s);
                r
            },
        }
    }
}

impl Clone for ResolvedValue {
    fn clone(&self) -> (r: Self)
        ensures
            r@ == self@,
    {
        match self {
            ResolvedValue::Value(v) => ResolvedValue::Value(v.clone()),
            ResolvedValue::Sentence(s) => ResolvedValue::Sentence(s.clone()),
        }
    }
}

/// A tentative reading of a statement.
#[derive(Debug, PartialEq)]
pub enum Hypothesis {
    /// No sentence recognized the statement; promoting it gives its error.
    Failed(ErrorHypo),
    /// A reading with its confidence; promoting it gives its result.
    Guess { confidence: i32, result: ResolvedValue },
}

/// A [`Hypothesis`] as plain values.
pub enum Conjecture {
    Failed { error: ParseFailure, statement: Seq<char> },
    Guess { confidence: int, result: Resolution },
}

impl View for Hypothesis {
    type V = Conjecture;

    open spec fn view(&self) -> Conjecture {
        match self {
            Hypothesis::Failed(h) => Conjecture::Failed { error: h.error@, statement: h.statement@ },
            Hypothesis::Guess { confidence, result } => Conjecture::Guess {
                confidence: *confidence as int,
                result: result@,
            },
        }
    }
}

/// The confidence of a reading; that of a failed one is -1.
pub open spec fn confidence_of(c: Conjecture) -> int {
    match c {
        Conjecture::Failed { .. } => -1,
        Conjecture::Guess { confidence, .. } => confidence,
    }
}

/// What promoting a reading gives: the result of a guess, the error of a
/// failed reading.
pub open spec fn promoted(c: Conjecture) -> Result<Resolution, ParseFailure> {
    match c {
        Conjecture::Failed { error, .. } => Err(error),
        Conjecture::Guess { result, .. } => Ok(result),
    }
}

impl Hypothesis {
    /// Turns the reading into a result or into its error, as [`promoted`]
    /// says.
    pub fn promote(self) -> (r: Result<ResolvedValue, SentenceParseError>)
        ensures
            match promoted(self@) {
                Ok(result) => r matches Ok(found) && found@ == result,
                Err(error) => r matches Err(e) && e@ == error,
            },
    {
        match self {
            Hypothesis::Failed(h) => h.promote(),
            Hypothesis::Guess { result, .. } => Ok(result),
        }
    }

    /// The confidence of this reading.
    pub fn confidence(&self) -> (r: i32)
        ensures
            r == confidence_of(self@),
    {
        match self {
            Hypothesis::Failed(h) => h.confidence(),
            Hypothesis::Guess { confidence, .. } => *confidence,
        }
    }
}

/// The readings of a list as plain values.
pub open spec fn conjectures_view(hs: Seq<Hypothesis>) -> Seq<Conjecture> {
    Seq::new(hs.len(), |i: int| hs[i]@)
}

/// How far a statement has been resolved.
#[derive(Debug, PartialEq)]
pub enum DokeNodeState {
    /// Nothing has recognized the statement yet.
    Unresolved,
    /// Tentative readings, to be decided when the tree is validated.
    Hypothesis(Vec<Hypothesis>),
    /// The statement has been recognized.
    Resolved(ResolvedValue),
    /// The statement is known to be invalid.
    Error(SentenceParseError),
}

/// A [`DokeNodeState`] as plain values.
pub enum State {
    Unresolved,
    Hypothesis(Seq<Conjecture>),
    Resolved(Resolution),
    Error(ParseFailure),
}

impl View for DokeNodeState {
    type V = State;

    open spec fn view(&self) -> State {
        match self {
            DokeNodeState::Unresolved => State::Unresolved,
            DokeNodeState::Hypothesis(hs) => State::Hypothesis(conjectures_view(hs@)),
            DokeNodeState::Resolved(r) => State::Resolved(r@),
            DokeNodeState::Error(e) => State::Error(e@),
        }
    }
}

/// One statement of the document with what has been found out about it.
#[derive(Debug, PartialEq)]
pub struct DokeNode {
    /// The text of the statement.
    pub statement: String,
    /// How far the statement has been resolved.
    pub state: DokeNodeState,
    /// The statements nested under this one, in the order of the document.
    pub children: Vec<DokeNode>,
    /// Hints and diagnostics by name.
    pub parse_data: Vec<(String, GodotValue)>,
    /// The parts of the statement that a sentence captured as statements
    /// of their own, by parameter name.
    pub constituents: Vec<(String, DokeNode)>,
    /// Where the statement stands in the source text.
    pub span: Position,
}

/// A [`DokeNode`] as plain values.
pub struct NodeView {
    pub statement: Seq<char>,
    pub state: State,
    pub children: Seq<NodeView>,
    pub parse_data: Seq<(Seq<char>, Value)>,
    pub constituents: Seq<(Seq<char>, NodeView)>,
    pub span: Position,
}

/// The node that `n` stands for.
pub open spec fn node_of(n: DokeNode) -> NodeView
    decreases n,
{
    NodeView {
        statement: n.statement@,
        state: n.state@,
        children: Seq::new(
            n.children.len() as nat,
            |i: int|
                if 0 <= i < n.children.len() {
                    node_of(n.children[i])
                } else {
                    arbitrary()
                },
        ),
        parse_data: fields_view(n.parse_data@),
        constituents: Seq::new(
            n.constituents.len() as nat,
            |i: int|
                if 0 <= i < n.constituents.len() {
                    (n.constituents[i].0@, node_of(n.constituents[i].1))
                } else {
                    arbitrary()
                },
        ),
        span: n.span,
    }
}

impl View for DokeNode {
    type V = NodeView;

    open spec fn view(&self) -> NodeView {
        node_of(*self)
    }
}

/// The nodes of a list as plain values.
pub open spec fn nodes_view(nodes: Seq<DokeNode>) -> Seq<NodeView> {
    Seq::new(nodes.len(), |i: int| nodes[i]@)
}

/// The named nodes of a list as plain values.
pub open spec fn named_nodes_view(nodes: Seq<(String, DokeNode)>) -> Seq<(Seq<char>, NodeView)> {
    Seq::new(nodes.len(), |i: int| (nodes[i].0@, nodes[i].1@))
}

/// How the view of a node reads through its lists.
pub proof fn lemma_node_view(n: DokeNode)
    ensures
        n@ == (NodeView {
            statement: n.statement@,
            state: n.state@,
            children: nodes_view(n.children@),
            parse_data: fields_view(n.parse_data@),
            constituents: named_nodes_view(n.constituents@),
            span: n.span,
        }),
{
    assert(n@.children =~= nodes_view(n.children@));
    assert(n@.constituents =~= named_nodes_view(n.constituents@));
}

/// The index of the first entry whose key is `key`, or the number of
/// entries when there is none.
pub fn find_key<T>(entries: &Vec<(String, T)>, key: &str) -> (r: usize)
    ensures
        r <= entries.len(),
        r < entries.len() ==> entries@[r as int].0@ == key@,
        forall|k: int| 0 <= k < r ==> entries@[k].0@ != key@,
{
    let mut i: usize = 0;
    while i < entries.len()
        invariant
            i <= entries.len(),
            forall|k: int| 0 <= k < i ==> entries@[k].0@ != key@,
        decreases entries.len() - i,
    {
        if same_text(entries[i].0.as_str(), key) {
            return i;
        }
        i += 1;
    }
    i
}

/// The index that [`key_index`] gives is the first one that holds the key.
pub proof fn lemma_key_index_is<V>(entries: Seq<(Seq<char>, V)>, key: Seq<char>, i: int)
    requires
        0 <= i <= entries.len(),
        i < entries.len() ==> entries[i].0 == key,
        forall|k: int| 0 <= k < i ==> entries[k].0 != key,
    ensures
        key_index(entries, key, 0) == i,
{
    lemma_key_index_from(entries, key, 0, i);
}

proof fn lemma_key_index_from<V>(entries: Seq<(Seq<char>, V)>, key: Seq<char>, from: int, i: int)
    requires
        0 <= from <= i <= entries.len(),
        i < entries.len() ==> entries[i].0 == key,
        forall|k: int| from <= k < i ==> entries[k].0 != key,
    ensures
        key_index(entries, key, from) == i,
    decreases i - from,
{
    if from < i {
        lemma_key_index_from(entries, key, from + 1, i);
    }
}

/// Stores `node` under `key`, as [`upsert`] does.
pub fn set_node(nodes: &mut Vec<(String, DokeNode)>, key: String, node: DokeNode)
    ensures
        named_nodes_view(final(nodes)@) == upsert(named_nodes_view(old(nodes)@), key@, node@),
{
    let i = find_key(nodes, key.as_str());
    proof {
        lemma_key_index_is(named_nodes_view(nodes@), key@, i as int);
    }
    if i < nodes.len() {
        nodes.set(i, (key, node));
    } else {
        nodes.push((key, node));
    }
    assert(named_nodes_view(nodes@) =~= upsert(named_nodes_view(old(nodes)@), key@, node@));
}

/// What validating a tree can report.
#[derive(Debug, PartialEq)]
pub enum DokeValidationError {
    /// The node with this statement is in the error state, with this text.
    NodeError(String, String),
    /// The resource (second) lacks the required field (first).
    MissingField(String, String),
    /// The field (first) of the resource (second) should be of one type
    /// (third) and is of another (fourth).
    InvalidFieldType(String, String, String, String),
    /// The best reading of the node at this place turned into its error.
    HypothesisPromotionFailed(SentenceParseError, Position),
    /// Nothing has recognized the node with this statement.
    UnresolvedNode(String),
    /// More than one statement failed.
    MultipleErrors(DokeErrors),
    /// A result could not take the value of a child statement.
    ChildUsageFailed(GodotValueError),
    /// Any other failure, by its text.
    DynamicError(String),
}

/// The errors of several statements, in the order of the statements.
#[derive(Debug, PartialEq)]
pub struct DokeErrors(pub Vec<DokeValidationError>);

/// A [`DokeValidationError`] as plain values.
pub enum Failure {
    NodeError(Seq<char>, Seq<char>),
    MissingField(Seq<char>, Seq<char>),
    InvalidFieldType(Seq<char>, Seq<char>, Seq<char>, Seq<char>),
    HypothesisPromotionFailed(ParseFailure, Position),
    UnresolvedNode(Seq<char>),
    MultipleErrors(Seq<Failure>),
    ChildUsageFailed(Seq<char>),
    DynamicError(Seq<char>),
}

/// The failure that `e` stands for.
pub open spec fn failure_of(e: DokeValidationError) -> Failure
    decreases e,
{
    match e {
        DokeValidationError::NodeError(a, b) => Failure::NodeError(a@, b@),
        DokeValidationError::MissingField(a, b) => Failure::MissingField(a@, b@),
        DokeValidationError::InvalidFieldType(a, b, c, d) => Failure::InvalidFieldType(
            a@,
            b@,
            c@,
            d@,
        ),
        DokeValidationError::HypothesisPromotionFailed(err, at) => {
            Failure::HypothesisPromotionFailed(err@, at)
        },
        DokeValidationError::UnresolvedNode(a) => Failure::UnresolvedNode(a@),
        DokeValidationError::MultipleErrors(errors) => Failure::MultipleErrors(
            Seq::new(
                errors.0.len() as nat,
                |i: int|
                    if 0 <= i < errors.0.len() {
                        failure_of(errors.0[i])
                    } else {
                        arbitrary()
                    },
            ),
        ),
        DokeValidationError::ChildUsageFailed(err) => match err {
            GodotValueError::InvalidChild(what) => Failure::ChildUsageFailed(what@),
        },
        DokeValidationError::DynamicError(a) => Failure::DynamicError(a@),
    }
}

impl View for DokeValidationError {
    type V = Failure;

    open spec fn view(&self) -> Failure {
        failure_of(*self)
    }
}

/// The errors of a list as plain values.
pub open spec fn failures_view(errors: Seq<DokeValidationError>) -> Seq<Failure> {
    Seq::new(errors.len(), |i: int| errors[i]@)
}

/// How the view of a collected error reads through its list.
pub proof fn lemma_failure_view(e: DokeValidationError)
    ensures
        e matches DokeValidationError::MultipleErrors(errors) ==> e@ == Failure::MultipleErrors(
            failures_view(errors.0@),
        ),
{
    if e is MultipleErrors {
        assert(e@->MultipleErrors_0 =~= failures_view(e->MultipleErrors_0.0@));
    }
}

impl From<Vec<DokeValidationError>> for DokeErrors {
    fn from(errors: Vec<DokeValidationError>) -> (r: Self)
        ensures
            r.0 == errors,
    {
        DokeErrors(errors)
    }
}

impl vstd::std_specs::convert::FromSpecImpl<Vec<DokeValidationError>> for DokeErrors {
    open spec fn obeys_from_spec() -> bool {
        true
    }

    open spec fn from_spec(errors: Vec<DokeValidationError>) -> Self {
        DokeErrors(errors)
    }
}

/// The index of the reading that is promoted among the first `n`: one of
/// the greatest confidence, and of several such the last.
pub open spec fn best_conjecture(hs: Seq<Conjecture>, n: int) -> int
    decreases n,
{
    if n <= 1 || n > hs.len() {
        0
    } else {
        let b = best_conjecture(hs, n - 1);
        if confidence_of(hs[n - 1]) >= confidence_of(hs[b]) {
            n - 1
        } else {
            b
        }
    }
}

/// The resolution after the first `n` child values have been merged in,
/// one after the other, and the failure of the first that was refused, at
/// which merging stops.
pub open spec fn merge_children(r: Resolution, values: Seq<Value>, n: int) -> (
    Resolution,
    Option<Failure>,
)
    decreases n,
{
    if n <= 0 || n > values.len() {
        (r, None)
    } else {
        let (before, failed) = merge_children(r, values, n - 1);
        match failed {
            Some(f) => (before, Some(f)),
            None => match resolution_with_child(before, values[n - 1]) {
                Ok(next) => (next, None),
                Err(what) => (before, Some(Failure::ChildUsageFailed(what))),
            },
        }
    }
}

/// The resolution after the first `n` constituent values have been merged
/// in under their names.
pub open spec fn merge_constituents(r: Resolution, values: Seq<(Seq<char>, Value)>, n: int) -> Resolution
    decreases n,
{
    if n <= 0 || n > values.len() {
        r
    } else {
        resolution_with_constituent(
            merge_constituents(r, values, n - 1),
            values[n - 1].0,
            values[n - 1].1,
        )
    }
}

/// The resolution after the values of the children, in the order of the
/// document, and then those of the constituents have been merged in; with
/// the failure of the first child that was refused, after which nothing
/// more is merged.
pub open spec fn merged(
    r: Resolution,
    children: Seq<Value>,
    constituents: Seq<(Seq<char>, Value)>,
) -> (Resolution, Option<Failure>) {
    let (with_children, failed) = merge_children(r, children, children.len() as int);
    match failed {
        Some(f) => (with_children, Some(f)),
        None => (
            merge_constituents(with_children, constituents, constituents.len() as int),
            None,
        ),
    }
}

/// What a node's own state comes to, once the values of its children and
/// constituents are known: the state afterwards, and the value of the node
/// or the failure.
///
/// An unresolved node fails. A node in the error state fails with its
/// error. A resolved node merges the values into its result, which stays
/// as far as merging got. A node with readings promotes the best one: a
/// failed reading gives its error; a guess is merged like a result and,
/// where that succeeds, becomes the node's resolution. A node whose
/// reading does not come through keeps its readings.
pub open spec fn own_outcome(
    state: State,
    statement: Seq<char>,
    span: Position,
    children: Seq<Value>,
    constituents: Seq<(Seq<char>, Value)>,
) -> (State, Result<Value, Failure>) {
    match state {
        State::Unresolved => (state, Err(Failure::UnresolvedNode(statement))),
        State::Error(e) => (state, Err(Failure::NodeError(statement, failure_text(e)))),
        State::Resolved(r) => {
            let (after, failed) = merged(r, children, constituents);
            match failed {
                Some(f) => (State::Resolved(after), Err(f)),
                None => (State::Resolved(after), Ok(resolution_value(after))),
            }
        },
        State::Hypothesis(hs) => if hs.len() == 0 {
            (state, Err(Failure::UnresolvedNode(statement)))
        } else {
            match hs[best_conjecture(hs, hs.len() as int)] {
                Conjecture::Failed { error, .. } => (
                    state,
                    Err(Failure::HypothesisPromotionFailed(error, span)),
                ),
                Conjecture::Guess { result, .. } => {
                    let (after, failed) = merged(result, children, constituents);
                    match failed {
                        Some(f) => (state, Err(f)),
                        None => (State::Resolved(after), Ok(resolution_value(after))),
                    }
                },
            }
        },
    }
}

/// A node after validation, with its value or the failure.
///
/// The children are validated first, in order, then the constituents;
/// the first failure among them is the node's, and what comes after it is
/// not looked at, nor the node's own state. Else the node's own state
/// decides, as [`own_outcome`] says.
pub open spec fn validated(node: NodeView) -> (NodeView, Result<Value, Failure>)
    decreases node, 0int,
{
    let (children, child_values) = validated_children(node.children, node.children.len() as int);
    match child_values {
        Err(f) => (NodeView { children, ..node }, Err(f)),
        Ok(values) => {
            let (constituents, named) = validated_constituents(
                node.constituents,
                node.constituents.len() as int,
            );
            match named {
                Err(f) => (NodeView { children, constituents, ..node }, Err(f)),
                Ok(named_values) => {
                    let (state, outcome) = own_outcome(
                        node.state,
                        node.statement,
                        node.span,
                        values,
                        named_values,
                    );
                    (NodeView { children, constituents, state, ..node }, outcome)
                },
            }
        },
    }
}

/// The first `n` nodes of a list validated in order, up to the first
/// failure: the list afterwards, and the values or that failure.
pub open spec fn validated_children(nodes: Seq<NodeView>, n: int) -> (
    Seq<NodeView>,
    Result<Seq<Value>, Failure>,
)
    decreases nodes, n,
{
    if n <= 0 || n > nodes.len() {
        (nodes, Ok(Seq::empty()))
    } else {
        let (before, values) = validated_children(nodes, n - 1);
        match values {
            Err(f) => (before, Err(f)),
            Ok(vs) => {
                let (node, outcome) = validated(nodes[n - 1]);
                (
                    before.update(n - 1, node),
                    match outcome {
                        Ok(v) => Ok(vs.push(v)),
                        Err(f) => Err(f),
                    },
                )
            },
        }
    }
}

/// The first `n` named nodes of a list validated in order, up to the
/// first failure: the list afterwards, and the named values or that
/// failure.
pub open spec fn validated_constituents(nodes: Seq<(Seq<char>, NodeView)>, n: int) -> (
    Seq<(Seq<char>, NodeView)>,
    Result<Seq<(Seq<char>, Value)>, Failure>,
)
    decreases nodes, n,
{
    if n <= 0 || n > nodes.len() {
        (nodes, Ok(Seq::empty()))
    } else {
        let (before, values) = validated_constituents(nodes, n - 1);
        match values {
            Err(f) => (before, Err(f)),
            Ok(vs) => {
                let (node, outcome) = validated(nodes[n - 1].1);
                (
                    before.update(n - 1, (nodes[n - 1].0, node)),
                    match outcome {
                        Ok(v) => Ok(vs.push((nodes[n - 1].0, v))),
                        Err(f) => Err(f),
                    },
                )
            },
        }
    }
}

/// Once a node of the list has failed, the nodes behind it change
/// nothing.
proof fn lemma_children_stay_failed(nodes: Seq<NodeView>, k: int, n: int)
    requires
        0 <= k <= n <= nodes.len(),
    ensures
        validated_children(nodes, k).1 is Err ==> validated_children(nodes, n)
            == validated_children(nodes, k),
    decreases n,
{
    if k < n {
        lemma_children_stay_failed(nodes, k, n - 1);
    }
}

proof fn lemma_constituents_stay_failed(nodes: Seq<(Seq<char>, NodeView)>, k: int, n: int)
    requires
        0 <= k <= n <= nodes.len(),
    ensures
        validated_constituents(nodes, k).1 is Err ==> validated_constituents(nodes, n)
            == validated_constituents(nodes, k),
    decreases n,
{
    if k < n {
        lemma_constituents_stay_failed(nodes, k, n - 1);
    }
}

proof fn lemma_merge_stays_failed(r: Resolution, values: Seq<Value>, k: int, n: int)
    requires
        0 <= k <= n <= values.len(),
    ensures
        merge_children(r, values, k).1 is Some ==> merge_children(r, values, n) == merge_children(
            r,
            values,
            k,
        ),
    decreases n,
{
    if k < n {
        lemma_merge_stays_failed(r, values, k, n - 1);
    }
}

/// Merges the values of the children and of the constituents of a node
/// into its result, as [`merged`] says.
pub fn merge_values(
    result: &mut ResolvedValue,
    children: &Vec<GodotValue>,
    constituents: &Vec<(String, GodotValue)>,
) -> (r: Result<(), DokeValidationError>)
    ensures
        final(result)@ == merged(old(result)@, values_view(children@), fields_view(constituents@)).0,
        match merged(old(result)@, values_view(children@), fields_view(constituents@)).1 {
            None => r is Ok,
            Some(f) => r matches Err(e) && e@ == f,
        },
{
    let ghost start = result@;
    let ghost cs = values_view(children@);
    let ghost ks = fields_view(constituents@);
    let mut i: usize = 0;
    while i < children.len()
        invariant
            i <= children.len(),
            start == old(result)@,
            cs == values_view(children@),
            ks == fields_view(constituents@),
            merge_children(start, cs, i as int) == (result@, None::<Failure>),
        decreases children.len() - i,
    {
        assert(cs[i as int] == children@[i as int]@);
        proof {
            lemma_merge_stays_failed(start, cs, i + 1, children.len() as int);
        }
        match result.use_child(children[i].clone()) {
            Ok(()) => {},
            Err(e) => {
                return Err(DokeValidationError::ChildUsageFailed(e));
            },
        }
        i += 1;
    }
    let ghost middle = result@;
    let mut j: usize = 0;
    while j < constituents.len()
        invariant
            j <= constituents.len(),
            ks == fields_view(constituents@),
            merge_constituents(middle, ks, j as int) == result@,
        decreases constituents.len() - j,
    {
        assert(ks[j as int] == (constituents@[j as int].0@, constituents@[j as int].1@));
        let _ = result.use_constituent(constituents[j].0.as_str(), constituents[j].1.clone());
        j += 1;
    }
    Ok(())
}

/// Finds the reading that is promoted, as [`best_conjecture`] says; none
/// where there is no reading.
pub fn best_hypothesis(hypotheses: &Vec<Hypothesis>) -> (r: Option<usize>)
    ensures
        match r {
            Some(best) => hypotheses.len() > 0 && best < hypotheses.len() && best
                == best_conjecture(conjectures_view(hypotheses@), hypotheses.len() as int),
            None => hypotheses.len() == 0,
        },
{
    if hypotheses.len() == 0 {
        return None;
    }
    let ghost hs = conjectures_view(hypotheses@);
    let mut best: usize = 0;
    let mut i: usize = 1;
    while i < hypotheses.len()
        invariant
            1 <= i <= hypotheses.len(),
            hs == conjectures_view(hypotheses@),
            best == best_conjecture(hs, i as int),
            best < i,
        decreases hypotheses.len() - i,
    {
        assert(hs[i as int] == hypotheses@[i as int]@);
        assert(hs[best as int] == hypotheses@[best as int]@);
        if hypotheses[i].confidence() >= hypotheses[best].confidence() {
            best = i;
        }
        i += 1;
    }
    Some(best)
}

/// The pass that turns a resolved tree into values.
#[derive(Debug)]
pub struct DokeValidate {
    errors: Vec<DokeValidationError>,
}

impl DokeValidate {
    /// The failures that the validator has collected.
    pub closed spec fn collected(&self) -> Seq<Failure> {
        failures_view(self.errors@)
    }

    /// A validator that has collected no failure.
    pub fn new() -> (r: Self)
        ensures
            r.collected() == Seq::<Failure>::empty(),
    {
        DokeValidate { errors: Vec::new() }
    }

    /// Decides a node's own state, as [`own_outcome`] says.
    fn settle(
        node: &mut DokeNode,
        children: &Vec<GodotValue>,
        constituents: &Vec<(String, GodotValue)>,
    ) -> (r: Result<GodotValue, DokeValidationError>)
        ensures
            final(node).statement == old(node).statement,
            final(node).children == old(node).children,
            final(node).parse_data == old(node).parse_data,
            final(node).constituents == old(node).constituents,
            final(node).span == old(node).span,
            final(node).state@ == own_outcome(
                old(node).state@,
                old(node).statement@,
                old(node).span,
                values_view(children@),
                fields_view(constituents@),
            ).0,
            match own_outcome(
                old(node).state@,
                old(node).statement@,
                old(node).span,
                values_view(children@),
                fields_view(constituents@),
            ).1 {
                Ok(v) => r matches Ok(g) && g@ == v,
                Err(f) => r matches Err(e) && e@ == f,
            },
    {
        let mut state = DokeNodeState::Unresolved;
        core::mem::swap(&mut node.state, &mut state);
        match state {
            DokeNodeState::Unresolved => Err(
                DokeValidationError::UnresolvedNode(node.statement.clone()),
            ),
            DokeNodeState::Error(e) => {
                let text = e.message();
                node.state = DokeNodeState::Error(e);
                Err(DokeValidationError::NodeError(node.statement.clone(), text))
            },
            DokeNodeState::Resolved(mut result) => {
                let merged = merge_values(&mut result, children, constituents);
                let value = result.to_godot();
                node.state = DokeNodeState::Resolved(result);
                match merged {
                    Ok(()) => Ok(value),
                    Err(e) => Err(e),
                }
            },
            DokeNodeState::Hypothesis(hypotheses) => {
                let best = match best_hypothesis(&hypotheses) {
                    Some(best) => best,
                    None => {
                        node.state = DokeNodeState::Hypothesis(hypotheses);
                        return Err(DokeValidationError::UnresolvedNode(node.statement.clone()));
                    },
                };
                assert(conjectures_view(hypotheses@)[best as int] == hypotheses@[best as int]@);
                match &hypotheses[best] {
                    Hypothesis::Failed(h) => {
                        let error = h.error.clone();
                        node.state = DokeNodeState::Hypothesis(hypotheses);
                        Err(DokeValidationError::HypothesisPromotionFailed(error, node.span))
                    },
                    Hypothesis::Guess { result, .. } => {
                        let mut promoted = result.clone();
                        match merge_values(&mut promoted, children, constituents) {
                            Ok(()) => {
                                let value = promoted.to_godot();
                                node.state = DokeNodeState::Resolved(promoted);
                                Ok(value)
                            },
                            Err(e) => {
                                node.state = DokeNodeState::Hypothesis(hypotheses);
                                Err(e)
                            },
                        }
                    },
                }
            },
        }
    }
}

/// The first `n` root statements validated, each on its own: the roots
/// afterwards, the values of those that came through and the failures of
/// the others, each list in the order of the roots.
pub open spec fn validated_roots(roots: Seq<NodeView>, n: int) -> (Seq<NodeView>, Seq<Value>, Seq<Failure>)
    decreases n,
{
    if n <= 0 || n > roots.len() {
        (roots, Seq::empty(), Seq::empty())
    } else {
        let (before, values, failures) = validated_roots(roots, n - 1);
        let (node, outcome) = validated(roots[n - 1]);
        match outcome {
            Ok(v) => (before.update(n - 1, node), values.push(v), failures),
            Err(f) => (before.update(n - 1, node), values, failures.push(f)),
        }
    }
}

/// What a whole tree comes to: the values where no statement failed, the
/// one failure where one did, all the failures together where several did.
pub open spec fn tree_outcome(values: Seq<Value>, failures: Seq<Failure>) -> Result<
    Seq<Value>,
    Failure,
> {
    if failures.len() == 0 {
        Ok(values)
    } else if failures.len() == 1 {
        Err(failures[0])
    } else {
        Err(Failure::MultipleErrors(failures))
    }
}

/// How many of the first `n` root statements fail.
pub open spec fn failing_roots(roots: Seq<NodeView>, n: int) -> nat
    decreases n,
{
    if n <= 0 || n > roots.len() {
        0
    } else if validated(roots[n - 1]).1 is Err {
        failing_roots(roots, n - 1) + 1
    } else {
        failing_roots(roots, n - 1)
    }
}

/// Every failing root is reported, and nothing else: of `n` roots as many
/// failures are collected as roots fail, and as many values as roots come
/// through. Where two or more fail, the tree's outcome holds exactly those
/// failures.
pub proof fn lemma_every_failure_is_reported(roots: Seq<NodeView>, n: int)
    requires
        0 <= n <= roots.len(),
    ensures
        validated_roots(roots, n).2.len() == failing_roots(roots, n),
        validated_roots(roots, n).1.len() == n - failing_roots(roots, n),
        validated_roots(roots, n).0.len() == roots.len(),
        failing_roots(roots, n) >= 2 ==> tree_outcome(
            validated_roots(roots, n).1,
            validated_roots(roots, n).2,
        ) == Err::<Seq<Value>, Failure>(Failure::MultipleErrors(validated_roots(roots, n).2)),
    decreases n,
{
    if n > 0 {
        lemma_every_failure_is_reported(roots, n - 1);
    }
}

impl DokeValidate {
    /// Validates one node and everything below it, as [`validated`] says.
    pub fn process_node(&self, node: &mut DokeNode, frontmatter: &Vec<(String, GodotValue)>) -> (r:
        Result<GodotValue, DokeValidationError>)
        ensures
            final(node)@ == validated(old(node)@).0,
            match validated(old(node)@).1 {
                Ok(v) => r matches Ok(g) && g@ == v,
                Err(f) => r matches Err(e) && e@ == f,
            },
        decreases *old(node),
    {
        proof {
            lemma_node_view(*node);
        }
        let ghost start = node@;
        let mut child_values: Vec<GodotValue> = Vec::new();
        assert(values_view(child_values@) =~= Seq::empty());
        let mut i: usize = 0;
        while i < node.children.len()
            invariant
                i <= node.children.len(),
                start == old(node)@,
                node.children.len() == old(node).children.len(),
                node.statement == old(node).statement,
                node.state == old(node).state,
                node.parse_data == old(node).parse_data,
                node.constituents == old(node).constituents,
                node.span == old(node).span,
                forall|k: int| i <= k < node.children.len() ==> node.children@[k] == old(
                    node,
                ).children@[k],
                validated_children(start.children, i as int) == (
                    nodes_view(node.children@),
                    Ok::<Seq<Value>, Failure>(values_view(child_values@)),
                ),
            decreases node.children.len() - i,
        {
            proof {
                lemma_node_view(*old(node));
                lemma_children_stay_failed(start.children, i + 1, start.children.len() as int);
            }
            let ghost before = node.children@;
            let mut child = node.children.remove(i);
            assert(child == old(node).children@[i as int]);
            let outcome = self.process_node(&mut child, frontmatter);
            node.children.insert(i, child);
            proof {
                assert(node.children@ =~= before.update(i as int, child));
                assert(nodes_view(node.children@) =~= nodes_view(before).update(i as int, child@));
            }
            match outcome {
                Ok(v) => {
                    child_values.push(v);
                    assert(values_view(child_values@) =~= validated_children(
                        start.children,
                        i as int,
                    ).1->Ok_0.push(v@));
                },
                Err(e) => {
                    proof {
                        lemma_node_view(*node);
                    }
                    return Err(e);
                },
            }
            i += 1;
        }
        let mut named_values: Vec<(String, GodotValue)> = Vec::new();
        assert(fields_view(named_values@) =~= Seq::empty());
        let mut j: usize = 0;
        while j < node.constituents.len()
            invariant
                j <= node.constituents.len(),
                start == old(node)@,
                node.constituents.len() == old(node).constituents.len(),
                node.statement == old(node).statement,
                node.state == old(node).state,
                node.parse_data == old(node).parse_data,
                node.span == old(node).span,
                validated_children(start.children, start.children.len() as int) == (
                    nodes_view(node.children@),
                    Ok::<Seq<Value>, Failure>(values_view(child_values@)),
                ),
                forall|k: int| j <= k < node.constituents.len() ==> node.constituents@[k] == old(
                    node,
                ).constituents@[k],
                validated_constituents(start.constituents, j as int) == (
                    named_nodes_view(node.constituents@),
                    Ok::<Seq<(Seq<char>, Value)>, Failure>(fields_view(named_values@)),
                ),
            decreases node.constituents.len() - j,
        {
            proof {
                lemma_node_view(*old(node));
                lemma_constituents_stay_failed(
                    start.constituents,
                    j + 1,
                    start.constituents.len() as int,
                );
            }
            let ghost before = node.constituents@;
            let (name, mut child) = node.constituents.remove(j);
            assert((name, child) == old(node).constituents@[j as int]);
            let outcome = self.process_node(&mut child, frontmatter);
            let label = name.clone();
            node.constituents.insert(j, (name, child));
            proof {
                assert(node.constituents@ =~= before.update(j as int, (name, child)));
                assert(named_nodes_view(node.constituents@) =~= named_nodes_view(before).update(
                    j as int,
                    (name@, child@),
                ));
            }
            match outcome {
                Ok(v) => {
                    named_values.push((label, v));
                    assert(fields_view(named_values@) =~= validated_constituents(
                        start.constituents,
                        j as int,
                    ).1->Ok_0.push((name@, v@)));
                },
                Err(e) => {
                    proof {
                        lemma_node_view(*node);
                    }
                    return Err(e);
                },
            }
            j += 1;
        }
        let r = DokeValidate::settle(node, &child_values, &named_values);
        proof {
            lemma_node_view(*node);
        }
        r
    }

    /// Validates every root statement on its own and gathers what they
    /// come to, as [`validated_roots`] and [`tree_outcome`] say: the
    /// values of all roots, or the one failure, or all failures together.
    /// The front matter has no part in it.
    pub fn validate_tree(
        root_nodes: &mut Vec<DokeNode>,
        frontmatter: &Vec<(String, GodotValue)>,
    ) -> (r: Result<Vec<GodotValue>, DokeValidationError>)
        ensures
            nodes_view(final(root_nodes)@) == validated_roots(
                nodes_view(old(root_nodes)@),
                old(root_nodes).len() as int,
            ).0,
            match tree_outcome(
                validated_roots(nodes_view(old(root_nodes)@), old(root_nodes).len() as int).1,
                validated_roots(nodes_view(old(root_nodes)@), old(root_nodes).len() as int).2,
            ) {
                Ok(values) => r matches Ok(found) && values_view(found@) == values,
                Err(f) => r matches Err(e) && e@ == f,
            },
    {
        let mut validator = DokeValidate::new();
        let ghost roots = nodes_view(root_nodes@);
        let mut ok_values: Vec<GodotValue> = Vec::new();
        assert(values_view(ok_values@) =~= Seq::empty());
        assert(failures_view(validator.errors@) =~= Seq::empty());
        let mut i: usize = 0;
        while i < root_nodes.len()
            invariant
                i <= root_nodes.len(),
                root_nodes.len() == old(root_nodes).len(),
                roots == nodes_view(old(root_nodes)@),
                forall|k: int| i <= k < root_nodes.len() ==> root_nodes@[k] == old(root_nodes)@[k],
                validated_roots(roots, i as int) == (
                    nodes_view(root_nodes@),
                    values_view(ok_values@),
                    failures_view(validator.errors@),
                ),
            decreases root_nodes.len() - i,
        {
            let ghost before = root_nodes@;
            let mut root = root_nodes.remove(i);
            let outcome = validator.process_node(&mut root, frontmatter);
            root_nodes.insert(i, root);
            proof {
                assert(root_nodes@ =~= before.update(i as int, root));
                assert(nodes_view(root_nodes@) =~= nodes_view(before).update(i as int, root@));
            }
            match outcome {
                Ok(v) => {
                    ok_values.push(v);
                    assert(values_view(ok_values@) =~= validated_roots(roots, i as int).1.push(
                        v@,
                    ));
                },
                Err(e) => {
                    validator.errors.push(e);
                    assert(failures_view(validator.errors@) =~= validated_roots(
                        roots,
                        i as int,
                    ).2.push(e@));
                },
            }
            i += 1;
        }
        if validator.errors.len() == 0 {
            Ok(ok_values)
        } else if validator.errors.len() == 1 {
            let e = validator.errors.remove(0);
            Err(e)
        } else {
            let e = DokeValidationError::MultipleErrors(DokeErrors(validator.errors));
            proof {
                lemma_failure_view(e);
            }
            Err(e)
        }
    }
}

/// What a node can be resolved to: something that has a final value and
/// can take the values of the node's children and constituents.
pub trait DokeOut: Sized {
    /// The final value as it stands.
    spec fn final_value(&self) -> Value;

    /// The name of this kind of result.
    spec fn kind_name(&self) -> Seq<char>;

    /// Whether `after` is this result with the value of one more child
    /// statement merged in.
    spec fn took_child(&self, child: Value, after: &Self) -> bool;

    /// What the error names where the result takes no child; `None`
    /// where it takes one.
    spec fn refusal(&self, child: Value) -> Option<Seq<char>>;

    /// Whether `after` is this result with the value of a constituent
    /// merged in under its name.
    spec fn took_constituent(&self, name: Seq<char>, value: Value, after: &Self) -> bool;

    /// The name of this kind of result.
    fn kind(&self) -> (r: &'static str)
        ensures
            r@ == self.kind_name(),
    ;

    /// The final value.
    fn to_godot(&self) -> (r: GodotValue)
        ensures
            r@ == self.final_value(),
    ;

    /// The abstract type of the result: none is known to a result by
    /// itself.
    fn get_asbtract_type(&self) -> (r: Option<String>)
        ensures
            r is None,
    ;

    /// Merges the value of a child statement; on an error the final value
    /// stays as it was.
    fn use_child(&mut self, child: GodotValue) -> (r: Result<(), GodotValueError>)
        ensures
            match old(self).refusal(child@) {
                None => r is Ok && old(self).took_child(child@, final(self)),
                Some(what) => {
                    &&& r matches Err(GodotValueError::InvalidChild(w))
                    &&& w@ == what
                    &&& final(self).final_value() == old(self).final_value()
                },
            },
    ;

    /// Merges the value of a constituent.
    fn use_constituent(&mut self, name: &str, value: GodotValue) -> (r: Result<
        (),
        GodotValueError,
    >)
        ensures
            r is Ok,
            old(self).took_constituent(name@, value@, final(self)),
    ;
}

impl DokeOut for GodotValue {
    open spec fn final_value(&self) -> Value {
        self@
    }

    open spec fn kind_name(&self) -> Seq<char> {
        kind_of(self@)
    }

    open spec fn took_child(&self, child: Value, after: &Self) -> bool {
        with_child(self@, child) == Some(after@)
    }

    open spec fn refusal(&self, child: Value) -> Option<Seq<char>> {
        if with_child(self@, child) is None {
            Some(child_refusal(self@))
        } else {
            None
        }
    }

    open spec fn took_constituent(&self, name: Seq<char>, value: Value, after: &Self) -> bool {
        after@ == self@
    }

    fn kind(&self) -> (r: &'static str) {
        GodotValue::kind(self)
    }

    fn to_godot(&self) -> (r: GodotValue) {
        GodotValue::to_godot(self)
    }

    fn get_asbtract_type(&self) -> (r: Option<String>) {
        None
    }

    fn use_child(&mut self, child: GodotValue) -> (r: Result<(), GodotValueError>) {
        GodotValue::use_child(self, child)
    }

    fn use_constituent(&mut self, name: &str, value: GodotValue) -> (r: Result<
        (),
        GodotValueError,
    >) {
        Ok(())
    }
}

impl DokeOut for SentenceResult {
    open spec fn final_value(&self) -> Value {
        sentence_value(self@)
    }

    open spec fn kind_name(&self) -> Seq<char> {
        "SentenceResult"@
    }

    open spec fn took_child(&self, child: Value, after: &Self) -> bool {
        parameters_with_child(self@.parameters, child) matches Some(p) && after@ == (Sentence {
            parameters: p,
            ..self@
        })
    }

    open spec fn refusal(&self, child: Value) -> Option<Seq<char>> {
        if parameters_with_child(self@.parameters, child) is None {
            Some("children field is not an array"@)
        } else {
            None
        }
    }

    open spec fn took_constituent(&self, name: Seq<char>, value: Value, after: &Self) -> bool {
        after@ == (Sentence { parameters: upsert(self@.parameters, name, value), ..self@ })
    }

    fn kind(&self) -> (r: &'static str) {
        SentenceResult::kind(self)
    }

    fn to_godot(&self) -> (r: GodotValue) {
        SentenceResult::to_godot(self)
    }

    fn get_asbtract_type(&self) -> (r: Option<String>) {
        None
    }

    fn use_child(&mut self, child: GodotValue) -> (r: Result<(), GodotValueError>) {
        SentenceResult::use_child(self, child)
    }

    fn use_constituent(&mut self, name: &str, value: GodotValue) -> (r: Result<
        (),
        GodotValueError,
    >) {
        SentenceResult::use_constituent(self, name, value)
    }
}

impl DokeOut for ResolvedValue {
    open spec fn final_value(&self) -> Value {
        resolution_value(self@)
    }

    open spec fn kind_name(&self) -> Seq<char> {
        match self@ {
            Resolution::Value(v) => kind_of(v),
            Resolution::Sentence(_) => "SentenceResult"@,
        }
    }

    open spec fn took_child(&self, child: Value, after: &Self) -> bool {
        resolution_with_child(self@, child) == Ok::<Resolution, Seq<char>>(after@)
    }

    open spec fn refusal(&self, child: Value) -> Option<Seq<char>> {
        match resolution_with_child(self@, child) {
            Ok(_) => None,
            Err(what) => Some(what),
        }
    }

    open spec fn took_constituent(&self, name: Seq<char>, value: Value, after: &Self) -> bool {
        after@ == resolution_with_constituent(self@, name, value)
    }

    fn kind(&self) -> (r: &'static str) {
        match self {
            ResolvedValue::Value(v) => v.kind(),
            ResolvedValue::Sentence(s) => s.kind(),
        }
    }

    fn to_godot(&self) -> (r: GodotValue) {
        ResolvedValue::to_godot(self)
    }

    fn get_asbtract_type(&self) -> (r: Option<String>) {
        None
    }

    fn use_child(&mut self, child: GodotValue) -> (r: Result<(), GodotValueError>) {
        ResolvedValue::use_child(self, child)
    }

    fn use_constituent(&mut self, name: &str, value: GodotValue) -> (r: Result<
        (),
        GodotValueError,
    >) {
        ResolvedValue::use_constituent(self, name, value)
    }
}

/// A tentative reading: it has a confidence and can be promoted into a
/// result or into an error.
pub trait Hypo: Sized {
    /// The reading as plain values.
    spec fn reading(&self) -> Conjecture;

    /// The name of this kind of reading.
    spec fn kind_name(&self) -> Seq<char>;

    /// The name of this kind of reading.
    fn kind(&self) -> (r: &'static str)
        ensures
            r@ == self.kind_name(),
    ;

    /// How sure the reading is.
    fn confidence(&self) -> (r: i32)
        ensures
            r == confidence_of(self.reading()),
    ;

    /// The result of the reading, or its error.
    fn promote(self) -> (r: Result<ResolvedValue, SentenceParseError>)
        ensures
            match promoted(self.reading()) {
                Ok(result) => r matches Ok(found) && found@ == result,
                Err(error) => r matches Err(e) && e@ == error,
            },
    ;
}

impl Hypo for ErrorHypo {
    open spec fn reading(&self) -> Conjecture {
        Conjecture::Failed { error: self.error@, statement: self.statement@ }
    }

    open spec fn kind_name(&self) -> Seq<char> {
        "SentenceParseError"@
    }

    fn kind(&self) -> (r: &'static str) {
        ErrorHypo::kind(self)
    }

    fn confidence(&self) -> (r: i32) {
        ErrorHypo::confidence(self)
    }

    fn promote(self) -> (r: Result<ResolvedValue, SentenceParseError>) {
        ErrorHypo::promote(self)
    }
}

impl Hypo for Hypothesis {
    open spec fn reading(&self) -> Conjecture {
        self@
    }

    open spec fn kind_name(&self) -> Seq<char> {
        match self@ {
            Conjecture::Failed { .. } => "SentenceParseError"@,
            Conjecture::Guess { .. } => "Guess"@,
        }
    }

    fn kind(&self) -> (r: &'static str) {
        match self {
            Hypothesis::Failed(h) => h.kind(),
            Hypothesis::Guess { .. } => "Guess",
        }
    }

    fn confidence(&self) -> (r: i32) {
        Hypothesis::confidence(self)
    }

    fn promote(self) -> (r: Result<ResolvedValue, SentenceParseError>) {
        Hypothesis::promote(self)
    }
}

/// A parser of statements: it works on a node in place, with the front
/// matter of the document at hand.
pub trait DokeParser {
    /// The node after the parser has processed it.
    spec fn processed(&self, node: NodeView, front: Seq<(Seq<char>, Value)>) -> NodeView;

    /// Processes a node.
    fn process(&self, node: &mut DokeNode, frontmatter: &Vec<(String, GodotValue)>)
        ensures
            final(node)@ == self.processed(old(node)@, fields_view(frontmatter@)),
    ;
}

} // verus!
