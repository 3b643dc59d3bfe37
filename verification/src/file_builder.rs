//! Sorts the values of a document into the fields of one file resource.

use crate::semantic::{
    GodotValue, Value, fields_view, lemma_value_view, set_field, upsert, values_view,
};
use crate::text::{
    chars_of, holds_name, is_word_ignoring_case, lower_seq, same_text, string_of, strings_view,
    sub_vec,
};
use crate::yaml::{
    YamlNode, YamlValue, find_yaml_key, lemma_yaml_view, load_documents, scan_error_text,
    yaml_documents, yaml_entries_view, yaml_key_index, yaml_nodes_view,
};
use vstd::prelude::*;

verus! {

/// What can go wrong while a file resource is configured or built.
#[derive(Debug, PartialEq)]
pub enum BuilderError {
    /// The configuration is no valid YAML.
    Yaml(String),
    /// The configuration could not be read.
    Io(String),
    /// The configuration is malformed.
    Config(String),
    /// No value is left for the required field (first) of the type
    /// (second).
    MissingField(String, String),
    /// The field (first) should be of one type (second) and is of another
    /// (third).
    TypeMismatch(String, String, String),
}

/// The type of a field: one value, or an array of values of one type.
#[derive(Debug, PartialEq)]
pub enum FieldType {
    Single(String),
    Array(String),
}

/// One field of the file resource.
#[derive(Debug, PartialEq)]
pub struct FieldConfig {
    pub name: String,
    pub ty: FieldType,
    pub optional: bool,
}

/// The type of the file resource and its fields, in the order in which
/// they take their values.
#[derive(Debug, PartialEq)]
pub struct Config {
    pub root: String,
    pub children: Vec<FieldConfig>,
}

/// A [`FieldConfig`] as plain values.
pub struct Field {
    pub name: Seq<char>,
    pub ty: Seq<char>,
    pub is_array: bool,
    pub optional: bool,
}

impl View for FieldConfig {
    type V = Field;

    open spec fn view(&self) -> Field {
        Field {
            name: self.name@,
            ty: match self.ty {
                FieldType::Single(t) => t@,
                FieldType::Array(t) => t@,
            },
            is_array: self.ty is Array,
            optional: self.optional,
        }
    }
}

/// The fields of a list as plain values.
pub open spec fn fields_of(children: Seq<FieldConfig>) -> Seq<Field> {
    Seq::new(children.len(), |i: int| children[i]@)
}

/// The types of the optional fields among the first `n`, in order.
pub open spec fn optional_types(children: Seq<Field>, n: int) -> Seq<Seq<char>>
    decreases n,
{
    if n <= 0 || n > children.len() {
        Seq::empty()
    } else if children[n - 1].optional {
        optional_types(children, n - 1).push(children[n - 1].ty)
    } else {
        optional_types(children, n - 1)
    }
}

/// Whether the field at `at` is required although an optional field of
/// the same type stands before it.
pub open spec fn out_of_order(children: Seq<Field>, at: int) -> bool {
    0 <= at < children.len() && !children[at].optional && optional_types(children, at).contains(
        children[at].ty,
    )
}

/// The first field from `from` on that is out of order, or the number of
/// fields where none is.
pub open spec fn first_out_of_order(children: Seq<Field>, from: int) -> int
    decreases children.len() - from,
{
    if from < 0 || from >= children.len() || out_of_order(children, from) {
        from
    } else {
        first_out_of_order(children, from + 1)
    }
}

/// What is said of a field that is out of order.
pub open spec fn out_of_order_text(f: Field) -> Seq<char> {
    "An optional "@ + f.ty + " came before a required one in "@ + f.name + " : \n"@
}

/// Builds the file resource from the values of a document.
#[derive(Debug, PartialEq)]
pub struct ResourceBuilder {
    pub config: Config,
}

/// Whether a value is of the type `ty`: a scalar, an array or a
/// dictionary by the name of its kind, whatever its ASCII case; a resource
/// by the name of its type.
pub open spec fn value_matches(v: Value, ty: Seq<char>) -> bool {
    match v {
        Value::Int(_) => lower_seq(ty) == "int"@,
        Value::Float(_) => lower_seq(ty) == "float"@,
        Value::String(_) => lower_seq(ty) == "string"@,
        Value::Array(_) => lower_seq(ty) == "array"@,
        Value::Dict(_) => lower_seq(ty) == "dict"@,
        Value::Bool(_) => lower_seq(ty) == "bool"@,
        Value::Resource { resource_type, .. } => resource_type == ty,
        Value::Nil => lower_seq(ty) == "nil"@,
    }
}

/// Whether a value is of the type `ty`, as [`value_matches`] says.
pub fn matches_type(v: &GodotValue, ty: &str) -> (r: bool)
    ensures
        r == value_matches(v@, ty@),
{
    let t = chars_of(ty);
    match v {
        GodotValue::Int(_) => is_word_ignoring_case(&t, "int"),
        GodotValue::Float(_) => is_word_ignoring_case(&t, "float"),
        GodotValue::String(_) => is_word_ignoring_case(&t, "string"),
        GodotValue::Array(_) => is_word_ignoring_case(&t, "array"),
        GodotValue::Dict(_) => is_word_ignoring_case(&t, "dict"),
        GodotValue::Bool(_) => is_word_ignoring_case(&t, "bool"),
        GodotValue::Resource { resource_type, .. } => same_text(resource_type.as_str(), ty),
        GodotValue::Nil => is_word_ignoring_case(&t, "nil"),
    }
}

/// Of the first `n` values those that are of the type `ty` (`wanted`) or
/// those that are not, in order.
pub open spec fn sorted_out(values: Seq<Value>, ty: Seq<char>, wanted: bool, n: int) -> Seq<Value>
    decreases n,
{
    if n <= 0 || n > values.len() {
        Seq::empty()
    } else if value_matches(values[n - 1], ty) == wanted {
        sorted_out(values, ty, wanted, n - 1).push(values[n - 1])
    } else {
        sorted_out(values, ty, wanted, n - 1)
    }
}

/// The index of the first value from `from` on that is of the type `ty`,
/// or the number of values.
pub open spec fn first_of_type(values: Seq<Value>, ty: Seq<char>, from: int) -> int
    decreases values.len() - from,
{
    if from < 0 || from >= values.len() || value_matches(values[from], ty) {
        from
    } else {
        first_of_type(values, ty, from + 1)
    }
}

/// What the fields have taken so far: the fields of the resource, and the
/// values that are still free.
pub struct Assembly {
    pub fields: Seq<(Seq<char>, Value)>,
    pub unused: Seq<Value>,
}

/// The assembly after one more field has taken its share of the free
/// values, or the field that is missing.
///
/// An array takes every free value of its type; without one it is empty
/// where it is optional and missing where it is not. A single field takes
/// the first free value of its type; without one it is nil where it is
/// optional and missing where it is not.
pub open spec fn place(f: Field, a: Assembly) -> Result<Assembly, (Seq<char>, Seq<char>)> {
    if f.is_array {
        let taken = sorted_out(a.unused, f.ty, true, a.unused.len() as int);
        let left = sorted_out(a.unused, f.ty, false, a.unused.len() as int);
        if taken.len() > 0 {
            Ok(Assembly { fields: upsert(a.fields, f.name, Value::Array(taken)), unused: left })
        } else if f.optional {
            Ok(
                Assembly {
                    fields: upsert(a.fields, f.name, Value::Array(Seq::empty())),
                    unused: left,
                },
            )
        } else {
            Err((f.name, f.ty))
        }
    } else {
        let at = first_of_type(a.unused, f.ty, 0);
        if at < a.unused.len() {
            Ok(
                Assembly {
                    fields: upsert(a.fields, f.name, a.unused[at]),
                    unused: a.unused.remove(at),
                },
            )
        } else if f.optional {
            Ok(Assembly { fields: upsert(a.fields, f.name, Value::Nil), ..a })
        } else {
            Err((f.name, f.ty))
        }
    }
}

/// The assembly after the first `n` fields have taken their values, in
/// order, or the first field that is missing.
pub open spec fn assembled(children: Seq<Field>, values: Seq<Value>, n: int) -> Result<
    Assembly,
    (Seq<char>, Seq<char>),
>
    decreases n,
{
    if n <= 0 || n > children.len() {
        Ok(Assembly { fields: Seq::empty(), unused: values })
    } else {
        match assembled(children, values, n - 1) {
            Err(missing) => Err(missing),
            Ok(a) => place(children[n - 1], a),
        }
    }
}

proof fn lemma_assembly_stays_refused(children: Seq<Field>, values: Seq<Value>, k: int, n: int)
    requires
        0 <= k <= n <= children.len(),
    ensures
        assembled(children, values, k) is Err ==> assembled(children, values, n) == assembled(
            children,
            values,
            k,
        ),
    decreases n,
{
    if k < n {
        lemma_assembly_stays_refused(children, values, k, n - 1);
    }
}

/// Splits the values into those of the type `ty` and the others, both in
/// order.
fn split_by_type(values: Vec<GodotValue>, ty: &str) -> (r: (Vec<GodotValue>, Vec<GodotValue>))
    ensures
        values_view(r.0@) == sorted_out(values_view(values@), ty@, true, values.len() as int),
        values_view(r.1@) == sorted_out(values_view(values@), ty@, false, values.len() as int),
{
    let ghost all = values_view(values@);
    let mut rest = values;
    let mut taken: Vec<GodotValue> = Vec::new();
    let mut left: Vec<GodotValue> = Vec::new();
    assert(values_view(taken@) =~= Seq::empty());
    assert(values_view(left@) =~= Seq::empty());
    let ghost mut done: int = 0;
    while rest.len() > 0
        invariant
            0 <= done <= all.len(),
            rest.len() == all.len() - done,
            forall|k: int| 0 <= k < rest.len() ==> (#[trigger] rest@[k])@ == all[done + k],
            values_view(taken@) == sorted_out(all, ty@, true, done),
            values_view(left@) == sorted_out(all, ty@, false, done),
        decreases rest.len(),
    {
        let v = rest.remove(0);
        assert(v@ == all[done]);
        if matches_type(&v, ty) {
            taken.push(v);
            assert(values_view(taken@) =~= sorted_out(all, ty@, true, done).push(v@));
        } else {
            left.push(v);
            assert(values_view(left@) =~= sorted_out(all, ty@, false, done).push(v@));
        }
        proof {
            done = done + 1;
        }
    }
    (taken, left)
}

/// The index of the first value of the type `ty`.
fn find_of_type(values: &Vec<GodotValue>, ty: &str) -> (r: usize)
    ensures
        r == first_of_type(values_view(values@), ty@, 0),
        r <= values.len(),
{
    let ghost all = values_view(values@);
    let mut i: usize = 0;
    while i < values.len()
        invariant
            i <= values.len(),
            all == values_view(values@),
            first_of_type(all, ty@, 0) == first_of_type(all, ty@, i as int),
        decreases values.len() - i,
    {
        assert(all[i as int] == values@[i as int]@);
        if matches_type(&values[i], ty) {
            return i;
        }
        i += 1;
    }
    i
}

impl ResourceBuilder {
    /// Accepts a configuration in which no required field stands behind
    /// an optional field of the same type; the first field that does is
    /// reported.
    pub fn from_config(config: Config) -> (r: Result<Self, BuilderError>)
        ensures
            ({
                let children = fields_of(config.children@);
                let at = first_out_of_order(children, 0);
                if at < children.len() {
                    r matches Err(BuilderError::Config(m)) && m@ == out_of_order_text(children[at])
                } else {
                    r matches Ok(b) && b.config == config
                }
            }),
    {
        let ghost children = fields_of(config.children@);
        let mut seen_optional: Vec<String> = Vec::new();
        assert(strings_view(seen_optional@) =~= Seq::empty());
        let mut i: usize = 0;
        while i < config.children.len()
            invariant
                i <= config.children.len(),
                children == fields_of(config.children@),
                first_out_of_order(children, 0) == first_out_of_order(children, i as int),
                strings_view(seen_optional@) == optional_types(children, i as int),
            decreases config.children.len() - i,
        {
            let field = &config.children[i];
            assert(children[i as int] == field@);
            let ty_name = match &field.ty {
                FieldType::Single(t) => t,
                FieldType::Array(t) => t,
            };
            if field.optional {
                seen_optional.push(ty_name.clone());
                assert(strings_view(seen_optional@) =~= optional_types(children, i as int).push(
                    ty_name@,
                ));
            } else if holds_name(&seen_optional, ty_name.as_str()) {
                let text = String::from_str("An optional ").concat(ty_name.as_str()).concat(
                    " came before a required one in ",
                ).concat(field.name.as_str()).concat(" : \n");
                return Err(BuilderError::Config(text));
            }
            i += 1;
        }
        Ok(ResourceBuilder { config })
    }

    /// Sorts the values of a document into the fields of the file
    /// resource, as [`assembled`] says: the resource of the configured
    /// type with its fields, or the first field for which no value is
    /// left.
    pub fn build_file_resource(&self, values: Vec<GodotValue>) -> (r: Result<
        GodotValue,
        BuilderError,
    >)
        ensures
            match assembled(
                fields_of(self.config.children@),
                values_view(values@),
                self.config.children.len() as int,
            ) {
                Ok(a) => r matches Ok(v) && v@ == (Value::Resource {
                    resource_type: self.config.root@,
                    fields: a.fields,
                }),
                Err(missing) => r matches Err(BuilderError::MissingField(name, ty)) && name@
                    == missing.0 && ty@ == missing.1,
            },
    {
        let ghost children = fields_of(self.config.children@);
        let ghost all = values_view(values@);
        let mut fields: Vec<(String, GodotValue)> = Vec::new();
        assert(fields_view(fields@) =~= Seq::empty());
        let mut unused = values;
        let mut i: usize = 0;
        while i < self.config.children.len()
            invariant
                i <= self.config.children.len(),
                children == fields_of(self.config.children@),
                all == values_view(values@),
                assembled(children, all, i as int) == Ok::<Assembly, (Seq<char>, Seq<char>)>(
                    Assembly { fields: fields_view(fields@), unused: values_view(unused@) },
                ),
            decreases self.config.children.len() - i,
        {
            let fc = &self.config.children[i];
            assert(children[i as int] == fc@);
            proof {
                lemma_assembly_stays_refused(
                    children,
                    all,
                    i + 1,
                    self.config.children.len() as int,
                );
            }
            match &fc.ty {
                FieldType::Array(ty) => {
                    let (collected, keep) = split_by_type(unused, ty.as_str());
                    unused = keep;
                    if collected.len() > 0 || fc.optional {
                        assert(collected.len() == 0 ==> values_view(collected@) =~= Seq::empty());
                        let list = GodotValue::Array(collected);
                        proof {
                            lemma_value_view(list);
                        }
                        set_field(&mut fields, fc.name.clone(), list);
                    } else {
                        return Err(BuilderError::MissingField(fc.name.clone(), ty.clone()));
                    }
                },
                FieldType::Single(ty) => {
                    let at = find_of_type(&unused, ty.as_str());
                    if at < unused.len() {
                        let ghost before = unused@;
                        let v = unused.remove(at);
                        assert(values_view(unused@) =~= values_view(before).remove(at as int));
                        set_field(&mut fields, fc.name.clone(), v);
                    } else if fc.optional {
                        set_field(&mut fields, fc.name.clone(), GodotValue::Nil);
                    } else {
                        return Err(BuilderError::MissingField(fc.name.clone(), ty.clone()));
                    }
                },
            }
            i += 1;
        }
        let r = GodotValue::Resource { resource_type: self.config.root.clone(), fields };
        proof {
            lemma_value_view(r);
        }
        Ok(r)
    }
}

/// The value under the string key `key` of a mapping; a bad value where
/// `y` is no mapping or has no such key.
pub open spec fn yaml_get(y: YamlValue, key: Seq<char>) -> YamlValue {
    match y {
        YamlValue::Hash(entries) => {
            let i = yaml_key_index(entries, key, 0);
            if i < entries.len() {
                entries[i].1
            } else {
                YamlValue::BadValue
            }
        },
        _ => YamlValue::BadValue,
    }
}

/// The field that one item of `children` declares, or what is wrong with
/// it.
///
/// The item is a mapping with one entry. The key is the name of the
/// field, with a final `?` where the field is optional. The value is the
/// type of a single field, or a sequence that holds the type of an array
/// field and nothing else.
pub open spec fn field_of(item: YamlValue) -> Result<Field, Seq<char>> {
    match item {
        YamlValue::Hash(obj) => if obj.len() != 1 {
            Err("Each child must have exactly one key"@)
        } else {
            match obj[0].0 {
                YamlValue::String(raw) => {
                    let optional = raw.len() > 0 && raw.last() == '?';
                    let name = if optional {
                        raw.drop_last()
                    } else {
                        raw
                    };
                    match obj[0].1 {
                        YamlValue::String(ty) => Ok(Field { name, ty, is_array: false, optional }),
                        YamlValue::Array(types) => if types.len() != 1 {
                            Err("Array field "@ + name + " must have exactly one type"@)
                        } else {
                            match types[0] {
                                YamlValue::String(ty) => Ok(
                                    Field { name, ty, is_array: true, optional },
                                ),
                                _ => Err("Array element must be string"@),
                            }
                        },
                        _ => Err("Invalid type spec for field "@ + name),
                    }
                },
                _ => Err("Child field name must be string"@),
            }
        },
        _ => Err("Each child must be a map"@),
    }
}

/// The fields that the first `n` items declare, or what is wrong with the
/// first malformed one.
pub open spec fn fields_in(items: Seq<YamlValue>, n: int) -> Result<Seq<Field>, Seq<char>>
    decreases n,
{
    if n <= 0 || n > items.len() {
        Ok(Seq::empty())
    } else {
        match fields_in(items, n - 1) {
            Err(m) => Err(m),
            Ok(fields) => match field_of(items[n - 1]) {
                Ok(f) => Ok(fields.push(f)),
                Err(m) => Err(m),
            },
        }
    }
}

/// The type of the file resource and its fields, as a document declares
/// them under `root` and `children`, or what is wrong with the document.
pub open spec fn config_of(y: YamlValue) -> Result<(Seq<char>, Seq<Field>), Seq<char>> {
    match yaml_get(y, "root"@) {
        YamlValue::String(root) => match yaml_get(y, "children"@) {
            YamlValue::Array(items) => match fields_in(items, items.len() as int) {
                Ok(fields) => Ok((root, fields)),
                Err(m) => Err(m),
            },
            _ => Err("Missing or invalid 'children' (must be a sequence)"@),
        },
        _ => Err("Missing 'root' string key"@),
    }
}

proof fn lemma_fields_stay_refused(items: Seq<YamlValue>, k: int, n: int)
    requires
        0 <= k <= n <= items.len(),
    ensures
        fields_in(items, k) is Err ==> fields_in(items, n) == fields_in(items, k),
    decreases n,
{
    if k < n {
        lemma_fields_stay_refused(items, k, n - 1);
    }
}

/// The value under a string key of a mapping, as [`yaml_get`] says;
/// `None` stands for the bad value.
fn get_entry<'a>(y: &'a YamlNode, key: &str) -> (r: Option<&'a YamlNode>)
    ensures
        match r {
            Some(node) => node@ == yaml_get(y@, key@),
            None => yaml_get(y@, key@) is BadValue,
        },
{
    proof {
        lemma_yaml_view(*y);
    }
    match y {
        YamlNode::Hash(entries) => {
            let i = find_yaml_key(entries, key);
            if i < entries.len() {
                assert(yaml_entries_view(entries@)[i as int] == (
                    entries@[i as int].0@,
                    entries@[i as int].1@,
                ));
                Some(&entries[i].1)
            } else {
                None
            }
        },
        _ => None,
    }
}

/// Reads one item of `children`, as [`field_of`] says.
fn read_field(item: &YamlNode) -> (r: Result<FieldConfig, BuilderError>)
    ensures
        match field_of(item@) {
            Ok(f) => r matches Ok(found) && found@ == f,
            Err(m) => r matches Err(BuilderError::Config(text)) && text@ == m,
        },
{
    proof {
        lemma_yaml_view(*item);
    }
    let obj = match item {
        YamlNode::Hash(obj) => obj,
        _ => {
            return Err(BuilderError::Config(String::from_str("Each child must be a map")));
        },
    };
    if obj.len() != 1 {
        return Err(BuilderError::Config(String::from_str("Each child must have exactly one key")));
    }
    assert(yaml_entries_view(obj@)[0] == (obj@[0].0@, obj@[0].1@));
    proof {
        lemma_yaml_view(obj@[0].1);
    }
    let raw = match &obj[0].0 {
        YamlNode::String(raw) => chars_of(raw.as_str()),
        _ => {
            return Err(BuilderError::Config(String::from_str("Child field name must be string")));
        },
    };
    let optional = raw.len() > 0 && raw[raw.len() - 1] == '?';
    let name = if optional {
        string_of(&sub_vec(&raw, 0, raw.len() - 1))
    } else {
        string_of(&raw)
    };
    match &obj[0].1 {
        YamlNode::String(ty) => Ok(
            FieldConfig { name, ty: FieldType::Single(ty.clone()), optional },
        ),
        YamlNode::Array(types) => {
            if types.len() != 1 {
                return Err(
                    BuilderError::Config(
                        String::from_str("Array field ").concat(name.as_str()).concat(
                            " must have exactly one type",
                        ),
                    ),
                );
            }
            assert(yaml_nodes_view(types@)[0] == types@[0]@);
            match &types[0] {
                YamlNode::String(ty) => Ok(
                    FieldConfig { name, ty: FieldType::Array(ty.clone()), optional },
                ),
                _ => Err(BuilderError::Config(String::from_str("Array element must be string"))),
            }
        },
        _ => Err(
            BuilderError::Config(
                String::from_str("Invalid type spec for field ").concat(name.as_str()),
            ),
        ),
    }
}

impl ResourceBuilder {
    /// Reads the configuration of the file resource out of a document, as
    /// [`config_of`] says.
    pub fn parse_config(y: &YamlNode) -> (r: Result<Config, BuilderError>)
        ensures
            match config_of(y@) {
                Ok((root, fields)) => r matches Ok(config) && config.root@ == root && fields_of(
                    config.children@,
                ) == fields,
                Err(m) => r matches Err(BuilderError::Config(text)) && text@ == m,
            },
    {
        let root = match get_entry(y, "root") {
            Some(YamlNode::String(root)) => root.clone(),
            _ => {
                return Err(BuilderError::Config(String::from_str("Missing 'root' string key")));
            },
        };
        let found = get_entry(y, "children");
        proof {
            if found is Some {
                lemma_yaml_view(*found.unwrap());
            }
        }
        let items = match found {
            Some(YamlNode::Array(items)) => items,
            _ => {
                return Err(
                    BuilderError::Config(
                        String::from_str("Missing or invalid 'children' (must be a sequence)"),
                    ),
                );
            },
        };
        let ghost all = yaml_nodes_view(items@);
        let mut children: Vec<FieldConfig> = Vec::new();
        assert(fields_of(children@) =~= Seq::empty());
        let mut i: usize = 0;
        while i < items.len()
            invariant
                i <= items.len(),
                all == yaml_nodes_view(items@),
                yaml_get(y@, "root"@) == YamlValue::String(root@),
                yaml_get(y@, "children"@) == YamlValue::Array(all),
                fields_in(all, i as int) == Ok::<Seq<Field>, Seq<char>>(fields_of(children@)),
            decreases items.len() - i,
        {
            assert(all[i as int] == items@[i as int]@);
            proof {
                lemma_fields_stay_refused(all, i + 1, items.len() as int);
            }
            let field = match read_field(&items[i]) {
                Ok(field) => field,
                Err(e) => {
                    return Err(e);
                },
            };
            children.push(field);
            assert(fields_of(children@) =~= fields_in(all, i as int)->Ok_0.push(field@));
            i += 1;
        }
        Ok(Config { root, children })
    }

    /// Builds the builder that the first document of a YAML text
    /// configures. A text that is no YAML, or holds no document, is
    /// refused with `Yaml`; a malformed document, or one whose fields are
    /// out of order, with `Config`.
    pub fn from_yaml(source: &str) -> (r: Result<Self, BuilderError>)
        ensures
            match yaml_documents(source@) {
                None => r matches Err(BuilderError::Yaml(_)),
                Some(docs) => if docs.len() == 0 {
                    r matches Err(BuilderError::Yaml(text)) && text@ == "Empty YAML file"@
                } else {
                    match config_of(docs[0]) {
                        Err(m) => r matches Err(BuilderError::Config(text)) && text@ == m,
                        Ok((root, fields)) => {
                            let at = first_out_of_order(fields, 0);
                            if at < fields.len() {
                                r matches Err(BuilderError::Config(text)) && text@
                                    == out_of_order_text(fields[at])
                            } else {
                                r matches Ok(b) && b.config.root@ == root && fields_of(
                                    b.config.children@,
                                ) == fields
                            }
                        },
                    }
                },
            },
    {
        let docs = match load_documents(source) {
            Ok(docs) => docs,
            Err(e) => {
                return Err(BuilderError::Yaml(scan_error_text(&e)));
            },
        };
        if docs.len() == 0 {
            return Err(BuilderError::Yaml(String::from_str("Empty YAML file")));
        }
        assert(yaml_nodes_view(docs@)[0] == docs@[0]@);
        let config = match ResourceBuilder::parse_config(&docs[0]) {
            Ok(config) => config,
            Err(e) => {
                return Err(e);
            },
        };
        ResourceBuilder::from_config(config)
    }
}

} // verus!
