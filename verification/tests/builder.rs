use doke::file_builder::{
    matches_type, BuilderError, Config, FieldConfig, FieldType, ResourceBuilder,
};
use doke::semantic::GodotValue;
use doke::yaml::YamlNode;

fn field(name: &str, ty: FieldType, optional: bool) -> FieldConfig {
    FieldConfig { name: name.to_string(), ty, optional }
}

fn single(t: &str) -> FieldType {
    FieldType::Single(t.to_string())
}

fn array(t: &str) -> FieldType {
    FieldType::Array(t.to_string())
}

fn res(t: &str) -> GodotValue {
    GodotValue::Resource { resource_type: t.to_string(), fields: vec![] }
}

#[test]
fn values_match_their_types() {
    assert!(matches_type(&GodotValue::Int(1), "INT"));
    assert!(matches_type(&GodotValue::Float("1.0".to_string()), "Float"));
    assert!(matches_type(&GodotValue::String("s".to_string()), "string"));
    assert!(matches_type(&GodotValue::Array(vec![]), "Array"));
    assert!(matches_type(&GodotValue::Dict(vec![]), "dict"));
    assert!(matches_type(&GodotValue::Bool(true), "BOOL"));
    assert!(matches_type(&GodotValue::Nil, "Nil"));
    assert!(matches_type(&res("Item"), "Item"));
    assert!(!matches_type(&res("Item"), "item"));
    assert!(!matches_type(&GodotValue::Int(1), "float"));
    assert!(!matches_type(&GodotValue::Nil, "null"));
}

#[test]
fn required_field_behind_an_optional_one_is_refused() {
    let ok = Config {
        root: "File".to_string(),
        children: vec![
            field("main", single("Item"), false),
            field("extra", single("Item"), true),
            field("notes", array("string"), false),
        ],
    };
    assert!(ResourceBuilder::from_config(ok).is_ok());
    let bad = Config {
        root: "File".to_string(),
        children: vec![
            field("extra", single("Item"), true),
            field("notes", array("string"), false),
            field("main", array("Item"), false),
            field("more", single("Item"), false),
        ],
    };
    assert_eq!(
        ResourceBuilder::from_config(bad),
        Err(BuilderError::Config("An optional Item came before a required one in main : \n".to_string()))
    );
}

#[test]
fn values_are_sorted_into_the_fields() {
    let builder = ResourceBuilder::from_config(Config {
        root: "ItemFile".to_string(),
        children: vec![
            field("action", single("ItemAction"), false),
            field("modifiers", array("ItemModifier"), false),
            field("second", single("ItemAction"), true),
            field("tags", array("string"), true),
            field("count", single("int"), true),
        ],
    })
    .unwrap();
    let values = vec![
        res("ItemModifier"),
        GodotValue::Int(3),
        res("ItemAction"),
        GodotValue::Int(4),
        res("ItemModifier"),
    ];
    assert_eq!(
        builder.build_file_resource(values),
        Ok(GodotValue::Resource {
            resource_type: "ItemFile".to_string(),
            fields: vec![
                ("action".to_string(), res("ItemAction")),
                ("modifiers".to_string(), GodotValue::Array(vec![res("ItemModifier"), res("ItemModifier")])),
                ("second".to_string(), GodotValue::Nil),
                ("tags".to_string(), GodotValue::Array(vec![])),
                ("count".to_string(), GodotValue::Int(3)),
            ],
        })
    );
    assert_eq!(
        builder.build_file_resource(vec![res("ItemAction")]),
        Err(BuilderError::MissingField("modifiers".to_string(), "ItemModifier".to_string()))
    );
    assert_eq!(
        builder.build_file_resource(vec![]),
        Err(BuilderError::MissingField("action".to_string(), "ItemAction".to_string()))
    );
}

#[test]
fn configuration_is_read_from_yaml() {
    let builder = ResourceBuilder::from_yaml(
        "root: ItemFile\nchildren:\n  - action: ItemAction\n  - modifiers?: [ItemModifier]\n  - \"note?\": String\n",
    )
    .unwrap();
    assert_eq!(
        builder.config,
        Config {
            root: "ItemFile".to_string(),
            children: vec![
                field("action", single("ItemAction"), false),
                field("modifiers", array("ItemModifier"), true),
                field("note", single("String"), true),
            ],
        }
    );
}

#[test]
fn malformed_configuration_is_refused() {
    let config = |m: &str| Err(BuilderError::Config(m.to_string()));
    assert_eq!(ResourceBuilder::from_yaml("children: []\n"), config("Missing 'root' string key"));
    assert_eq!(ResourceBuilder::from_yaml("- a\n"), config("Missing 'root' string key"));
    assert_eq!(
        ResourceBuilder::from_yaml("root: R\n"),
        config("Missing or invalid 'children' (must be a sequence)")
    );
    assert_eq!(ResourceBuilder::from_yaml("root: R\nchildren:\n  - just a string\n"), config("Each child must be a map"));
    assert_eq!(
        ResourceBuilder::from_yaml("root: R\nchildren:\n  - a: A\n    b: B\n"),
        config("Each child must have exactly one key")
    );
    assert_eq!(ResourceBuilder::from_yaml("root: R\nchildren:\n  - 3: A\n"), config("Child field name must be string"));
    assert_eq!(
        ResourceBuilder::from_yaml("root: R\nchildren:\n  - list: [A, B]\n"),
        config("Array field list must have exactly one type")
    );
    assert_eq!(ResourceBuilder::from_yaml("root: R\nchildren:\n  - list: [3]\n"), config("Array element must be string"));
    assert_eq!(ResourceBuilder::from_yaml("root: R\nchildren:\n  - n: 3\n"), config("Invalid type spec for field n"));
    assert_eq!(
        ResourceBuilder::from_yaml("root: R\nchildren:\n  - a?: A\n  - b: A\n"),
        config("An optional A came before a required one in b : \n")
    );
    assert_eq!(ResourceBuilder::from_yaml(""), Err(BuilderError::Yaml("Empty YAML file".to_string())));
    assert!(matches!(ResourceBuilder::from_yaml("root: ["), Err(BuilderError::Yaml(m)) if !m.is_empty()));
    assert_eq!(
        ResourceBuilder::parse_config(&YamlNode::Null),
        Err(BuilderError::Config("Missing 'root' string key".to_string()))
    );
}
