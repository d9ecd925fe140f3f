use storehouse_core::ir::{
    Aggregate, Attribute, Cardinality, Command, Domain, Invariant, Reference, ReferenceKind,
    ValueObject,
};
use storehouse_core::projection::json_schema::{attr_schema, command_schema, domain_schemas};
use storehouse_core::run_follow::events::Json;

fn value(j: &Json) -> serde_json::Value {
    match j {
        Json::Null => serde_json::Value::Null,
        Json::Bool(b) => serde_json::Value::Bool(*b),
        Json::Number(t, _) => serde_json::from_str(t).unwrap(),
        Json::Str(s) => serde_json::Value::String(s.clone()),
        Json::Array(a) => serde_json::Value::Array(a.iter().map(value).collect()),
        Json::Object(m) => {
            let mut out = serde_json::Map::new();
            for (k, v) in m {
                out.insert(k.clone(), value(v));
            }
            serde_json::Value::Object(out)
        }
    }
}

fn keys(j: &Json) -> Vec<String> {
    match j {
        Json::Object(m) => m.iter().map(|(k, _)| k.clone()).collect(),
        _ => vec![],
    }
}

fn parsed(text: &str) -> serde_json::Value {
    serde_json::from_str(text).unwrap()
}

fn attr(name: &str, ty: &str, required: bool, enum_values: &[&str]) -> Attribute {
    Attribute {
        name: name.into(),
        attr_type: ty.into(),
        default: None,
        list: false,
        required,
        enum_values: enum_values.iter().map(|s| s.to_string()).collect(),
        pattern: None,
        hint: None,
        logged: false,
    }
}

fn vo(name: &str, attributes: Vec<Attribute>, invariants: &[&str], members: Vec<Vec<(&str, &str)>>) -> ValueObject {
    ValueObject {
        name: name.into(),
        description: None,
        attributes,
        invariants: invariants
            .iter()
            .map(|e| Invariant { name: "bound".into(), expression: e.to_string() })
            .collect(),
        derivations: vec![],
        members: members
            .into_iter()
            .map(|m| m.into_iter().map(|(k, v)| (k.to_string(), v.to_string())).collect())
            .collect(),
    }
}

fn command(name: &str, attributes: Vec<Attribute>, references: Vec<Reference>) -> Command {
    Command {
        name: name.into(),
        description: None,
        role: None,
        attributes,
        references,
        emits: None,
        emits_identified_by: None,
        givens: vec![],
        mutations: vec![],
        redirects_native: vec![],
    }
}

fn aggregate(name: &str, commands: Vec<Command>, value_objects: Vec<ValueObject>) -> Aggregate {
    Aggregate {
        name: name.into(),
        description: None,
        context: None,
        category: None,
        attributes: vec![],
        commands,
        queries: vec![],
        value_objects,
        entities: vec![],
        references: vec![],
        lifecycle: None,
        identified_by: None,
        invariants: vec![],
        views: vec![],
    }
}

fn pizza() -> Aggregate {
    aggregate(
        "Pizza",
        vec![],
        vec![
            vo("Price", vec![attr("cents", "Integer", false, &[])], &["cents >= 0 && cents <= 100000"], vec![]),
            vo("Size", vec![attr("label", "String", false, &[])], &[], vec![vec![("label", "small")], vec![], vec![("label", "large"), ("inches", "14")]]),
            vo("Weight", vec![attr("grams", "int", false, &[])], &["grams >= heavy", "grams >= -5"], vec![]),
            vo("Pair", vec![attr("a", "String", false, &[]), attr("b", "String", false, &[])], &[], vec![]),
        ],
    )
}

#[test]
fn one_of_values_become_a_string_enum() {
    let s = attr_schema(&pizza(), &attr("crust", "String", false, &["thin", "deep"]));
    assert_eq!(value(&s), parsed(r#"{"type":"string","enum":["thin","deep"]}"#));
    assert_eq!(keys(&s), vec!["enum", "type"]);
}

#[test]
fn member_value_objects_become_an_enum_of_discriminants() {
    let s = attr_schema(&pizza(), &attr("size", "Size", false, &[]));
    assert_eq!(value(&s), parsed(r#"{"type":"string","enum":["small","large"]}"#));
}

#[test]
fn money_wrapper_keeps_cents_with_bounds_and_the_money_mark() {
    let s = attr_schema(&pizza(), &attr("price", "Price", true, &[]));
    assert_eq!(
        value(&s),
        parsed(r#"{"type":"integer","minimum":0,"maximum":100000,"x-hecks-money":"cents"}"#)
    );
    assert_eq!(keys(&s), vec!["maximum", "minimum", "type", "x-hecks-money"]);
}

#[test]
fn unparsable_bounds_are_skipped_and_a_later_bound_wins() {
    let s = attr_schema(&pizza(), &attr("weight", "Weight", false, &[]));
    assert_eq!(value(&s), parsed(r#"{"type":"integer","minimum":-5}"#));
}

#[test]
fn other_types_map_to_primitives_case_insensitively() {
    let p = pizza();
    assert_eq!(value(&attr_schema(&p, &attr("n", "INT", false, &[]))), parsed(r#"{"type":"integer"}"#));
    assert_eq!(value(&attr_schema(&p, &attr("x", "Float", false, &[]))), parsed(r#"{"type":"number"}"#));
    assert_eq!(value(&attr_schema(&p, &attr("ok", "bool", false, &[]))), parsed(r#"{"type":"boolean"}"#));
    assert_eq!(value(&attr_schema(&p, &attr("pair", "Pair", false, &[]))), parsed(r#"{"type":"string"}"#));
    assert_eq!(value(&attr_schema(&p, &attr("when", "Date", false, &[]))), parsed(r#"{"type":"string"}"#));
}

#[test]
fn command_schema_lists_properties_required_and_references() {
    let topping = Reference {
        name: "topping".into(),
        target: "Topping".into(),
        domain: None,
        cardinality: Cardinality::Single,
        kind: ReferenceKind::LegacyReferenceTo,
    };
    let cmd = command(
        "Order",
        vec![attr("size", "Size", true, &[]), attr("note", "String", false, &[]), attr("price", "Price", true, &[])],
        vec![topping],
    );
    let s = command_schema(&pizza(), &cmd);
    let expected = r#"{
        "$schema": "https://json-schema.org/draft/2020-12/schema",
        "title": "Pizza.Order",
        "type": "object",
        "properties": {
            "size": {"type": "string", "enum": ["small", "large"]},
            "note": {"type": "string"},
            "price": {"type": "integer", "minimum": 0, "maximum": 100000, "x-hecks-money": "cents"},
            "topping": {"type": "string", "description": "id of a Topping"}
        },
        "required": ["size", "price"],
        "additionalProperties": false
    }"#;
    assert_eq!(value(&s), parsed(expected));
    assert_eq!(keys(&s), vec!["$schema", "additionalProperties", "properties", "required", "title", "type"]);
}

#[test]
fn domain_schemas_key_each_command_by_aggregate() {
    let a = aggregate("Pizza", vec![command("Bake", vec![], vec![]), command("Order", vec![], vec![])], vec![]);
    let b = aggregate("Oven", vec![command("Heat", vec![attr("degrees", "Integer", true, &[])], vec![])], vec![]);
    let d = Domain {
        name: "Shop".into(),
        category: None,
        vision: None,
        aggregates: vec![a, b],
        policies: vec![],
        fixtures: vec![],
        entrypoint: None,
        sections: vec![],
        process_managers: vec![],
        cadences: vec![],
        block_grammars: vec![],
    };
    let s = domain_schemas(&d);
    assert_eq!(keys(&s), vec!["Oven.Heat", "Pizza.Bake", "Pizza.Order"]);
    match &s {
        Json::Object(m) => {
            assert_eq!(
                value(&m[0].1)["required"],
                parsed(r#"["degrees"]"#)
            );
            assert_eq!(value(&m[1].1)["title"], parsed(r#""Pizza.Bake""#));
        }
        _ => panic!("not an object"),
    }
}
