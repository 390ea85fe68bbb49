use serde::de::{Deserializer, MapAccess, Visitor};
use serde_deserialize_duplicates::{
    deserialize_first_duplicate, DeserializationPlan, FieldDescriptor, FieldValue, RawDirective,
};

struct PairsVisitor;

impl<'de> Visitor<'de> for PairsVisitor {
    type Value = Vec<(String, serde_json::Value)>;

    fn expecting(&self, formatter: &mut std::fmt::Formatter) -> std::fmt::Result {
        formatter.write_str("a map with potential duplicate fields")
    }

    fn visit_map<A: MapAccess<'de>>(self, mut map: A) -> Result<Self::Value, A::Error> {
        let mut pairs = Vec::new();
        while let Some((key, value)) = map.next_entry::<String, serde_json::Value>()? {
            pairs.push((key, value));
        }
        Ok(pairs)
    }
}

fn document_pairs(data: &str) -> Vec<(String, serde_json::Value)> {
    let mut deserializer = serde_json::Deserializer::from_str(data);
    deserializer.deserialize_map(PairsVisitor).unwrap()
}

fn named_field(identifier: &str) -> FieldDescriptor {
    FieldDescriptor {
        identifier: Some(identifier.to_owned()),
        directives: Vec::new(),
    }
}

fn annotated_field(identifier: &str, directives: Vec<RawDirective>) -> FieldDescriptor {
    FieldDescriptor {
        identifier: Some(identifier.to_owned()),
        directives,
    }
}

fn directive(name: &str, value: Option<&str>) -> RawDirective {
    RawDirective {
        name: name.to_owned(),
        value: value.map(|v| v.to_owned()),
    }
}

fn plan_for(descriptors: Vec<FieldDescriptor>) -> DeserializationPlan {
    deserialize_first_duplicate(descriptors).unwrap()
}

fn string_field(resolved: &FieldValue<serde_json::Value>) -> String {
    match resolved {
        FieldValue::Captured(serde_json::Value::String(s)) => s.clone(),
        _ => panic!("expected a captured string value"),
    }
}

#[test]
fn deserialize_first_duplicate_test_one_value() {
    let plan = plan_for(vec![named_field("value")]);

    let data = r#"
        {
            "value": "first",
            "value": "second"
        }"#;

    let resolved = plan.execute(document_pairs(data)).unwrap();

    assert_eq!(string_field(&resolved[0]), "first".to_owned());
}

#[test]
fn deserialize_first_duplicate_test_multiple_values() {
    let plan = plan_for(vec![named_field("a"), named_field("b"), named_field("c")]);

    let data = r#"
        {
            "a": "first",
            "b": "second",
            "c": "third"
        }"#;

    let resolved = plan.execute(document_pairs(data)).unwrap();

    assert_eq!(string_field(&resolved[0]), "first".to_owned());
    assert_eq!(string_field(&resolved[1]), "second".to_owned());
    assert_eq!(string_field(&resolved[2]), "third".to_owned());
}

#[test]
fn deserialize_first_duplicate_test_renamed_value() {
    let plan = plan_for(vec![annotated_field(
        "original_name",
        vec![directive("rename", Some("other_name"))],
    )]);

    let data = r#"
        {
            "original_name": "first",
            "other_name": "second"
        }"#;

    let resolved = plan.execute(document_pairs(data)).unwrap();

    assert_eq!(string_field(&resolved[0]), "first".to_owned());
}

#[test]
fn deserialize_first_duplicate_test_renamed_value_renamed_first() {
    let plan = plan_for(vec![annotated_field(
        "original_name",
        vec![directive("rename", Some("other_name"))],
    )]);

    let data = r#"
        {
            "other_name": "first",
            "original_name": "second"
        }"#;

    let resolved = plan.execute(document_pairs(data)).unwrap();

    assert_eq!(string_field(&resolved[0]), "first".to_owned());
}

#[test]
fn deserialize_first_duplicate_test_renamed_value_only_renamed() {
    let plan = plan_for(vec![annotated_field(
        "original_name",
        vec![directive("rename", Some("other_name"))],
    )]);

    let data = r#"
        {
            "other_name": "exists"
        }"#;

    let resolved = plan.execute(document_pairs(data)).unwrap();

    assert_eq!(string_field(&resolved[0]), "exists".to_owned());
}

#[test]
fn deserialize_first_duplicate_test_aliased_value() {
    let plan = plan_for(vec![annotated_field(
        "original_name",
        vec![directive("alias", Some("other_name"))],
    )]);

    let data = r#"
        {
            "original_name": "first",
            "other_name": "second"
        }"#;

    let resolved = plan.execute(document_pairs(data)).unwrap();

    assert_eq!(string_field(&resolved[0]), "first".to_owned());
}

#[test]
fn deserialize_first_duplicate_test_aliased_value_aliased_first() {
    let plan = plan_for(vec![annotated_field(
        "original_name",
        vec![directive("alias", Some("other_name"))],
    )]);

    let data = r#"
        {
            "other_name": "first",
            "original_name": "second"
        }"#;

    let resolved = plan.execute(document_pairs(data)).unwrap();

    assert_eq!(string_field(&resolved[0]), "first".to_owned());
}

#[test]
fn deserialize_first_duplicate_test_aliased_value_only_aliased() {
    let plan = plan_for(vec![annotated_field(
        "original_name",
        vec![directive("alias", Some("other_name"))],
    )]);

    let data = r#"
        {
            "other_name": "exists"
        }"#;

    let resolved = plan.execute(document_pairs(data)).unwrap();

    assert_eq!(string_field(&resolved[0]), "exists".to_owned());
}

#[test]
fn deserialize_first_duplicate_test_multiple_aliases() {
    let plan = plan_for(vec![annotated_field(
        "a",
        vec![directive("alias", Some("b")), directive("alias", Some("c"))],
    )]);

    let data = r#"
        {
            "a": "first",
            "b": "second",
            "c": "third"
        }"#;

    let resolved = plan.execute(document_pairs(data)).unwrap();

    assert_eq!(string_field(&resolved[0]), "first".to_owned());
}

#[test]
fn deserialize_first_duplicate_test_optional_value_some() {
    let plan = plan_for(vec![named_field("value")]);

    let data = r#"
        {
            "value": "exists"
        }"#;

    let resolved = plan.execute(document_pairs(data)).unwrap();

    let value: Option<String> = match &resolved[0] {
        FieldValue::Captured(serde_json::Value::String(s)) => Some(s.clone()),
        FieldValue::Defaulted => None,
        _ => panic!("expected a string or an absent value"),
    };
    assert_eq!(value, Some("exists".to_owned()));
}

#[test]
fn deserialize_first_duplicate_test_optional_value_none_default() {
    let plan = plan_for(vec![annotated_field("value", vec![directive("default", None)])]);

    let data = r#"
        {
        }"#;

    let resolved = plan.execute(document_pairs(data)).unwrap();

    let value: Option<String> = match &resolved[0] {
        FieldValue::Captured(serde_json::Value::String(s)) => Some(s.clone()),
        FieldValue::Defaulted => None,
        _ => panic!("expected a string or an absent value"),
    };
    assert_eq!(value, None);
}

#[test]
fn deserialize_first_duplicate_test_collection_value() {
    let plan = plan_for(vec![named_field("value")]);

    let data = r#"
        {
            "value": ["a", "b"]
        }"#;

    let resolved = plan.execute(document_pairs(data)).unwrap();

    let value: Vec<String> = match &resolved[0] {
        FieldValue::Captured(serde_json::Value::Array(items)) => items
            .iter()
            .map(|item| match item {
                serde_json::Value::String(s) => s.clone(),
                _ => panic!("expected a string element"),
            })
            .collect(),
        _ => panic!("expected a captured collection"),
    };
    assert_eq!(value, vec!["a".to_owned(), "b".to_owned()]);
}
