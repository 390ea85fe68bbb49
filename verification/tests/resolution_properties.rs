use serde_deserialize_duplicates::{
    deserialize_first_duplicate, deserialize_last_duplicate, generate_deserialization_impl,
    parse_field_names, parse_fields, AliasedFieldError, DeserializeError, FieldDescriptor,
    FieldValue, RawDirective, ResolutionPolicy,
};

fn named_field(identifier: &str) -> FieldDescriptor {
    FieldDescriptor {
        identifier: Some(identifier.to_owned()),
        directives: Vec::new(),
    }
}

fn annotated_field(identifier: &str, directives: Vec<RawDirective>) -> FieldDescriptor {
    FieldDescriptor {
        identifier: Some(identifier.to_owned()),
        directives,
    }
}

fn directive(name: &str, value: Option<&str>) -> RawDirective {
    RawDirective {
        name: name.to_owned(),
        value: value.map(|v| v.to_owned()),
    }
}

fn pairs(entries: &[(&str, &str)]) -> Vec<(String, String)> {
    entries
        .iter()
        .map(|(key, value)| (key.to_string(), value.to_string()))
        .collect()
}

#[test]
fn scenario_first_wins_keeps_first_duplicate() {
    let plan = deserialize_first_duplicate(vec![named_field("value")]).unwrap();
    let resolved = plan
        .execute(pairs(&[("value", "first"), ("value", "second")]))
        .unwrap();
    assert_eq!(resolved[0], FieldValue::Captured("first".to_owned()));
}

#[test]
fn scenario_last_wins_keeps_last_duplicate() {
    let plan = deserialize_last_duplicate(vec![named_field("value")]).unwrap();
    let resolved = plan
        .execute(pairs(&[("value", "first"), ("value", "second")]))
        .unwrap();
    assert_eq!(resolved[0], FieldValue::Captured("second".to_owned()));
}

#[test]
fn scenario_last_wins_across_aliases() {
    let plan = deserialize_last_duplicate(vec![annotated_field(
        "a",
        vec![directive("alias", Some("b")), directive("alias", Some("c"))],
    )])
    .unwrap();
    let resolved = plan
        .execute(pairs(&[("a", "first"), ("b", "second"), ("c", "third")]))
        .unwrap();
    assert_eq!(resolved[0], FieldValue::Captured("third".to_owned()));
}

#[test]
fn scenario_absent_field_with_default_resolves() {
    let plan = deserialize_first_duplicate(vec![annotated_field(
        "value",
        vec![directive("default", None)],
    )])
    .unwrap();
    let resolved = plan.execute(Vec::<(String, String)>::new()).unwrap();
    assert_eq!(resolved[0], FieldValue::Defaulted);

    let plan = deserialize_last_duplicate(vec![annotated_field(
        "value",
        vec![directive("default", None)],
    )])
    .unwrap();
    let resolved = plan.execute(Vec::<(String, String)>::new()).unwrap();
    assert_eq!(resolved[0], FieldValue::Defaulted);
}

#[test]
fn scenario_absent_field_without_default_is_missing() {
    let plan = deserialize_first_duplicate(vec![named_field("value")]).unwrap();
    let error = plan.execute(Vec::<(String, String)>::new()).unwrap_err();
    assert_eq!(error, DeserializeError::MissingField("value".to_owned()));

    let plan = deserialize_last_duplicate(vec![named_field("value")]).unwrap();
    let error = plan.execute(Vec::<(String, String)>::new()).unwrap_err();
    assert_eq!(error, DeserializeError::MissingField("value".to_owned()));
}

#[test]
fn missing_field_error_names_the_first_unresolved_field() {
    let plan = deserialize_first_duplicate(vec![
        named_field("present"),
        named_field("first_absent"),
        named_field("second_absent"),
    ])
    .unwrap();
    let error = plan
        .execute(pairs(&[("present", "here")]))
        .unwrap_err();
    assert_eq!(error, DeserializeError::MissingField("first_absent".to_owned()));
}

#[test]
fn unknown_keys_are_ignored_and_change_nothing() {
    let plan = deserialize_first_duplicate(vec![named_field("a")]).unwrap();
    let with_unknown = plan
        .execute(pairs(&[
            ("unrelated", "x"),
            ("a", "kept"),
            ("extra", "y"),
            ("a", "dropped"),
        ]))
        .unwrap();
    let without_unknown = plan
        .execute(pairs(&[("a", "kept"), ("a", "dropped")]))
        .unwrap();
    assert_eq!(with_unknown, without_unknown);
    assert_eq!(with_unknown[0], FieldValue::Captured("kept".to_owned()));
}

#[test]
fn unknown_keys_alone_never_cause_failure_for_defaulted_fields() {
    let plan = deserialize_last_duplicate(vec![annotated_field(
        "wanted",
        vec![directive("default", None)],
    )])
    .unwrap();
    let resolved = plan
        .execute(pairs(&[("noise", "1"), ("more_noise", "2")]))
        .unwrap();
    assert_eq!(resolved[0], FieldValue::Defaulted);
}

#[test]
fn winning_value_depends_on_position_not_on_which_alias_supplied_it() {
    let descriptors = || vec![annotated_field("a", vec![directive("alias", Some("b"))])];

    let first = deserialize_first_duplicate(descriptors()).unwrap();
    let by_name = first.execute(pairs(&[("a", "one"), ("b", "two")])).unwrap();
    let by_alias = first.execute(pairs(&[("b", "one"), ("a", "two")])).unwrap();
    assert_eq!(by_name[0], FieldValue::Captured("one".to_owned()));
    assert_eq!(by_alias[0], FieldValue::Captured("one".to_owned()));

    let last = deserialize_last_duplicate(descriptors()).unwrap();
    let by_name = last.execute(pairs(&[("a", "one"), ("b", "two")])).unwrap();
    let by_alias = last.execute(pairs(&[("b", "one"), ("a", "two")])).unwrap();
    assert_eq!(by_name[0], FieldValue::Captured("two".to_owned()));
    assert_eq!(by_alias[0], FieldValue::Captured("two".to_owned()));
}

#[test]
fn value_read_failure_aborts_with_the_first_message() {
    let plan = deserialize_first_duplicate(vec![named_field("a")]).unwrap();
    let doc: Vec<(String, Result<String, String>)> = vec![
        ("a".to_owned(), Ok("fine".to_owned())),
        ("unknown".to_owned(), Err("first failure".to_owned())),
        ("a".to_owned(), Err("second failure".to_owned())),
    ];
    let error = plan.execute_read_results(doc).unwrap_err();
    assert_eq!(error, DeserializeError::ValueRead("first failure".to_owned()));
}

#[test]
fn fully_read_document_resolves_as_plain_pairs_do() {
    let plan = deserialize_last_duplicate(vec![named_field("a")]).unwrap();
    let doc: Vec<(String, Result<String, String>)> = vec![
        ("a".to_owned(), Ok("first".to_owned())),
        ("a".to_owned(), Ok("second".to_owned())),
    ];
    let resolved = plan.execute_read_results(doc).unwrap();
    assert_eq!(resolved[0], FieldValue::Captured("second".to_owned()));
}

#[test]
fn unnamed_field_is_a_configuration_error() {
    let error = deserialize_first_duplicate(vec![FieldDescriptor {
        identifier: None,
        directives: Vec::new(),
    }])
    .unwrap_err();
    assert_eq!(error, AliasedFieldError::UnnamedField);
}

#[test]
fn unrecognized_directive_is_a_configuration_error() {
    let error = deserialize_last_duplicate(vec![annotated_field(
        "value",
        vec![directive("skip_serializing", None)],
    )])
    .unwrap_err();
    assert_eq!(
        error,
        AliasedFieldError::DirectiveError("skip_serializing".to_owned())
    );
}

#[test]
fn alias_directive_without_a_key_is_rejected() {
    let error = deserialize_first_duplicate(vec![annotated_field(
        "value",
        vec![directive("alias", None)],
    )])
    .unwrap_err();
    assert_eq!(error, AliasedFieldError::DirectiveError("alias".to_owned()));
}

#[test]
fn default_directive_with_a_value_is_rejected() {
    let error = deserialize_first_duplicate(vec![annotated_field(
        "value",
        vec![directive("default", Some("fallback"))],
    )])
    .unwrap_err();
    assert_eq!(error, AliasedFieldError::DirectiveError("default".to_owned()));
}

#[test]
fn the_first_rejected_descriptor_reports_its_error() {
    let error = deserialize_first_duplicate(vec![
        named_field("fine"),
        annotated_field("bad", vec![directive("mystery", None)]),
        FieldDescriptor {
            identifier: None,
            directives: Vec::new(),
        },
    ])
    .unwrap_err();
    assert_eq!(error, AliasedFieldError::DirectiveError("mystery".to_owned()));
}

#[test]
fn error_messages_describe_the_error() {
    assert_eq!(
        AliasedFieldError::UnnamedField.message(),
        "Struct must at least have named fields for duplicated name checking to take place"
    );
    assert_eq!(
        AliasedFieldError::DirectiveError("mystery".to_owned()).message(),
        "Error parsing arguments: mystery"
    );
}

#[test]
fn parse_fields_builds_the_schema_columns() {
    let schema = parse_fields(vec![
        annotated_field(
            "breed",
            vec![directive("alias", Some("type")), directive("default", None)],
        ),
        named_field("name"),
    ])
    .unwrap();
    assert_eq!(
        schema.field_identifiers,
        vec!["breed".to_owned(), "name".to_owned()]
    );
    assert_eq!(
        schema.names,
        vec![
            vec!["breed".to_owned(), "type".to_owned()],
            vec!["name".to_owned()],
        ]
    );
    assert_eq!(schema.use_defaults, vec![true, false]);
}

#[test]
fn parse_field_names_matches_parse_fields() {
    let descriptors = || {
        vec![annotated_field(
            "renamed",
            vec![directive("rename", Some("was"))],
        )]
    };
    let a = parse_fields(descriptors()).unwrap();
    let b = parse_field_names(descriptors()).unwrap();
    assert_eq!(a.field_identifiers, b.field_identifiers);
    assert_eq!(a.names, b.names);
    assert_eq!(a.use_defaults, b.use_defaults);
}

#[test]
fn generated_plan_keeps_schema_and_policy() {
    let schema = parse_fields(vec![named_field("value")]).unwrap();
    let plan = generate_deserialization_impl(schema, ResolutionPolicy::LastWins);
    assert_eq!(plan.policy, ResolutionPolicy::LastWins);
    assert_eq!(plan.fields.field_identifiers, vec!["value".to_owned()]);
}

#[test]
fn overlapping_accepted_keys_route_to_the_first_declared_field() {
    let plan = deserialize_first_duplicate(vec![
        annotated_field("first_owner", vec![directive("alias", Some("shared"))]),
        annotated_field("second_owner", vec![directive("alias", Some("shared"))]),
    ])
    .unwrap();
    let error = plan.execute(pairs(&[("shared", "taken")])).unwrap_err();
    assert_eq!(error, DeserializeError::MissingField("second_owner".to_owned()));
}

#[test]
fn non_string_values_are_carried_through_unchanged() {
    let plan = deserialize_last_duplicate(vec![named_field("my_number")]).unwrap();
    let doc: Vec<(String, i64)> = vec![("my_number".to_owned(), 34), ("my_number".to_owned(), 67)];
    let resolved = plan.execute(doc).unwrap();
    assert_eq!(resolved[0], FieldValue::Captured(67));
}
