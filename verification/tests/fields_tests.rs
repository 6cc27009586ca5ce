use cdno_domain::normalise::top_level_key_of;
use cdno_domain::error::DomainError;
use cdno_domain::frontmatter_edit::{
    continues_onto_next_line, declared_key_exec, emit_fields, merge_fields_into_frontmatter,
    json_shape, EmittedValue, JsonValue, ValueShape,
};
use cdno_domain::set_frontmatter::{
    apply_field_set, coerce_value, display_value, format_field_change_log_entry, is_reserved_key,
    validate_field_set, write_scalar, FieldSetOutcome, FieldSpec, FieldType, FieldValue,
};

fn chars(s: &str) -> Vec<char> {
    s.chars().collect()
}

fn scalar(yaml: &str) -> EmittedValue {
    EmittedValue { yaml: Ok(yaml.to_owned()), shape: ValueShape::Scalar }
}

#[test]
fn reserved_keys() {
    assert!(is_reserved_key("project", "type"));
    assert!(is_reserved_key("project", "status"));
    assert!(is_reserved_key("daily", "date"));
    assert!(is_reserved_key("weekly", "week"));
    assert!(!is_reserved_key("project", "date"));
    assert!(!is_reserved_key("my-custom", "date"));
    assert!(!is_reserved_key("daily", "meds"));
}

#[test]
fn coercion() {
    assert_eq!(coerce_value("meds", "daily", FieldType::Bool, "true"), Ok(FieldValue::Bool(true)));
    assert_eq!(
        coerce_value("meds", "daily", FieldType::Bool, "yes"),
        Err(DomainError::InvalidFieldValue {
            note_type: "daily".to_owned(),
            field: "meds".to_owned(),
            reason: "is not a valid bool".to_owned()
        })
    );
    assert_eq!(coerce_value("n", "daily", FieldType::Int, "-42"), Ok(FieldValue::Int(-42)));
    assert_eq!(coerce_value("n", "daily", FieldType::Int, "+7"), Ok(FieldValue::Int(7)));
    assert_eq!(
        coerce_value("n", "daily", FieldType::Int, "9223372036854775807"),
        Ok(FieldValue::Int(i64::MAX))
    );
    assert_eq!(
        coerce_value("n", "daily", FieldType::Int, "-9223372036854775808"),
        Ok(FieldValue::Int(i64::MIN))
    );
    assert!(coerce_value("n", "daily", FieldType::Int, "9223372036854775808").is_err());
    assert!(coerce_value("n", "daily", FieldType::Int, "3.5").is_err());
    assert_eq!(
        coerce_value("when", "daily", FieldType::Date, "2026-07-09"),
        Ok(FieldValue::Str("2026-07-09".to_owned()))
    );
}

#[test]
fn validation_order() {
    let settable = FieldSpec { ty: FieldType::Bool, settable: Some(true), log_on_change: None };
    let locked = FieldSpec { ty: FieldType::Bool, settable: Some(false), log_on_change: None };
    assert!(matches!(
        validate_field_set("daily", "meds", None, "true"),
        Err(DomainError::UndeclaredSchemaField { .. })
    ));
    assert!(matches!(
        validate_field_set("daily", "meds", Some(locked), "true"),
        Err(DomainError::FieldNotSettable { .. })
    ));
    assert!(matches!(
        validate_field_set("daily", "date", Some(settable), "true"),
        Err(DomainError::ReservedSchemaField { .. })
    ));
    assert_eq!(validate_field_set("daily", "meds", Some(settable), "false"), Ok(FieldValue::Bool(false)));
}

#[test]
fn scalars_and_display() {
    assert_eq!(write_scalar(&FieldValue::Bool(true), FieldType::Bool), "true");
    assert_eq!(write_scalar(&FieldValue::Int(-3), FieldType::Int), "-3");
    assert_eq!(write_scalar(&FieldValue::Str("plain".to_owned()), FieldType::String), "plain");
    assert_eq!(write_scalar(&FieldValue::Str("true".to_owned()), FieldType::String), "'true'");
    assert_eq!(write_scalar(&FieldValue::Str("2026-07-09".to_owned()), FieldType::Date), "2026-07-09");
    assert_eq!(display_value(&FieldValue::Null), "null");
    assert_eq!(display_value(&FieldValue::Other("1.5".to_owned())), "1.5");
}

#[test]
fn change_log_line() {
    assert_eq!(
        format_field_change_log_entry("journal/2026/daily/2026-07-09.md", "meds", None, &FieldValue::Bool(true)),
        "meds: (unset) \u{2192} true on [[journal/2026/daily/2026-07-09]]"
    );
    assert_eq!(
        format_field_change_log_entry("p.md", "n", Some(&FieldValue::Int(1)), &FieldValue::Int(2)),
        "n: 1 \u{2192} 2 on [[p]]"
    );
}

#[test]
fn apply_unchanged_and_changed() {
    let raw = "---\ntype: daily\nmeds: false\n---\n# Day\n";
    match apply_field_set(raw, "d.md", "meds", FieldType::Bool, &FieldValue::Bool(false), Some(&FieldValue::Bool(false)), true) {
        Ok(FieldSetOutcome::Unchanged) => {}
        _ => panic!("expected no change"),
    }
    match apply_field_set(raw, "d.md", "meds", FieldType::Bool, &FieldValue::Bool(true), Some(&FieldValue::Bool(false)), true) {
        Ok(FieldSetOutcome::Changed { content, log_entry }) => {
            assert_eq!(content, "---\ntype: daily\nmeds: true\n---\n# Day\n");
            assert_eq!(log_entry, Some("meds: false \u{2192} true on [[d]]".to_owned()));
        }
        _ => panic!("expected a change"),
    }
    assert!(matches!(
        apply_field_set(raw, "d.md", "absent", FieldType::Bool, &FieldValue::Bool(true), None, false),
        Err(DomainError::MissingFrontmatterField(_))
    ));
}

#[test]
fn declared_keys_and_continuations() {
    assert_eq!(declared_key_exec(&chars("weight: 82\n")), Some(chars("weight")));
    assert_eq!(declared_key_exec(&chars("\"weight\": 82\n")), Some(chars("weight")));
    assert_eq!(declared_key_exec(&chars("'a': 1")), Some(chars("a")));
    assert_eq!(declared_key_exec(&chars("  nested: 1\n")), None);
    assert_eq!(declared_key_exec(&chars("- item\n")), None);
    assert_eq!(declared_key_exec(&chars("two words: 1\n")), None);
    assert!(continues_onto_next_line(Some(&chars("  - a\n"))));
    assert!(continues_onto_next_line(Some(&chars("- a\n"))));
    assert!(!continues_onto_next_line(Some(&chars("next: 1\n"))));
    assert!(!continues_onto_next_line(Some(&chars("   \n"))));
    assert!(!continues_onto_next_line(None));
}

#[test]
fn merge_replaces_and_appends() {
    let raw = "---\ntype: tracking\nroutine: null\n---\nbody\n";
    let fields = vec![
        ("routine".to_owned(), scalar("'[[r]]'\n")),
        ("weight".to_owned(), scalar("82\n")),
    ];
    let out = merge_fields_into_frontmatter(raw, &fields).unwrap();
    assert_eq!(out, "---\ntype: tracking\nroutine: '[[r]]'\nweight: 82\n---\nbody\n");
    assert_eq!(merge_fields_into_frontmatter("no fm", &Vec::new()).unwrap(), "no fm");
    assert_eq!(
        merge_fields_into_frontmatter("no fm", &fields),
        Err(DomainError::MissingSection("frontmatter"))
    );
}

#[test]
fn merge_nested_and_crlf() {
    let raw = "---\r\ntype: tracking\r\n---\r\nbody\r\n";
    let fields = vec![(
        "sets".to_owned(),
        EmittedValue { yaml: Ok("- reps: 5\n- reps: 3\n".to_owned()), shape: ValueShape::Sequence(2) },
    )];
    let out = merge_fields_into_frontmatter(raw, &fields).unwrap();
    assert_eq!(out, "---\r\ntype: tracking\r\nsets:\r\n  - reps: 5\r\n  - reps: 3\r\n---\r\nbody\r\n");
}

#[test]
fn merge_refuses_multiline_and_bad_values() {
    let raw = "---\nsets:\n  - 1\n---\n";
    assert_eq!(
        merge_fields_into_frontmatter(raw, &vec![("sets".to_owned(), scalar("2\n"))]),
        Err(DomainError::MultilineFrontmatterField("sets".to_owned()))
    );
    let bad = vec![("x".to_owned(), EmittedValue { yaml: Err("boom".to_owned()), shape: ValueShape::Scalar })];
    assert_eq!(
        merge_fields_into_frontmatter("---\na: 1\n---\n", &bad),
        Err(DomainError::UnrepresentableFrontmatterValue { field: "x".to_owned(), reason: "boom".to_owned() })
    );
}

#[test]
fn emitted_json_values_merge() {
    let fields = vec![
        ("empty".to_owned(), JsonValue::Array(Vec::new())),
        ("weight".to_owned(), JsonValue::Number("82".to_owned())),
    ];
    let emitted = emit_fields(&fields);
    assert_eq!(emitted.len(), 2);
    let out = merge_fields_into_frontmatter("---\ntype: tracking\n---\n", &emitted).unwrap();
    assert_eq!(out, "---\ntype: tracking\nempty: []\nweight: 82\n---\n");
}

#[test]
fn merge_and_normalise_agree_on_keys() {
    let key = |l: &str| declared_key_exec(&l.chars().collect()).map(|v| v.into_iter().collect::<String>());
    for line in ["weight: 82", "  - item", "no colon", "two words: x", ": empty"] {
        assert_eq!(key(line), top_level_key_of(line));
    }
    assert_eq!(top_level_key_of("\"weight\": 82"), Some("\"weight\"".to_owned()));
    assert_eq!(key("\"weight\": 82"), Some("weight".to_owned()));
    assert_eq!(key("'': 1"), None);
}

#[test]
fn each_field_is_emitted_from_its_own_value() {
    let fields = vec![
        ("a".to_owned(), JsonValue::Number("82.5".to_owned())),
        ("b".to_owned(), JsonValue::String("x".to_owned())),
        ("c".to_owned(), JsonValue::Bool(true)),
        ("d".to_owned(), JsonValue::Null),
        ("e".to_owned(), JsonValue::Number("not a number".to_owned())),
    ];
    let emitted = emit_fields(&fields);
    assert_eq!(emitted.len(), 5);
    assert_eq!(emitted[0].0, "a");
    assert_eq!(emitted[0].1.yaml, Ok("82.5\n".to_owned()));
    assert_eq!(emitted[1].1.yaml, Ok("x\n".to_owned()));
    assert_eq!(emitted[2].1.yaml, Ok("true\n".to_owned()));
    assert_eq!(emitted[3].1.yaml, Ok("null\n".to_owned()));
    assert!(emitted[4].1.yaml.is_err());
    assert_eq!(emitted[4].0, "e");
}

#[test]
fn nested_values_keep_their_shape() {
    let record = JsonValue::Object(vec![
        ("time".to_owned(), JsonValue::String("09:30".to_owned())),
        ("reps".to_owned(), JsonValue::Number("12".to_owned())),
    ]);
    assert_eq!(json_shape(&record), ValueShape::Mapping(2));
    assert_eq!(json_shape(&JsonValue::Array(vec![JsonValue::Null, JsonValue::Null])), ValueShape::Sequence(2));
    assert_eq!(json_shape(&JsonValue::Number("1".to_owned())), ValueShape::Scalar);
    let fields = vec![("sets".to_owned(), JsonValue::Array(vec![record]))];
    let emitted = emit_fields(&fields);
    assert_eq!(emitted[0].1.shape, ValueShape::Sequence(1));
    assert_eq!(emitted[0].1.yaml, Ok("- reps: 12\n  time: 09:30\n".to_owned()));
    let out = merge_fields_into_frontmatter("---\ntype: tracking\n---\n", &emitted).unwrap();
    assert_eq!(out, "---\ntype: tracking\nsets:\n  - reps: 12\n    time: 09:30\n---\n");
}
