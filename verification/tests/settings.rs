use editor_backend::{get_settings, save_settings, ErrorKind, JsonNumber, JsonValue, Store};

fn text(value: &str) -> JsonValue {
    JsonValue::String(value.to_string())
}

fn number(value: u64) -> JsonValue {
    JsonValue::Number(JsonNumber::PosInt(value))
}

fn lookup<'a>(entries: &'a [(String, JsonValue)], key: &str) -> Option<&'a JsonValue> {
    entries.iter().find(|(k, _)| k == key).map(|(_, v)| v)
}

#[test]
fn test_settings_commands() {
    let mut store = Store::new();
    let settings = vec![
        ("theme".to_string(), JsonValue::String("system".to_string())),
        ("fontSize".to_string(), JsonValue::Number(JsonNumber::PosInt(16))),
    ];

    let result = save_settings(&mut store, settings.clone());
    assert!(result.is_ok(), "save_settings should succeed");

    let loaded = get_settings(&store);
    assert_eq!(
        lookup(&loaded, "theme"),
        Some(&JsonValue::String("system".to_string()))
    );
    assert_eq!(
        lookup(&loaded, "fontSize"),
        Some(&JsonValue::Number(JsonNumber::PosInt(16)))
    );
}

#[test]
fn settings_of_a_new_store_are_empty() {
    let store = Store::new();
    assert_eq!(get_settings(&store), Vec::new());
}

#[test]
fn save_settings_merges_and_keeps_other_keys() {
    let mut store = Store::new();
    save_settings(
        &mut store,
        vec![
            ("theme".to_string(), text("dark")),
            ("locale".to_string(), text("en")),
        ],
    )
    .unwrap();
    save_settings(
        &mut store,
        vec![
            ("theme".to_string(), text("light")),
            ("tabWidth".to_string(), number(2)),
        ],
    )
    .unwrap();

    let loaded = get_settings(&store);
    assert_eq!(loaded.len(), 3);
    assert_eq!(lookup(&loaded, "theme"), Some(&text("light")));
    assert_eq!(lookup(&loaded, "locale"), Some(&text("en")));
    assert_eq!(lookup(&loaded, "tabWidth"), Some(&number(2)));
}

#[test]
fn save_settings_with_nothing_changes_nothing() {
    let mut store = Store::new();
    save_settings(&mut store, vec![("theme".to_string(), text("dark"))]).unwrap();
    save_settings(&mut store, Vec::new()).unwrap();
    assert_eq!(get_settings(&store), vec![("theme".to_string(), text("dark"))]);
}

#[test]
fn save_settings_takes_the_last_of_a_repeated_key() {
    let mut store = Store::new();
    save_settings(
        &mut store,
        vec![
            ("theme".to_string(), text("dark")),
            ("theme".to_string(), text("light")),
        ],
    )
    .unwrap();
    assert_eq!(get_settings(&store), vec![("theme".to_string(), text("light"))]);
}

#[test]
fn save_settings_keeps_nested_values() {
    let shortcuts = JsonValue::Object(vec![
        ("save".to_string(), text("mod+s")),
        (
            "extra".to_string(),
            JsonValue::Array(vec![JsonValue::Null, JsonValue::Bool(true), number(3)]),
        ),
    ]);
    let mut store = Store::new();
    save_settings(&mut store, vec![("shortcuts".to_string(), shortcuts.clone())]).unwrap();
    assert_eq!(store.get("shortcuts"), Some(&shortcuts));
}

#[test]
fn save_settings_reports_a_value_that_json_cannot_carry() {
    let not_a_number = JsonValue::Number(JsonNumber::Float(f64::NAN.to_bits()));
    let mut store = Store::new();
    let error = save_settings(
        &mut store,
        vec![
            ("theme".to_string(), text("dark")),
            ("lineHeight".to_string(), not_a_number.clone()),
        ],
    )
    .unwrap_err();
    assert_eq!(error.kind, ErrorKind::Serialization);
    assert_eq!(
        error.message,
        "Failed to save settings store: a value cannot be written as JSON"
    );
    // The document in memory was changed all the same.
    assert_eq!(store.get("theme"), Some(&text("dark")));
    assert_eq!(store.get("lineHeight"), Some(&not_a_number));
}

#[test]
fn save_settings_accepts_a_finite_float() {
    let line_height = JsonValue::Number(JsonNumber::Float(1.6f64.to_bits()));
    let mut store = Store::new();
    assert!(save_settings(&mut store, vec![("lineHeight".to_string(), line_height)]).is_ok());
}
