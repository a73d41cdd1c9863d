use editor_backend::{
    add_recent_file, get_current_file_path, get_current_folder_path, get_recent_files,
    get_workspace_state, save_workspace_state, set_current_file_path, set_current_folder_path,
    ErrorKind, JsonNumber, JsonValue, RecentFile, Store, WorkspaceData,
};

fn text(value: &str) -> JsonValue {
    JsonValue::String(value.to_string())
}

fn number(value: u64) -> JsonValue {
    JsonValue::Number(JsonNumber::PosInt(value))
}

fn recent(path: &str, name: &str, accessed_at: u64) -> RecentFile {
    RecentFile { path: path.to_string(), name: name.to_string(), accessed_at }
}

fn recent_object(path: &str, name: &str, accessed_at: u64) -> JsonValue {
    JsonValue::Object(vec![
        ("path".to_string(), text(path)),
        ("name".to_string(), text(name)),
        ("accessed_at".to_string(), number(accessed_at)),
    ])
}

fn store_with_recent(value: JsonValue) -> Store {
    let mut store = Store::new();
    store.set("recentFiles".to_string(), value);
    store
}

#[test]
fn folder_path_is_absent_at_first() {
    let store = Store::new();
    assert_eq!(get_current_folder_path(&store), None);
    assert_eq!(get_current_file_path(&store), None);
}

#[test]
fn folder_path_is_read_back() {
    let mut store = Store::new();
    assert!(set_current_folder_path(&mut store, "/tmp/ws".to_string()).is_ok());
    assert_eq!(get_current_folder_path(&store), Some("/tmp/ws".to_string()));
    assert_eq!(store.get("folderPath"), Some(&text("/tmp/ws")));
    assert_eq!(get_current_file_path(&store), None);
    assert!(set_current_folder_path(&mut store, "/other".to_string()).is_ok());
    assert_eq!(get_current_folder_path(&store), Some("/other".to_string()));
    assert_eq!(store.len(), 1);
}

#[test]
fn file_path_is_read_back() {
    let mut store = Store::new();
    assert!(set_current_file_path(&mut store, "/tmp/ws/a.md".to_string()).is_ok());
    assert_eq!(get_current_file_path(&store), Some("/tmp/ws/a.md".to_string()));
    assert_eq!(store.get("selectedFilePath"), Some(&text("/tmp/ws/a.md")));
    assert_eq!(get_current_folder_path(&store), None);
}

#[test]
fn a_path_field_that_is_no_string_reads_as_absent() {
    let mut store = Store::new();
    store.set("folderPath".to_string(), number(3));
    store.set("selectedFilePath".to_string(), JsonValue::Null);
    assert_eq!(get_current_folder_path(&store), None);
    assert_eq!(get_current_file_path(&store), None);
}

#[test]
fn setting_a_path_reports_a_document_that_cannot_be_written() {
    let mut store = Store::new();
    store.set(
        "other".to_string(),
        JsonValue::Number(JsonNumber::Float(f64::NAN.to_bits())),
    );
    let error = set_current_folder_path(&mut store, "/tmp/ws".to_string()).unwrap_err();
    assert_eq!(error.kind, ErrorKind::Serialization);
    assert_eq!(
        error.message,
        "Failed to save workspace store: a value cannot be written as JSON"
    );
    assert_eq!(get_current_folder_path(&store), Some("/tmp/ws".to_string()));
    let error = set_current_file_path(&mut store, "/tmp/ws/a".to_string()).unwrap_err();
    assert_eq!(error.kind, ErrorKind::Serialization);
    let error = add_recent_file(&mut store, recent("/a", "a", 1)).unwrap_err();
    assert_eq!(error.kind, ErrorKind::Serialization);
    assert_eq!(get_recent_files(&store), vec![recent("/a", "a", 1)]);
}

#[test]
fn recent_files_are_empty_at_first() {
    assert_eq!(get_recent_files(&Store::new()), Vec::new());
}

#[test]
fn recent_files_that_are_a_string_read_as_empty() {
    let store = store_with_recent(text("not a list"));
    assert_eq!(get_recent_files(&store), Vec::new());
}

#[test]
fn recent_files_of_another_type_read_as_empty() {
    assert_eq!(get_recent_files(&store_with_recent(JsonValue::Null)), Vec::new());
    assert_eq!(get_recent_files(&store_with_recent(number(4))), Vec::new());
    assert_eq!(get_recent_files(&store_with_recent(JsonValue::Bool(true))), Vec::new());
    assert_eq!(
        get_recent_files(&store_with_recent(recent_object("/a", "a", 1))),
        Vec::new()
    );
}

#[test]
fn recent_files_with_one_malformed_entry_read_as_empty() {
    let missing_name = JsonValue::Object(vec![
        ("path".to_string(), text("/b")),
        ("accessed_at".to_string(), number(2)),
    ]);
    let store = store_with_recent(JsonValue::Array(vec![
        recent_object("/a", "a", 1),
        missing_name,
    ]));
    assert_eq!(get_recent_files(&store), Vec::new());

    let wrong_types = [
        JsonValue::Object(vec![
            ("path".to_string(), number(1)),
            ("name".to_string(), text("a")),
            ("accessed_at".to_string(), number(1)),
        ]),
        JsonValue::Object(vec![
            ("path".to_string(), text("/a")),
            ("name".to_string(), text("a")),
            ("accessed_at".to_string(), JsonValue::Number(JsonNumber::NegInt(-1))),
        ]),
        JsonValue::Object(vec![
            ("path".to_string(), text("/a")),
            ("name".to_string(), text("a")),
            (
                "accessed_at".to_string(),
                JsonValue::Number(JsonNumber::Float(5.0f64.to_bits())),
            ),
        ]),
        JsonValue::Object(vec![
            ("path".to_string(), text("/a")),
            ("name".to_string(), text("a")),
            ("accessed_at".to_string(), text("5")),
        ]),
        JsonValue::Array(vec![text("/a"), text("a")]),
        JsonValue::Array(vec![text("/a"), text("a"), number(1), number(2)]),
        JsonValue::Array(vec![text("/a"), number(1), text("a")]),
        text("/a"),
        JsonValue::Null,
    ];
    for entry in wrong_types {
        let store = store_with_recent(JsonValue::Array(vec![entry]));
        assert_eq!(get_recent_files(&store), Vec::new());
    }
}

#[test]
fn recent_files_are_read_in_their_order() {
    let store = store_with_recent(JsonValue::Array(vec![
        recent_object("/b", "b", 20),
        recent_object("/a", "a", 10),
    ]));
    assert_eq!(
        get_recent_files(&store),
        vec![recent("/b", "b", 20), recent("/a", "a", 10)]
    );
    assert_eq!(
        get_recent_files(&store_with_recent(JsonValue::Array(Vec::new()))),
        Vec::new()
    );
}

#[test]
fn recent_file_entries_may_hold_more_members_or_be_arrays() {
    let with_more = JsonValue::Object(vec![
        ("pinned".to_string(), JsonValue::Bool(true)),
        ("accessed_at".to_string(), number(7)),
        ("name".to_string(), text("a")),
        ("path".to_string(), text("/a")),
    ]);
    let as_array = JsonValue::Array(vec![text("/b"), text("b"), number(8)]);
    let store = store_with_recent(JsonValue::Array(vec![with_more, as_array]));
    assert_eq!(
        get_recent_files(&store),
        vec![recent("/a", "a", 7), recent("/b", "b", 8)]
    );
}

#[test]
fn add_recent_file_writes_the_list_as_objects() {
    let mut store = Store::new();
    assert!(add_recent_file(&mut store, recent("/a", "a", 1)).is_ok());
    assert!(add_recent_file(&mut store, recent("/b", "b", 2)).is_ok());
    assert_eq!(
        store.get("recentFiles"),
        Some(&JsonValue::Array(vec![
            recent_object("/b", "b", 2),
            recent_object("/a", "a", 1),
        ]))
    );
}

#[test]
fn add_recent_file_twice_with_the_same_path() {
    let mut store = Store::new();
    add_recent_file(&mut store, recent("/other", "other", 1)).unwrap();
    add_recent_file(&mut store, recent("/a", "first", 2)).unwrap();
    add_recent_file(&mut store, recent("/a", "second", 3)).unwrap();
    let files = get_recent_files(&store);
    assert_eq!(files, vec![recent("/a", "second", 3), recent("/other", "other", 1)]);
    assert_eq!(files.iter().filter(|f| f.path == "/a").count(), 1);
}

#[test]
fn add_recent_file_moves_an_old_entry_to_the_front() {
    let mut store = Store::new();
    add_recent_file(&mut store, recent("/a", "a", 1)).unwrap();
    add_recent_file(&mut store, recent("/b", "b", 2)).unwrap();
    add_recent_file(&mut store, recent("/c", "c", 3)).unwrap();
    add_recent_file(&mut store, recent("/a", "a", 4)).unwrap();
    assert_eq!(
        get_recent_files(&store),
        vec![recent("/a", "a", 4), recent("/c", "c", 3), recent("/b", "b", 2)]
    );
}

#[test]
fn adding_eleven_recent_files_keeps_the_last_ten() {
    let mut store = Store::new();
    for i in 0..11u64 {
        add_recent_file(&mut store, recent(&format!("/f{i}"), &format!("f{i}"), i)).unwrap();
    }
    let expected: Vec<RecentFile> = (1..11u64)
        .rev()
        .map(|i| recent(&format!("/f{i}"), &format!("f{i}"), i))
        .collect();
    assert_eq!(expected.len(), 10);
    assert_eq!(expected[0], recent("/f10", "f10", 10));
    assert_eq!(expected[9], recent("/f1", "f1", 1));
    assert_eq!(get_recent_files(&store), expected);
}

#[test]
fn add_recent_file_cuts_a_longer_stored_list() {
    let stored: Vec<JsonValue> =
        (0..15u64).map(|i| recent_object(&format!("/s{i}"), "s", i)).collect();
    let mut store = store_with_recent(JsonValue::Array(stored));
    assert_eq!(get_recent_files(&store).len(), 15);
    add_recent_file(&mut store, recent("/s3", "again", 99)).unwrap();
    let files = get_recent_files(&store);
    assert_eq!(files.len(), 10);
    assert_eq!(files[0], recent("/s3", "again", 99));
    let rest: Vec<String> = files[1..].iter().map(|f| f.path.clone()).collect();
    assert_eq!(rest, vec!["/s0", "/s1", "/s2", "/s4", "/s5", "/s6", "/s7", "/s8", "/s9"]);
}

#[test]
fn add_recent_file_starts_afresh_on_a_malformed_list() {
    let mut store = store_with_recent(text("broken"));
    add_recent_file(&mut store, recent("/a", "a", 1)).unwrap();
    assert_eq!(get_recent_files(&store), vec![recent("/a", "a", 1)]);
}

#[test]
fn add_recent_file_leaves_the_other_fields() {
    let mut store = Store::new();
    set_current_folder_path(&mut store, "/tmp/ws".to_string()).unwrap();
    add_recent_file(&mut store, recent("/a", "a", 1)).unwrap();
    assert_eq!(get_current_folder_path(&store), Some("/tmp/ws".to_string()));
}

#[test]
fn workspace_state_of_a_new_store_is_the_default() {
    assert_eq!(get_workspace_state(&Store::new()), WorkspaceData::default());
}

#[test]
fn workspace_state_round_trip() {
    let states = [
        WorkspaceData::default(),
        WorkspaceData {
            folder_path: Some("/tmp/ws".to_string()),
            selected_file_path: None,
            recent_files: vec![recent("/a", "a", 1)],
        },
        WorkspaceData {
            folder_path: None,
            selected_file_path: Some("/tmp/ws/a.md".to_string()),
            recent_files: Vec::new(),
        },
        WorkspaceData {
            folder_path: Some(String::new()),
            selected_file_path: Some("é/ü".to_string()),
            recent_files: vec![recent("/b", "b", u64::MAX), recent("/a", "a", 0)],
        },
    ];
    for state in states {
        let mut store = Store::new();
        set_current_folder_path(&mut store, "/before".to_string()).unwrap();
        add_recent_file(&mut store, recent("/before", "before", 5)).unwrap();
        assert!(save_workspace_state(&mut store, state.clone()).is_ok());
        assert_eq!(get_workspace_state(&store), state);
    }
}

#[test]
fn a_whole_record_write_replaces_what_the_fields_held() {
    let mut store = Store::new();
    set_current_folder_path(&mut store, "/tmp/ws".to_string()).unwrap();
    set_current_file_path(&mut store, "/tmp/ws/a.md".to_string()).unwrap();
    save_workspace_state(&mut store, WorkspaceData::default()).unwrap();
    assert_eq!(get_current_folder_path(&store), None);
    assert_eq!(get_current_file_path(&store), None);
    assert_eq!(store.get("folderPath"), Some(&JsonValue::Null));
    assert_eq!(store.get("recentFiles"), Some(&JsonValue::Array(Vec::new())));
}

#[test]
fn field_writes_show_in_the_whole_record() {
    let mut store = Store::new();
    set_current_folder_path(&mut store, "/tmp/ws".to_string()).unwrap();
    add_recent_file(&mut store, recent("/a", "a", 1)).unwrap();
    assert_eq!(
        get_workspace_state(&store),
        WorkspaceData {
            folder_path: Some("/tmp/ws".to_string()),
            selected_file_path: None,
            recent_files: vec![recent("/a", "a", 1)],
        }
    );
}
