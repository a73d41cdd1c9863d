use editor_backend::recent::{
    recent_file_from_json, recent_file_to_json, recent_files_from_json, recent_files_to_json,
};
use editor_backend::{push_recent, JsonNumber, JsonValue, RecentFile, RECENT_LIMIT};

fn recent(path: &str, name: &str, accessed_at: u64) -> RecentFile {
    RecentFile { path: path.to_string(), name: name.to_string(), accessed_at }
}

#[test]
fn the_limit_is_ten() {
    assert_eq!(RECENT_LIMIT, 10);
}

#[test]
fn push_recent_on_an_empty_list() {
    let mut list = Vec::new();
    push_recent(&mut list, recent("/a", "a", 1));
    assert_eq!(list, vec![recent("/a", "a", 1)]);
}

#[test]
fn push_recent_drops_every_entry_of_the_path() {
    let mut list = vec![
        recent("/a", "a1", 1),
        recent("/b", "b", 2),
        recent("/a", "a2", 3),
        recent("/c", "c", 4),
    ];
    push_recent(&mut list, recent("/a", "new", 9));
    assert_eq!(
        list,
        vec![recent("/a", "new", 9), recent("/b", "b", 2), recent("/c", "c", 4)]
    );
}

#[test]
fn push_recent_keeps_a_full_list_full() {
    let mut list: Vec<RecentFile> = (0..10u64).map(|i| recent(&format!("/{i}"), "n", i)).collect();
    push_recent(&mut list, recent("/new", "new", 100));
    assert_eq!(list.len(), 10);
    assert_eq!(list[0], recent("/new", "new", 100));
    assert_eq!(list[1], recent("/0", "n", 0));
    assert_eq!(list[9], recent("/8", "n", 8));
}

#[test]
fn push_recent_of_a_path_in_a_full_list() {
    let mut list: Vec<RecentFile> = (0..10u64).map(|i| recent(&format!("/{i}"), "n", i)).collect();
    push_recent(&mut list, recent("/9", "again", 100));
    assert_eq!(list.len(), 10);
    assert_eq!(list[0], recent("/9", "again", 100));
    assert_eq!(list[9], recent("/8", "n", 8));
}

#[test]
fn paths_are_compared_exactly() {
    let mut list = vec![recent("/A", "upper", 1)];
    push_recent(&mut list, recent("/a", "lower", 2));
    assert_eq!(list, vec![recent("/a", "lower", 2), recent("/A", "upper", 1)]);
}

#[test]
fn a_recent_file_as_json() {
    let json = recent_file_to_json(&recent("/tmp/a.md", "a.md", 1700000000));
    assert_eq!(
        json,
        JsonValue::Object(vec![
            ("path".to_string(), JsonValue::String("/tmp/a.md".to_string())),
            ("name".to_string(), JsonValue::String("a.md".to_string())),
            ("accessed_at".to_string(), JsonValue::Number(JsonNumber::PosInt(1700000000))),
        ])
    );
    assert_eq!(recent_file_from_json(&json), Some(recent("/tmp/a.md", "a.md", 1700000000)));
}

#[test]
fn a_recent_file_takes_the_last_of_a_repeated_member() {
    let json = JsonValue::Object(vec![
        ("path".to_string(), JsonValue::Number(JsonNumber::PosInt(1))),
        ("path".to_string(), JsonValue::String("/a".to_string())),
        ("name".to_string(), JsonValue::String("a".to_string())),
        ("accessed_at".to_string(), JsonValue::Number(JsonNumber::PosInt(1))),
    ]);
    assert_eq!(recent_file_from_json(&json), Some(recent("/a", "a", 1)));
}

#[test]
fn a_list_of_recent_files_as_json() {
    let files = vec![recent("/b", "b", 2), recent("/a", "a", 1)];
    let json = recent_files_to_json(&files);
    assert_eq!(recent_files_from_json(&json), Some(files));
    assert_eq!(recent_files_to_json(&Vec::new()), JsonValue::Array(Vec::new()));
    assert_eq!(recent_files_from_json(&JsonValue::Array(Vec::new())), Some(Vec::new()));
    assert_eq!(recent_files_from_json(&JsonValue::Object(Vec::new())), None);
    assert_eq!(recent_files_from_json(&JsonValue::String("x".to_string())), None);
    assert_eq!(
        recent_files_from_json(&JsonValue::Array(vec![JsonValue::Null])),
        None
    );
}
