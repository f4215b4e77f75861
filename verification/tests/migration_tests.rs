use boltscribe::json::JsonValue;
use boltscribe::migration::{check_copy, check_history_audio_path, rewrite_history_value};

fn record(audio_path: &str) -> JsonValue {
    JsonValue::Object(vec![
        ("audio_path".to_string(), JsonValue::String(audio_path.to_string())),
        ("id".to_string(), JsonValue::String("1".to_string())),
        ("future".to_string(), JsonValue::Bool(true)),
    ])
}

fn audio_path(value: &JsonValue) -> String {
    match value {
        JsonValue::Object(members) => match &members[0].1 {
            JsonValue::String(s) => s.clone(),
            _ => panic!("audio_path is not a string"),
        },
        _ => panic!("not an object"),
    }
}

#[test]
fn rewrite_moves_audio_paths_under_the_old_recordings_dir() {
    let moved = rewrite_history_value(record("/old/recordings/a/1_x.wav"), "/old/recordings", "/new/recordings").unwrap();
    assert_eq!(audio_path(&moved), "/new/recordings/a/1_x.wav");
    match moved {
        JsonValue::Object(members) => {
            assert_eq!(members.len(), 3);
            assert_eq!(members[1].0, "id");
            assert_eq!(members[2].0, "future");
        }
        _ => panic!("not an object"),
    }
}

#[test]
fn rewrite_leaves_other_records_alone() {
    // Only whole components count as a prefix.
    assert!(rewrite_history_value(record("/old/recordings2/a.wav"), "/old/recordings", "/new/recordings").is_none());
    assert!(rewrite_history_value(record("/elsewhere/a.wav"), "/old/recordings", "/new/recordings").is_none());
    assert!(rewrite_history_value(JsonValue::Object(vec![]), "/old/recordings", "/new/recordings").is_none());
    assert!(rewrite_history_value(JsonValue::Null, "/old/recordings", "/new/recordings").is_none());
    let numeric = JsonValue::Object(vec![("audio_path".to_string(), JsonValue::Bool(false))]);
    assert!(rewrite_history_value(numeric, "/old/recordings", "/new/recordings").is_none());
}

#[test]
fn moved_history_must_not_name_the_old_recordings() {
    let problem = check_history_audio_path(&record("/old/recordings/a.wav"), "/old/recordings", "/new/recordings", "/new/recordings");
    assert_eq!(
        problem.as_deref(),
        Some("Data directory migration verification failed: history still references /old/recordings")
    );
    assert_eq!(check_history_audio_path(&record("/new/recordings/a.wav"), "/old/recordings", "/new/recordings", "/new/recordings"), None);
    assert_eq!(check_history_audio_path(&record("/tmp/a.wav"), "/old/recordings", "/new/recordings", "/new/recordings"), None);
    let inconsistent = check_history_audio_path(&record("/here/recordings/a.wav"), "/old/recordings", "/new/recordings", "/here/recordings");
    assert_eq!(
        inconsistent.as_deref(),
        Some("Data directory migration verification failed: history recording path is inconsistent")
    );
}

fn strings(items: &[&str]) -> Vec<String> {
    items.iter().map(|s| s.to_string()).collect()
}

fn files(items: &[(&str, u64)]) -> Vec<(String, u64)> {
    items.iter().map(|(s, n)| (s.to_string(), *n)).collect()
}

#[test]
fn copy_check_compares_directories_files_and_sizes() {
    let dirs = strings(&["recordings"]);
    let source = files(&[("config.json", 10), ("history.jsonl", 50), ("recordings/a.wav", 7)]);
    // The history may change size when its paths are rewritten.
    let target = files(&[("config.json", 10), ("history.jsonl", 62), ("recordings/a.wav", 7)]);
    assert_eq!(check_copy(&dirs, &dirs, &source, &target), None);

    assert_eq!(
        check_copy(&dirs, &strings(&[]), &source, &target).as_deref(),
        Some("Data directory migration verification failed: directory list changed")
    );
    assert_eq!(
        check_copy(&dirs, &dirs, &source, &files(&[("config.json", 10), ("history.jsonl", 50)])).as_deref(),
        Some("Data directory migration verification failed: file list changed")
    );
    assert_eq!(
        check_copy(&dirs, &dirs, &source, &files(&[("config.json", 10), ("history.jsonl", 50), ("recordings/a.wav", 6)])).as_deref(),
        Some("Data directory migration verification failed: file size changed for recordings/a.wav")
    );
}

#[test]
fn data_directory_paths_must_be_absolute_and_not_a_root() {
    let absolute = boltscribe::data_dir::absolute_path_refusal;
    assert_eq!(absolute("/Users/me/data"), None);
    assert_eq!(absolute("data").as_deref(), Some("Data directory must be an absolute path"));
    let root = boltscribe::data_dir::root_target_refusal;
    assert_eq!(root("/Users/me/data"), None);
    assert_eq!(root("/").as_deref(), Some("Data directory cannot be a filesystem root"));
    assert_eq!(
        boltscribe::data_dir::custom_dir_refusal("rel/dir").as_deref(),
        Some("Custom data directory must be an absolute path")
    );
    assert_eq!(
        boltscribe::data_dir::clean_root_refusal("/").as_deref(),
        Some("Refusing to clean filesystem root: /")
    );
    assert_eq!(boltscribe::data_dir::clean_root_refusal("/tmp/x"), None);
}
