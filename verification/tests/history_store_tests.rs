use boltscribe::config::RetentionConfig;
use boltscribe::data_dir::{cleanup_warning, info, migration_refusal, reset_data_dir, set_data_dir, DirFacts};
use boltscribe::history_store::{HistoryLine, HistoryStore, RecordingFile};
use boltscribe::input_stats::{STATS_SCHEMA_VERSION, select_stats_events, stats_event_from_record, text_before, InputStatsAccumulator, InputStatsEvent};
use boltscribe::paths::{app_dir_in, history_path, recordings_dir};

const DAY_MS: i64 = 86_400_000;
const HOUR_MS: i64 = 3_600_000;

fn record(id: &str, created_at: i64, audio: Option<u64>) -> HistoryLine {
    HistoryLine {
        raw: format!("{{\"id\":\"{id}\"}}"),
        has_value: true,
        created_at: Some(created_at),
        audio_finished_at: Some(created_at),
        id: Some(id.to_string()),
        audio,
    }
}

fn managed(file: u64, bytes: u64, modified_at: Option<i64>) -> RecordingFile {
    RecordingFile { file, bytes, modified_at, app_managed: true }
}

#[test]
fn prune_keeps_lines_and_audio_a_kept_record_still_names() {
    let now = 10 * DAY_MS;
    let lines = vec![
        record("old", 1_000, Some(1)),
        record("new", 2_000, Some(1)),
        HistoryLine {
            raw: "{future malformed history".to_string(),
            has_value: false,
            created_at: None,
            audio_finished_at: None,
            id: None,
            audio: None,
        },
    ];
    let files = vec![managed(1, 6, Some(0))];
    let retention = RetentionConfig { max_history_records: 1, max_storage_bytes: u64::MAX };
    let plan = HistoryStore::prune(&retention, &lines, &files, now);
    assert_eq!(plan.removed, vec![true, false, false]);
    assert!(plan.delete.is_empty());
}

#[test]
fn prune_drops_the_oldest_record_until_storage_fits() {
    let lines = vec![record("current", 2_000, Some(2)), record("legacy", 1_000, Some(3))];
    let files = vec![managed(2, 6, None), managed(3, 6, None)];
    let retention = RetentionConfig { max_history_records: 10, max_storage_bytes: 6 };
    let plan = HistoryStore::prune(&retention, &lines, &files, 5 * DAY_MS);
    assert_eq!(plan.removed, vec![false, true]);
    assert_eq!(plan.delete, vec![3]);
}

#[test]
fn prune_reclaims_orphans_only_after_a_day() {
    let modified = 100 * DAY_MS;
    let files = vec![managed(4, 6, Some(modified))];
    let retention = RetentionConfig { max_history_records: 10, max_storage_bytes: u64::MAX };
    let early = HistoryStore::prune(&retention, &Vec::new(), &files, modified + 23 * HOUR_MS);
    assert!(early.delete.is_empty());
    let late = HistoryStore::prune(&retention, &Vec::new(), &files, modified + 25 * HOUR_MS);
    assert_eq!(late.delete, vec![4]);
}

#[test]
fn prune_spares_orphans_while_a_line_is_unreadable() {
    let modified = 100 * DAY_MS;
    let lines = vec![HistoryLine {
        raw: "not json".to_string(),
        has_value: false,
        created_at: None,
        audio_finished_at: None,
        id: None,
        audio: None,
    }];
    let files = vec![managed(4, 6, Some(modified))];
    let retention = RetentionConfig { max_history_records: 10, max_storage_bytes: u64::MAX };
    let plan = HistoryStore::prune(&retention, &lines, &files, modified + 2 * DAY_MS);
    assert!(plan.delete.is_empty());
    assert_eq!(plan.removed, vec![false]);
}

#[test]
fn prune_removes_records_of_equal_age_in_file_order() {
    let lines = vec![record("a", 5, None), record("b", 5, None), record("c", 1, None)];
    let retention = RetentionConfig { max_history_records: 1, max_storage_bytes: u64::MAX };
    let plan = HistoryStore::prune(&retention, &lines, &Vec::new(), DAY_MS);
    assert_eq!(plan.removed, vec![true, false, true]);
}

#[test]
fn delete_frees_only_recordings_no_other_line_names() {
    let lines = vec![record("a", 1, Some(1)), record("b", 2, Some(1)), record("a", 3, Some(2))];
    let plan = HistoryStore::delete("  a ", &lines).unwrap();
    assert_eq!(plan.removed, vec![true, false, true]);
    assert_eq!(plan.deleted_records, 2);
    assert_eq!(plan.delete, vec![2]);
}

#[test]
fn delete_of_an_unknown_record_changes_nothing() {
    let lines = vec![record("a", 1, Some(1))];
    let plan = HistoryStore::delete("zzz", &lines).unwrap();
    assert_eq!(plan.removed, vec![false]);
    assert_eq!(plan.deleted_records, 0);
    assert!(plan.delete.is_empty());
}

#[test]
fn delete_refuses_a_blank_id() {
    assert_eq!(
        HistoryStore::delete("   ", &Vec::new()).unwrap_err(),
        "History record id cannot be empty"
    );
}

#[test]
fn data_dir_info_reports_the_default() {
    let a = info("/data/BoltScribe".to_string(), "/data/BoltScribe".to_string());
    assert!(a.is_default);
    assert_eq!(a.cleanup_warning, None);
    let b = info("/custom".to_string(), "/data/BoltScribe".to_string());
    assert!(!b.is_default);
    assert_eq!(b.path, "/custom");
}

#[test]
fn data_dir_plans() {
    let same = set_data_dir("/a", "/a", "/d");
    assert!(!same.migrate && !same.clear_custom_pointer);
    let to_default = set_data_dir("/a", "/d", "/d");
    assert!(to_default.migrate && to_default.clear_custom_pointer);
    let reset = reset_data_dir("/d", "/d");
    assert!(!reset.migrate && reset.clear_custom_pointer);
}

#[test]
fn migration_refusals() {
    let dir = DirFacts { exists: true, is_dir: true, empty: true };
    let missing = DirFacts { exists: false, is_dir: false, empty: true };
    let full = DirFacts { exists: true, is_dir: true, empty: false };
    let file = DirFacts { exists: true, is_dir: false, empty: true };
    assert_eq!(migration_refusal("/s", dir, "/t", missing, false, false), None);
    assert_eq!(
        migration_refusal("/s", file, "/t", missing, false, false).unwrap(),
        "Current data directory is not a directory: /s"
    );
    assert_eq!(
        migration_refusal("/s", dir, "/s/t", missing, true, false).unwrap(),
        "New data directory cannot be inside the current data directory"
    );
    assert_eq!(
        migration_refusal("/s/t", dir, "/s", dir, false, true).unwrap(),
        "New data directory cannot be a parent of the current data directory"
    );
    assert!(migration_refusal("/s", dir, "/t", full, false, false).unwrap().contains("must be empty"));
    assert_eq!(
        migration_refusal("/s", dir, "/t", file, false, false).unwrap(),
        "Selected data directory is not a directory: /t"
    );
    assert_eq!(
        cleanup_warning("/old", "busy"),
        "Data directory was changed, but cleanup of /old failed: busy"
    );
}

#[test]
fn app_dir_prefers_a_valid_custom_directory() {
    let home = Some("/home/u".to_string());
    let data = Some("/home/u/Library".to_string());
    assert_eq!(app_dir_in(home.clone(), data.clone(), None).unwrap(), "/home/u/Library/BoltScribe");
    assert_eq!(
        app_dir_in(home.clone(), data.clone(), Some(" /mnt/bolt \n".to_string())).unwrap(),
        "/mnt/bolt"
    );
    assert_eq!(app_dir_in(home.clone(), data.clone(), Some("  ".to_string())).unwrap(), "/home/u/Library/BoltScribe");
    assert_eq!(
        app_dir_in(home.clone(), data.clone(), Some("rel".to_string())).unwrap_err(),
        "Custom data directory in /home/u/.boltscribe/data_dir.txt must be absolute"
    );
    assert_eq!(app_dir_in(None, data, None).unwrap_err(), "Cannot resolve user home directory");
    assert_eq!(
        app_dir_in(home, None, None).unwrap_err(),
        "Cannot resolve user Application Support directory"
    );
}

#[test]
fn data_files_live_in_the_custom_directory() {
    let custom = Some("/mnt/bolt".to_string());
    if let Ok(p) = history_path(custom.clone()) {
        assert_eq!(p, "/mnt/bolt/history.jsonl");
    }
    if let Ok(p) = recordings_dir(custom) {
        assert_eq!(p, "/mnt/bolt/recordings");
    }
}

#[test]
fn cleanup_keeps_old_audio_when_a_new_record_shares_its_path() {
    let cutoff = 10 * DAY_MS;
    let lines = vec![record("old", DAY_MS, Some(1)), record("new", 20 * DAY_MS, Some(1)), record("older", DAY_MS, Some(2))];
    let files = vec![managed(1, 5, Some(0)), managed(2, 7, Some(0))];
    let plan = HistoryStore::cleanup_recordings_before(&lines, &files, cutoff);
    assert_eq!(plan.delete, vec![2]);
    assert_eq!(plan.cleared, vec![false, false, true]);
    assert_eq!(plan.cleared_records, 1);
}

#[test]
fn cleanup_reclaims_old_unreferenced_managed_files() {
    let cutoff = 10 * DAY_MS;
    let files = vec![
        managed(7, 5, Some(DAY_MS)),
        managed(8, 5, Some(20 * DAY_MS)),
        RecordingFile { file: 9, bytes: 5, modified_at: Some(DAY_MS), app_managed: false },
    ];
    let plan = HistoryStore::cleanup_recordings_before(&Vec::new(), &files, cutoff);
    assert_eq!(plan.delete, vec![7]);
    assert_eq!(plan.cleared_records, 0);
}

#[test]
fn cleanup_preview_counts_usage_and_eligible_files() {
    let files = vec![managed(1, 5, None), managed(2, 7, None)];
    let preview = HistoryStore::preview_recording_cleanup(&files, &vec![Some(7), None]);
    assert_eq!(preview.recording_files, 2);
    assert_eq!(preview.recording_bytes, 12);
    assert_eq!(preview.eligible_files, 1);
    assert_eq!(preview.eligible_bytes, 7);
}

fn event(id: &str, date: &str, chars: u64, audio: u64) -> InputStatsEvent {
    InputStatsEvent {
        schema_version: 1,
        record_id: id.to_string(),
        date: date.to_string(),
        character_count: chars,
        audio_duration_ms: audio,
    }
}

#[test]
fn stats_ledger_summarizes_events_per_day() {
    let events = vec![event("1", "2026-05-16", 5, 3_000), event("2", "2026-05-16", 10, 2_000)];
    let stats = InputStatsAccumulator::from_events(&events);
    assert_eq!(stats.total_character_count, 15);
    assert_eq!(stats.total_audio_duration_ms, 5_000);
    assert_eq!(stats.daily.len(), 1);
    assert_eq!(stats.daily[0].record_count, 2);
    assert_eq!(stats.daily[0].character_count, 15);
}

#[test]
fn stats_prefer_the_ledger_and_count_each_record_once() {
    let ledger = vec![event("same", "2026-05-16", 5, 1_000), InputStatsEvent { schema_version: 2, ..event("future", "2026-05-18", 99, 99) }];
    let history = vec![event("same", "2026-05-16", 4, 1_000), event("new", "2026-05-17", 2, 2_000)];
    let chosen = select_stats_events(ledger, history);
    assert_eq!(chosen.len(), 2);
    let stats = InputStatsAccumulator::from_events(&chosen);
    assert_eq!(stats.total_audio_duration_ms, 3_000);
    assert_eq!(stats.total_character_count, 7);
    assert_eq!(stats.daily.len(), 2);
    assert_eq!(stats.daily[0].date, "2026-05-16");
    assert_eq!(stats.daily[1].date, "2026-05-17");
}

#[test]
fn days_stay_in_date_order() {
    let mut acc = InputStatsAccumulator::new();
    for e in [event("a", "2026-05-18", 1, 1), event("b", "2026-05-16", 1, 1), event("c", "2026-05-17", 1, 1), event("d", "2026-05-16", 2, 2)] {
        acc.add_event(&e);
    }
    let dates: Vec<&str> = acc.daily.iter().map(|d| d.date.as_str()).collect();
    assert_eq!(dates, vec!["2026-05-16", "2026-05-17", "2026-05-18"]);
    let sum: u64 = acc.daily.iter().map(|d| d.character_count).sum();
    assert_eq!(sum, acc.total_character_count);
    assert_eq!(acc.daily[0].record_count, 2);
    assert!(text_before("2026-05-16", "2026-05-17"));
    assert!(!text_before("b", "ab"));
    assert!(text_before("a", "ab"));
}

#[test]
fn stats_event_from_history_record_uses_minimal_stats_fields() {
    // The local date and the audio length (24 000 samples at 16 kHz) are
    // worked out by the caller.
    let e = stats_event_from_record(&"ledger-1".to_string(), "2026-05-16".to_string(), "你好，world!", "", "", &None, 1_500).unwrap();
    assert_eq!(e.schema_version, STATS_SCHEMA_VERSION);
    assert_eq!(e.record_id, "ledger-1");
    assert_eq!(e.date, "2026-05-16");
    assert_eq!(e.character_count, 3);
    assert_eq!(e.audio_duration_ms, 1_500);
    assert!(stats_event_from_record(&"h".to_string(), "d".to_string(), "", "", "", &Some("ASR returned empty text".to_string()), 0).is_none());
}
