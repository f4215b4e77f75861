use boltscribe::audio_devices::{cpal_device_id, cpal_input_device, rank_input_devices, AudioInputDevice};
use boltscribe::config::{AudioConfig, AudioInputDeviceRef};

fn device(id: &str, name: &str, is_default: bool) -> AudioInputDevice {
    AudioInputDevice { id: id.to_string(), name: name.to_string(), is_default, platform: "test".to_string() }
}

fn reference(id: &str, name: &str) -> AudioInputDeviceRef {
    AudioInputDeviceRef { id: id.to_string(), name: name.to_string() }
}

#[test]
fn priority_uses_exact_id_before_stale_name() {
    let available = vec![device("device-b", "Saved Name", false), device("device-a", "Renamed Device", true)];
    let mut config = AudioConfig::default();
    config.input_device_priority = vec![reference("device-a", "Saved Name")];

    let ranked = rank_input_devices(&config, &available);

    assert_eq!(ranked[0].id, "device-a");
}

#[test]
fn priority_falls_back_to_name_when_saved_id_is_missing() {
    let available = vec![device("new-id", "Preferred Mic", false), device("default", "Default Mic", true)];
    let mut config = AudioConfig::default();
    config.input_device_priority = vec![reference("old-id", "Preferred Mic")];

    let ranked = rank_input_devices(&config, &available);

    assert_eq!(ranked[0].id, "new-id");
    assert_eq!(ranked[1].id, "default");
}

#[test]
fn unavailable_priorities_fall_through_to_default_then_remaining_devices() {
    let available = vec![device("other", "Other Mic", false), device("default", "Default Mic", true)];
    let mut config = AudioConfig::default();
    config.input_device_priority = vec![reference("missing", "Missing Mic")];

    let ranked = rank_input_devices(&config, &available);

    assert_eq!(ranked.iter().map(|device| device.id.as_str()).collect::<Vec<_>>(), vec!["default", "other"]);
}

#[test]
fn blacklist_wins_over_priority_default_and_name_changes() {
    let available = vec![device("blocked-id", "Capture Card", true), device("safe-id", "Safe Mic", false)];
    let mut config = AudioConfig::default();
    config.input_device_priority = vec![reference("blocked-id", "Old Capture Name")];
    config.input_device_blacklist = vec![reference("old-id", "capture card")];

    let ranked = rank_input_devices(&config, &available);

    assert_eq!(ranked.len(), 1);
    assert_eq!(ranked[0].id, "safe-id");
}

#[test]
fn all_blacklisted_devices_produce_no_candidates() {
    let available = vec![device("only", "Only Mic", true)];
    let mut config = AudioConfig::default();
    config.input_device_blacklist = vec![reference("only", "Only Mic")];

    assert!(rank_input_devices(&config, &available).is_empty());
}

#[test]
fn stable_id_blacklist_blocks_ambiguous_same_name_endpoints() {
    let available = vec![
        device("blocked", "Duplicate Mic", true),
        device("other", "Duplicate Mic", false),
        device("safe", "Safe Mic", false),
    ];
    let mut config = AudioConfig::default();
    config.input_device_blacklist = vec![reference("blocked", "")];

    let ranked = rank_input_devices(&config, &available);

    assert_eq!(ranked.len(), 1);
    assert_eq!(ranked[0].id, "safe");
}

#[test]
fn ranking_lists_each_id_once_and_keeps_every_eligible_device() {
    let available = vec![device("a", "Mic A", false), device("b", "Mic B", true), device("a", "Mic A again", false)];
    let mut config = AudioConfig::default();
    config.input_device_priority = vec![reference("a", ""), reference("a", "")];

    let ranked = rank_input_devices(&config, &available);

    assert_eq!(ranked.iter().map(|d| d.id.as_str()).collect::<Vec<_>>(), vec!["a", "b"]);
    assert_eq!(ranked[0].name, "Mic A");
}

#[test]
fn cpal_ids_carry_index_and_name() {
    assert_eq!(cpal_device_id(12, "USB Mic"), "cpal:12:USB Mic");
    let unnamed = cpal_input_device(0, None, Some("Input device 1".to_string()), "other");
    assert_eq!(unnamed.name, "Input device 1");
    assert_eq!(unnamed.id, "cpal:0:Input device 1");
    assert!(unnamed.is_default);
    let named = cpal_input_device(9, Some("Desk".to_string()), None, "windows");
    assert_eq!(named.id, "cpal:9:Desk");
    assert!(!named.is_default);
    assert_eq!(named.platform, "windows");
}

#[test]
fn ranking_lists_picks_then_defaults_then_the_rest_in_order() {
    let available = vec![
        device("a", "A", false),
        device("d1", "D1", true),
        device("b", "B", false),
        device("p", "P", false),
        device("d2", "D2", true),
        device("c", "C", false),
    ];
    let mut config = AudioConfig::default();
    config.input_device_priority = vec![reference("p", ""), reference("d2", "")];
    config.input_device_blacklist = vec![reference("b", "")];
    let ranked: Vec<String> = rank_input_devices(&config, &available).into_iter().map(|d| d.id).collect();
    assert_eq!(ranked, vec!["p", "d2", "d1", "a", "c"]);
}
