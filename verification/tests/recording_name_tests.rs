use boltscribe::recording_name::{is_app_managed_recording_stem, is_i64_text};

fn chars(s: &str) -> Vec<char> {
    s.chars().collect()
}

#[test]
fn i64_text_follows_from_str() {
    for s in ["0", "1700000000000", "+5", "-5", "9223372036854775807", "-9223372036854775808", "007"] {
        assert!(is_i64_text(&chars(s)), "{s}");
        assert!(s.parse::<i64>().is_ok());
    }
    for s in ["", "+", "-", "9223372036854775808", "-9223372036854775809", "12a", " 1", "1.5", "--1"] {
        assert!(!is_i64_text(&chars(s)), "{s}");
        assert!(s.parse::<i64>().is_err());
    }
}

#[test]
fn managed_stems_have_a_timestamp_and_a_uuid() {
    assert!(is_app_managed_recording_stem("1700000000000_67e55044-10b1-426f-9247-bb680e5fe0c8"));
    assert!(is_app_managed_recording_stem("1700000000000_67e5504410b1426f9247bb680e5fe0c8"));
    assert!(is_app_managed_recording_stem("-1_{67e55044-10b1-426f-9247-bb680e5fe0c8}"));
    assert!(is_app_managed_recording_stem("5_URN:uuid:67e55044-10b1-426f-9247-BB680E5FE0C8"));
}

#[test]
fn other_stems_are_not_managed() {
    assert!(!is_app_managed_recording_stem("notes"));
    assert!(!is_app_managed_recording_stem("_67e55044-10b1-426f-9247-bb680e5fe0c8"));
    assert!(!is_app_managed_recording_stem("abc_67e55044-10b1-426f-9247-bb680e5fe0c8"));
    assert!(!is_app_managed_recording_stem("1700000000000_not-a-uuid"));
    assert!(!is_app_managed_recording_stem("1700000000000_67e55044_10b1-426f-9247-bb680e5fe0c8"));
    assert!(!is_app_managed_recording_stem("1700000000000_67e55044-10b1-426f-9247-bb680e5fe0c"));
    assert!(!is_app_managed_recording_stem("1700000000000_67e55044-10b1-426f-9247-bb680e5fe0cg"));
}
