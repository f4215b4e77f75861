use boltscribe::asr::{
    buffer_overflow_result, connection_failed, note_connected, stream_result, AsrOutput, ConnectFailure, ConnectRetry,
    LiveConnection,
};
use boltscribe::asr::build_full_request;
use boltscribe::asr::file_audio_requests;
use boltscribe::asr::service_error_message;
use boltscribe::asr::transcript_output;
use boltscribe::asr_response::AsrResponseState;
use boltscribe::json::JsonValue;
use boltscribe::asr::{
    audio_request, buffer_live_audio_chunk_with_limit, classify_http_status, finish_live_audio_frames,
    live_retry_delay, validate_config, wav_bytes_from_mono, ws_request_headers, LiveAsrDiagnostics,
    LiveAudioFramer, STREAM_CHUNK_BYTES, STREAM_FRAME_SAMPLES, TARGET_SAMPLE_RATE,
};
use boltscribe::config::AsrConfig;
use boltscribe::recorder::AudioChunk;
use std::time::Duration;

fn test_asr_config(auth_mode: &str, app_key: &str, access_key: &str) -> AsrConfig {
    AsrConfig {
        provider: "volcengine".to_string(),
        auth_mode: auth_mode.to_string(),
        app_key: app_key.to_string(),
        access_key: access_key.to_string(),
        resource_id: "volc.seedasr.sauc.duration".to_string(),
        stream_url: "wss://openspeech.bytedance.com/api/v3/sauc/bigmodel_nostream".to_string(),
        submit_url: String::new(),
        query_url: String::new(),
        language: "zh-CN".to_string(),
    }
}

fn header<'a>(headers: &'a [(String, String)], name: &str) -> Option<&'a str> {
    headers.iter().find(|(k, _)| k == name).map(|(_, v)| v.as_str())
}

#[test]
fn builds_wav_header_for_16k_mono() {
    let wav = wav_bytes_from_mono(&[0, 1, -1], TARGET_SAMPLE_RATE);
    assert_eq!(&wav[0..4], b"RIFF");
    assert_eq!(&wav[8..12], b"WAVE");
    assert_eq!(u16::from_le_bytes([wav[22], wav[23]]), 1);
    assert_eq!(u32::from_le_bytes([wav[24], wav[25], wav[26], wav[27]]), 16_000);
}

#[test]
fn wav_carries_sizes_and_little_endian_samples() {
    let wav = wav_bytes_from_mono(&[0, 1, -1], 16_000);
    assert_eq!(wav.len(), 44 + 6);
    assert_eq!(u32::from_le_bytes([wav[4], wav[5], wav[6], wav[7]]), 36 + 6);
    assert_eq!(u32::from_le_bytes([wav[40], wav[41], wav[42], wav[43]]), 6);
    assert_eq!(u32::from_le_bytes([wav[28], wav[29], wav[30], wav[31]]), 32_000);
    assert_eq!(&wav[44..], &[0, 0, 1, 0, 0xff, 0xff]);
}

#[test]
fn marks_final_audio_request() {
    let request = audio_request(&[1, 2, 3], true).unwrap();
    assert_eq!(request[1] & 0x0f, 0x02);
}

#[test]
fn audio_request_carries_compressed_payload_size() {
    let request = audio_request(&[1, 2, 3], false).unwrap();
    assert_eq!(&request[0..4], &[0x11, 0x20, 0x01, 0x00]);
    let size = u32::from_be_bytes([request[4], request[5], request[6], request[7]]) as usize;
    assert_eq!(request.len(), 8 + size);
    // gzip magic: the payload was compressed, not copied.
    assert_eq!(&request[8..10], &[0x1f, 0x8b]);
}

#[test]
fn validates_new_console_api_key_without_app_key() {
    let config = test_asr_config("api_key", "", "new-api-key");
    assert!(validate_config(&config).is_ok());
}

#[test]
fn legacy_console_auth_requires_app_key() {
    let config = test_asr_config("legacy", "", "legacy-access-token");
    assert!(validate_config(&config).unwrap_err().contains("app_key is required"));
}

#[test]
fn builds_new_console_api_key_headers_when_app_key_is_empty() {
    let config = test_asr_config("api_key", "", "new-api-key");
    let headers = ws_request_headers(&config, "task-id");

    assert_eq!(header(&headers, "X-Api-Key").unwrap(), "new-api-key");
    assert!(header(&headers, "X-Api-App-Key").is_none());
    assert!(header(&headers, "X-Api-Access-Key").is_none());
    assert_eq!(header(&headers, "X-Api-Resource-Id").unwrap(), "volc.seedasr.sauc.duration");
    assert_eq!(header(&headers, "X-Api-Sequence").unwrap(), "-1");
}

#[test]
fn explicit_new_console_auth_ignores_leftover_app_key() {
    let config = test_asr_config("api_key", "legacy-app-id", "new-api-key");
    let headers = ws_request_headers(&config, "task-id");

    assert_eq!(header(&headers, "X-Api-Key").unwrap(), "new-api-key");
    assert!(header(&headers, "X-Api-App-Key").is_none());
    assert!(header(&headers, "X-Api-Access-Key").is_none());
}

#[test]
fn builds_legacy_console_headers_when_app_key_is_present() {
    let config = test_asr_config("legacy", "legacy-app-id", "legacy-access-token");
    let headers = ws_request_headers(&config, "task-id");

    assert_eq!(header(&headers, "X-Api-App-Key").unwrap(), "legacy-app-id");
    assert_eq!(header(&headers, "X-Api-Access-Key").unwrap(), "legacy-access-token");
    assert!(header(&headers, "X-Api-Key").is_none());
}

#[test]
fn explicit_http_client_errors_are_not_retried() {
    let (category, retryable) = classify_http_status(401);
    assert!(!retryable);
    assert_eq!(category, "http_client");
}

#[test]
fn temporary_server_errors_are_retried() {
    let (category, retryable) = classify_http_status(503);
    assert!(retryable);
    assert_eq!(category, "http_temporary");
}

#[test]
fn retry_backoff_reaches_five_second_ceiling() {
    assert_eq!(Duration::from_millis(live_retry_delay(1)), Duration::from_millis(250));
    assert_eq!(Duration::from_millis(live_retry_delay(2)), Duration::from_millis(750));
    assert_eq!(Duration::from_millis(live_retry_delay(3)), Duration::from_millis(1_500));
    assert_eq!(Duration::from_millis(live_retry_delay(4)), Duration::from_secs(3));
    assert_eq!(Duration::from_millis(live_retry_delay(5)), Duration::from_secs(5));
    assert_eq!(Duration::from_millis(live_retry_delay(50)), Duration::from_secs(5));
}

#[test]
fn live_audio_buffer_preserves_order_and_enforces_limit() {
    let first = AudioChunk { samples: vec![1, 2], sample_rate: 16_000, channels: 1 };
    let second = AudioChunk { samples: vec![3, 4], sample_rate: 16_000, channels: 1 };
    let mut buffered = Vec::new();
    let mut buffered_bytes = 0;
    let mut diagnostics = LiveAsrDiagnostics::default();

    buffer_live_audio_chunk_with_limit(first, &mut buffered, &mut buffered_bytes, &mut diagnostics, 8).unwrap();
    buffer_live_audio_chunk_with_limit(second, &mut buffered, &mut buffered_bytes, &mut diagnostics, 8).unwrap();

    assert_eq!(buffered[0].samples, vec![1, 2]);
    assert_eq!(buffered[1].samples, vec![3, 4]);
    assert_eq!(diagnostics.peak_buffered_bytes, 8);
    assert!(buffer_live_audio_chunk_with_limit(
        AudioChunk { samples: vec![5], sample_rate: 16_000, channels: 1 },
        &mut buffered,
        &mut buffered_bytes,
        &mut diagnostics,
        8,
    )
    .is_err());
}

#[test]
fn live_audio_framer_emits_200ms_pcm_frames() {
    let mut framer = LiveAudioFramer::default();
    let samples = vec![7; STREAM_FRAME_SAMPLES + 10];
    let frames = framer.push_samples(&samples);

    assert_eq!(frames.len(), 1);
    assert_eq!(frames[0].len(), STREAM_CHUNK_BYTES);
    assert_eq!(framer.finish().unwrap().len(), 20);
}

#[test]
fn live_audio_finish_sends_partial_tail_after_delayed_frame() {
    let mut framer = LiveAudioFramer::default();
    let samples = vec![7; STREAM_FRAME_SAMPLES + 10];
    let frames = framer.push_samples(&samples);
    assert_eq!(frames.len(), 1);

    let outgoing = finish_live_audio_frames(Some(frames[0].clone()), &mut framer);

    assert_eq!(outgoing.len(), 2);
    assert_eq!(outgoing[0].0.len(), STREAM_CHUNK_BYTES);
    assert!(!outgoing[0].1);
    assert_eq!(outgoing[1].0.len(), 20);
    assert!(outgoing[1].1);
    assert!(framer.finish().is_none());
}

#[test]
fn live_audio_finish_marks_single_available_frame_final() {
    let mut empty_framer = LiveAudioFramer::default();
    let outgoing = finish_live_audio_frames(Some(vec![7; STREAM_CHUNK_BYTES]), &mut empty_framer);

    assert_eq!(outgoing, vec![(vec![7; STREAM_CHUNK_BYTES], true)]);

    let mut partial_framer = LiveAudioFramer::default();
    let frames = partial_framer.push_samples(&[7; 10]);
    assert!(frames.is_empty());

    let outgoing = finish_live_audio_frames(None, &mut partial_framer);
    let expected_partial = [7i16; 10].into_iter().flat_map(i16::to_le_bytes).collect::<Vec<_>>();

    assert_eq!(outgoing, vec![(expected_partial, true)]);
    assert!(partial_framer.finish().is_none());
}

#[test]
fn live_audio_finish_returns_empty_without_audio() {
    let mut framer = LiveAudioFramer::default();

    assert!(finish_live_audio_frames(None, &mut framer).is_empty());
}

#[test]
fn full_request_describes_the_audio_and_the_user() {
    let value = build_full_request(&test_asr_config("", "app-key", "access"), "pcm");
    let JsonValue::Object(top) = value else { panic!("object expected") };
    let keys: Vec<&str> = top.iter().map(|(k, _)| k.as_str()).collect();
    assert_eq!(keys, vec!["audio", "request", "user"]);
    let JsonValue::Object(audio) = &top[0].1 else { panic!("audio object") };
    assert!(matches!(&audio[3], (k, JsonValue::String(f)) if k == "format" && f == "pcm"));
    assert!(matches!(&audio[4], (k, JsonValue::String(l)) if k == "language" && l == "zh-CN"));
    let JsonValue::Object(user) = &top[2].1 else { panic!("user object") };
    assert!(matches!(&user[0], (k, JsonValue::String(u)) if k == "uid" && u == "app-key"));
    let value = build_full_request(&test_asr_config("api_key", "", "access"), "wav");
    let JsonValue::Object(top) = value else { panic!("object expected") };
    let JsonValue::Object(user) = &top[2].1 else { panic!("user object") };
    assert!(matches!(&user[0], (_, JsonValue::String(u)) if u == "boltscribe"));
}

#[test]
fn transcript_needs_text() {
    let error = transcript_output(AsrResponseState::new(None), true, "task".to_string(), &None).unwrap_err();
    assert_eq!(error, "Volcengine live ASR response did not contain text, log_id=None");
    let error =
        transcript_output(AsrResponseState::new(None), false, "task".to_string(), &Some("abc".to_string())).unwrap_err();
    let mut state = AsrResponseState::new(None);
    assert_eq!(error, "Volcengine ASR response did not contain text, log_id=Some(\"abc\")");
    state.best_text = "你好".to_string();
    state.service_duration_ms = Some(1200);
    let output = transcript_output(state, false, "task".to_string(), &None).unwrap();
    assert_eq!(output.text, "你好");
    assert_eq!(output.provider, "volcengine_ws_file");
    assert_eq!(output.task_id.as_deref(), Some("task"));
    assert_eq!(output.duration_ms, Some(1200));
}

#[test]
fn service_errors_name_code_message_and_log_id() {
    assert_eq!(
        service_error_message(45000001, "bad", &Some("L1".to_string())),
        "Volcengine ASR websocket error: code=45000001, message=bad, log_id=Some(\"L1\")"
    );
}

#[test]
fn whole_recordings_are_sent_in_flagged_pieces() {
    let audio = vec![7u8; STREAM_CHUNK_BYTES * 2 + 10];
    let requests = file_audio_requests(&audio).unwrap();
    assert_eq!(requests.len(), 3);
    assert_eq!(requests[0][1], 0x20);
    assert_eq!(requests[1][1], 0x20);
    assert_eq!(requests[2][1], 0x22);
    assert!(file_audio_requests(&[]).unwrap().is_empty());
}

#[test]
fn live_activity_progress_never_goes_back() {
    let mut activity = boltscribe::asr::LiveAsrActivity::new();
    assert_eq!(activity.last_progress_ms(), None);
    activity.note_progress(0);
    assert_eq!(activity.last_progress_ms(), Some(1));
    activity.note_progress(10);
    assert_eq!(activity.last_progress_ms(), Some(10));
    activity.note_progress(5);
    assert_eq!(activity.last_progress_ms(), Some(10));
}

#[test]
fn the_session_state_holds_the_one_activity_every_reader_sees() {
    let mut state = AsrResponseState::new(Some(boltscribe::asr::LiveAsrActivity::new()));
    let value = boltscribe::json::JsonValue::Object(vec![(
        "result".to_string(),
        boltscribe::json::JsonValue::Object(vec![(
            "text".to_string(),
            boltscribe::json::JsonValue::String("你好".to_string()),
        )]),
    )]);
    state.apply_result(&value, false, 40);
    let seen = state.activity.as_ref().unwrap().last_progress_ms();
    assert_eq!(seen, Some(40));
}

#[test]
fn live_session_results_carry_a_reason_exactly_when_they_fail() {
    let mut diagnostics = LiveAsrDiagnostics::default();
    note_connected(&mut diagnostics, 120);
    note_connected(&mut diagnostics, 300);
    assert_eq!(diagnostics.first_connected_after_ms, Some(120));

    let output = AsrOutput { text: "你好".to_string(), provider: "p".to_string(), task_id: None, duration_ms: None };
    let ok = stream_result(diagnostics.clone(), Ok(output));
    assert!(ok.output.is_ok());
    assert_eq!(ok.diagnostics.fallback_reason, None);
    let failed = stream_result(diagnostics.clone(), Err("closed".to_string()));
    assert_eq!(failed.diagnostics.fallback_reason.as_deref(), Some("stream_interrupted"));
    assert_eq!(failed.diagnostics.last_error_category.as_deref(), Some("stream_interrupted"));

    let overflow = buffer_overflow_result(diagnostics.clone(), "too much".to_string());
    assert_eq!(overflow.diagnostics.fallback_reason.as_deref(), Some("buffer_limit_exceeded"));
    assert_eq!(overflow.output.unwrap_err(), "too much");

    let mut connection = LiveConnection::default();
    let retry = connection_failed(diagnostics.clone(), &mut connection, ConnectFailure::retryable("timeout", "t".to_string()));
    let (after, action) = retry.ok().unwrap();
    assert_eq!(after.last_error_category.as_deref(), Some("timeout"));
    assert_eq!(after.fallback_reason, None);
    assert!(matches!(action, ConnectRetry::RetryAfter(_)));

    let give_up = connection_failed(diagnostics, &mut connection, ConnectFailure::permanent("configuration", "bad".to_string()));
    let result = give_up.err().unwrap();
    assert_eq!(result.diagnostics.fallback_reason.as_deref(), Some("non_retryable_connection_error"));
    assert_eq!(result.output.unwrap_err(), "bad");
}
