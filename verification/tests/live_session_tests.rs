use boltscribe::asr::{AsrOutput, ConnectFailure, ConnectRetry, LiveSession};
use boltscribe::history_store::parse_history_line;
use boltscribe::recorder::AudioChunk;

fn chunk(samples: usize) -> AudioChunk {
    AudioChunk { samples: vec![1; samples], sample_rate: 16_000, channels: 1 }
}

fn output() -> AsrOutput {
    AsrOutput { text: "hello".to_string(), provider: "volcengine".to_string(), task_id: None, duration_ms: Some(10) }
}

#[test]
fn a_session_that_connects_returns_the_transcript_with_its_diagnostics() {
    let session = LiveSession::start();
    let session = session.buffer_chunk(chunk(100)).ok().unwrap();
    let (session, retry) = session
        .attempt_failed(ConnectFailure::retryable("timeout", "timed out".to_string()))
        .ok()
        .unwrap();
    assert_eq!(retry, ConnectRetry::RetryAfter(250));
    let mut session = session.buffer_chunk(chunk(50)).ok().unwrap();
    session.begin_attempt();
    let (streaming, held) = session.connected(420);
    assert_eq!(held.len(), 2);
    let result = streaming.finish(Ok(output()));
    assert_eq!(result.output, Ok(output()));
    assert_eq!(result.diagnostics.connection_attempts, 2);
    assert_eq!(result.diagnostics.first_connected_after_ms, Some(420));
    assert_eq!(result.diagnostics.peak_buffered_bytes, 300);
    assert_eq!(result.diagnostics.last_error_category.as_deref(), Some("timeout"));
    assert_eq!(result.diagnostics.fallback_reason, None);
}

#[test]
fn a_broken_stream_is_reported_as_interrupted() {
    let (streaming, held) = LiveSession::start().connected(5);
    assert!(held.is_empty());
    let result = streaming.finish(Err("socket closed".to_string()));
    assert_eq!(result.output, Err("socket closed".to_string()));
    assert_eq!(result.diagnostics.fallback_reason.as_deref(), Some("stream_interrupted"));
    assert_eq!(result.diagnostics.last_error_category.as_deref(), Some("stream_interrupted"));
    assert_eq!(result.diagnostics.connection_attempts, 1);
}

#[test]
fn after_the_recording_ends_one_more_attempt_is_made() {
    let mut session = LiveSession::start();
    session.finish_recording();
    let (mut session, retry) = session
        .attempt_failed(ConnectFailure::retryable("network", "down".to_string()))
        .ok()
        .unwrap();
    assert_eq!(retry, ConnectRetry::RetryNow);
    session.begin_attempt();
    let result = session
        .attempt_failed(ConnectFailure::retryable("network", "still down".to_string()))
        .err()
        .unwrap();
    assert_eq!(result.output, Err("still down".to_string()));
    assert_eq!(result.diagnostics.fallback_reason.as_deref(), Some("connection_attempts_exhausted"));
    assert_eq!(result.diagnostics.connection_attempts, 2);
    assert_eq!(result.diagnostics.first_connected_after_ms, None);
}

#[test]
fn a_permanent_failure_ends_the_session() {
    let result = LiveSession::start()
        .attempt_failed(ConnectFailure::permanent("invalid_url", "no host".to_string()))
        .err()
        .unwrap();
    assert_eq!(result.diagnostics.fallback_reason.as_deref(), Some("non_retryable_connection_error"));
    assert_eq!(result.diagnostics.last_error_category.as_deref(), Some("invalid_url"));
}

#[test]
fn audio_beyond_the_buffer_limit_ends_the_session() {
    let session = LiveSession::start().buffer_chunk(chunk(60 * 1024 * 1024)).ok().unwrap();
    let result = session.buffer_chunk(chunk(5 * 1024 * 1024)).err().unwrap();
    assert_eq!(result.output, Err("Live ASR audio buffer exceeded 128 MiB".to_string()));
    assert_eq!(result.diagnostics.fallback_reason.as_deref(), Some("buffer_limit_exceeded"));
    assert_eq!(result.diagnostics.peak_buffered_bytes, 120 * 1024 * 1024);
}

#[test]
fn history_lines_are_read_for_their_id_and_recording() {
    let line = parse_history_line(r#"{"id":"r1","audio_path":"/data/recordings/a.wav","raw_text":"hi"}"#);
    assert!(line.value.is_some());
    assert_eq!(line.id.as_deref(), Some("r1"));
    assert_eq!(line.audio_path.as_deref(), Some("/data/recordings/a.wav"));

    let empty_audio = parse_history_line(r#"{"id":7,"audio_path":""}"#);
    assert!(empty_audio.value.is_some());
    assert_eq!(empty_audio.id, None);
    assert_eq!(empty_audio.audio_path, None);

    let broken = parse_history_line("{\"id\":\"r1\"");
    assert!(broken.value.is_none());
    assert_eq!(broken.id, None);
}
