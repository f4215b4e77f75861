//! The Volcengine streaming recognition protocol: request framing, response
//! frames, audio framing and buffering, and the connection retry policy.

use vstd::prelude::*;
use crate::config::AsrConfig;
use crate::recorder::AudioChunk;
use crate::asr_response::AsrResponseState;
use crate::json::{jstr, jstring, jview, one_member, push_member, object_of, JsonNumber, JsonValue, JsonView, NumberView, mviews};
use crate::text::{
    append_chars, chars_of, chars_eq_str, hex, is_blank, owned, string_from, trim, trim_str,
};

verus! {

broadcast use vstd::string::group_string_axioms;

/// Sample rate the service expects.
pub const TARGET_SAMPLE_RATE: u32 = 16000;
/// Bytes of one 200 ms frame of 16 kHz mono PCM.
pub const STREAM_CHUNK_BYTES: usize = 6400;
/// Samples of one 200 ms frame at 16 kHz.
pub const STREAM_FRAME_SAMPLES: usize = 3200;
/// Most audio kept while no connection is up: 128 MiB.
pub const LIVE_AUDIO_BUFFER_LIMIT: usize = 134217728;

// ---------------------------------------------------------------------------
// Retry policy
// ---------------------------------------------------------------------------

/// Wait before the next connection attempt, in milliseconds: 250, 750,
/// 1500, 3000, then 5000 for every later attempt.
pub open spec fn retry_delay_ms(completed_attempts: nat) -> u64 {
    if completed_attempts <= 1 { 250 } else if completed_attempts == 2 { 750 }
    else if completed_attempts == 3 { 1500 } else if completed_attempts == 4 { 3000 } else { 5000 }
}

/// The back-off after `completed_attempts` failed attempts, in milliseconds.
pub fn live_retry_delay(completed_attempts: usize) -> (r: u64)
    ensures
        r == retry_delay_ms(completed_attempts as nat),
{
    let index = completed_attempts.saturating_sub(1);
    let index = if index > 4 { 4 } else { index };
    if index == 0 { 250 } else if index == 1 { 750 } else if index == 2 { 1500 } else if index == 3 { 3000 } else { 5000 }
}

/// Whether a handshake that ended in this HTTP status is worth retrying:
/// server errors, request timeouts and rate limiting.
pub open spec fn http_status_retryable(status: u16) -> bool {
    (500 <= status && status <= 599) || status == 408 || status == 429
}

/// Category and retry decision for a handshake answered with an HTTP status.
pub fn classify_http_status(status: u16) -> (r: (&'static str, bool))
    ensures
        r.1 == http_status_retryable(status),
        r.0@ == (if http_status_retryable(status) { "http_temporary"@ } else { "http_client"@ }),
{
    let retryable = (500 <= status && status <= 599) || status == 408 || status == 429;
    if retryable {
        ("http_temporary", true)
    } else {
        ("http_client", false)
    }
}

/// A recognised transcript.
#[derive(Debug, Clone, PartialEq, Eq)]
pub struct AsrOutput {
    pub text: String,
    pub provider: String,
    pub task_id: Option<String>,
    pub duration_ms: Option<u64>,
}

/// The outcome of a live session, with its diagnostics.
#[derive(Debug)]
pub struct LiveAsrResult {
    pub output: Result<AsrOutput, String>,
    pub diagnostics: LiveAsrDiagnostics,
}

/// Diagnostics of one live recognition session.
#[derive(Debug, Clone, PartialEq, Eq)]
pub struct LiveAsrDiagnostics {
    pub connection_attempts: u32,
    pub first_connected_after_ms: Option<u64>,
    pub peak_buffered_bytes: u64,
    pub last_error_category: Option<String>,
    pub fallback_reason: Option<String>,
}

impl Default for LiveAsrDiagnostics {
    fn default() -> (r: Self)
        ensures
            r.connection_attempts == 0,
            r.first_connected_after_ms is None,
            r.peak_buffered_bytes == 0,
            r.last_error_category is None,
            r.fallback_reason is None,
    {
        LiveAsrDiagnostics {
            connection_attempts: 0,
            first_connected_after_ms: None,
            peak_buffered_bytes: 0,
            last_error_category: None,
            fallback_reason: None,
        }
    }
}

/// What to do after a connection attempt failed.
#[derive(Debug, Clone, Copy, PartialEq, Eq, Structural)]
pub enum ConnectRetry {
    /// Give up; the reason goes into the diagnostics.
    GiveUp,
    /// Try once more at once (the recording has ended).
    RetryNow,
    /// Keep buffering audio for this many milliseconds, then try again.
    RetryAfter(u64),
}

/// The connection loop of a live session: how many attempts were made,
/// whether the recording has ended, and whether the one attempt allowed
/// after the end has been used.
#[derive(Debug, Clone, Copy, PartialEq, Eq, Structural)]
pub struct LiveConnection {
    pub attempts: u32,
    pub recording_finished: bool,
    pub final_attempt_used: bool,
}

impl Default for LiveConnection {
    fn default() -> (r: Self)
        ensures
            r == (LiveConnection { attempts: 0, recording_finished: false, final_attempt_used: false }),
    {
        LiveConnection { attempts: 0, recording_finished: false, final_attempt_used: false }
    }
}

/// The state after an attempt begins.
pub open spec fn after_begin(c: LiveConnection) -> LiveConnection {
    LiveConnection {
        attempts: if c.attempts == u32::MAX { u32::MAX } else { (c.attempts + 1) as u32 },
        recording_finished: c.recording_finished,
        final_attempt_used: c.final_attempt_used || c.recording_finished,
    }
}

/// What follows a failed attempt, and the reason recorded when giving up.
pub open spec fn failure_action(c: LiveConnection, retryable: bool) -> (ConnectRetry, Option<Seq<char>>) {
    if !retryable {
        (ConnectRetry::GiveUp, Some("non_retryable_connection_error"@))
    } else if c.recording_finished && c.final_attempt_used {
        (ConnectRetry::GiveUp, Some("connection_attempts_exhausted"@))
    } else if c.recording_finished {
        (ConnectRetry::RetryNow, None)
    } else {
        (ConnectRetry::RetryAfter(retry_delay_ms(c.attempts as nat)), None)
    }
}

/// The state after a failed attempt.
pub open spec fn after_failure_state(c: LiveConnection, retryable: bool) -> LiveConnection {
    if retryable && c.recording_finished && !c.final_attempt_used {
        LiveConnection { final_attempt_used: true, ..c }
    } else {
        c
    }
}

impl LiveConnection {
    /// A new attempt starts; one started after the recording ended is the
    /// final one.
    pub fn begin_attempt(&mut self)
        ensures
            *final(self) == after_begin(*old(self)),
    {
        if self.recording_finished {
            self.final_attempt_used = true;
        }
        self.attempts = self.attempts.saturating_add(1);
    }

    /// The recording ended (the audio channel closed).
    pub fn finish_recording(&mut self)
        ensures
            *final(self) == (LiveConnection { recording_finished: true, ..*old(self) }),
    {
        self.recording_finished = true;
    }

    /// After a failed attempt: a permanent failure ends the session; once
    /// the recording has ended one more immediate attempt is made, then the
    /// session gives up; while recording, the next attempt waits for the
    /// back-off delay.
    pub fn after_failure(&mut self, retryable: bool) -> (r: (ConnectRetry, Option<&'static str>))
        ensures
            r.0 == failure_action(*old(self), retryable).0,
            (match r.1 { Some(s) => Some(s@), None => None::<Seq<char>> }) == failure_action(*old(self), retryable).1,
            *final(self) == after_failure_state(*old(self), retryable),
    {
        if !retryable {
            return (ConnectRetry::GiveUp, Some("non_retryable_connection_error"));
        }
        if self.recording_finished {
            if self.final_attempt_used {
                return (ConnectRetry::GiveUp, Some("connection_attempts_exhausted"));
            }
            self.final_attempt_used = true;
            return (ConnectRetry::RetryNow, None);
        }
        (ConnectRetry::RetryAfter(live_retry_delay(self.attempts as usize)), None)
    }
}

/// An attempt begun after the recording ended is the last one: if it fails,
/// the session gives up.
pub proof fn law_attempt_after_recording_is_final(c: LiveConnection, retryable: bool)
    requires
        c.recording_finished,
    ensures
        failure_action(after_begin(c), retryable).0 == ConnectRetry::GiveUp,
{
}

/// While the recording goes on, a retryable failure never ends the session:
/// the next attempt follows the back-off delay, which never exceeds 5 s.
pub proof fn law_retry_while_recording(c: LiveConnection)
    requires
        !c.recording_finished,
    ensures
        failure_action(c, true).0 == ConnectRetry::RetryAfter(retry_delay_ms(c.attempts as nat)),
        retry_delay_ms(c.attempts as nat) <= 5000,
        after_failure_state(c, true) == c,
{
}

/// A failed connection attempt: its category, whether another attempt may
/// help, and the error.
#[derive(Debug, Clone, PartialEq, Eq)]
pub struct ConnectFailure {
    pub category: String,
    pub retryable: bool,
    pub error: String,
}

impl ConnectFailure {
    /// A failure that another attempt may overcome.
    pub fn retryable(category: &str, error: String) -> (r: Self)
        ensures
            r.category@ == category@,
            r.retryable,
            r.error == error,
    {
        ConnectFailure { category: owned(category), retryable: true, error }
    }

    /// A failure that no attempt overcomes.
    pub fn permanent(category: &str, error: String) -> (r: Self)
        ensures
            r.category@ == category@,
            !r.retryable,
            r.error == error,
    {
        ConnectFailure { category: owned(category), retryable: false, error }
    }
}

/// A finished live session is consistent when it returns a transcript
/// exactly when no fallback reason is recorded.
pub open spec fn result_consistent(r: LiveAsrResult) -> bool {
    r.output is Ok <==> r.diagnostics.fallback_reason is None
}

pub open spec fn opt_text(o: Option<String>) -> Option<Seq<char>> {
    match o {
        Some(s) => Some(s@),
        None => None,
    }
}

/// The diagnostics with the time of the first connection noted (ms after
/// the session started); a later connection keeps the first time.
pub fn note_connected(diagnostics: &mut LiveAsrDiagnostics, elapsed_ms: u64)
    ensures
        final(diagnostics).first_connected_after_ms == (match old(diagnostics).first_connected_after_ms {
            Some(t) => Some(t),
            None => Some(elapsed_ms),
        }),
        final(diagnostics).connection_attempts == old(diagnostics).connection_attempts,
        final(diagnostics).peak_buffered_bytes == old(diagnostics).peak_buffered_bytes,
        final(diagnostics).last_error_category == old(diagnostics).last_error_category,
        final(diagnostics).fallback_reason == old(diagnostics).fallback_reason,
{
    if diagnostics.first_connected_after_ms.is_none() {
        diagnostics.first_connected_after_ms = Some(elapsed_ms);
    }
}

/// The session's result once the stream over a connection ended: a stream
/// that failed is recorded as interrupted, which is the fallback reason.
pub fn stream_result(diagnostics: LiveAsrDiagnostics, output: Result<AsrOutput, String>) -> (r: LiveAsrResult)
    ensures
        r.output == output,
        output is Err ==> opt_text(r.diagnostics.last_error_category) == Some("stream_interrupted"@)
            && opt_text(r.diagnostics.fallback_reason) == Some("stream_interrupted"@),
        output is Ok ==> r.diagnostics == diagnostics,
        r.diagnostics.connection_attempts == diagnostics.connection_attempts,
        r.diagnostics.first_connected_after_ms == diagnostics.first_connected_after_ms,
        r.diagnostics.peak_buffered_bytes == diagnostics.peak_buffered_bytes,
        diagnostics.fallback_reason is None ==> result_consistent(r),
{
    let mut diagnostics = diagnostics;
    if output.is_err() {
        diagnostics.last_error_category = Some(owned("stream_interrupted"));
        diagnostics.fallback_reason = Some(owned("stream_interrupted"));
    }
    LiveAsrResult { output, diagnostics }
}

/// The session's result when the buffered audio outgrew its limit.
pub fn buffer_overflow_result(diagnostics: LiveAsrDiagnostics, error: String) -> (r: LiveAsrResult)
    ensures
        r.output == Err::<AsrOutput, String>(error),
        opt_text(r.diagnostics.fallback_reason) == Some("buffer_limit_exceeded"@),
        r.diagnostics.connection_attempts == diagnostics.connection_attempts,
        r.diagnostics.first_connected_after_ms == diagnostics.first_connected_after_ms,
        r.diagnostics.peak_buffered_bytes == diagnostics.peak_buffered_bytes,
        r.diagnostics.last_error_category == diagnostics.last_error_category,
        result_consistent(r),
{
    let mut diagnostics = diagnostics;
    diagnostics.fallback_reason = Some(owned("buffer_limit_exceeded"));
    LiveAsrResult { output: Err(error), diagnostics }
}

/// After a failed connection attempt: the failure's category is recorded;
/// when the session gives up, its result carries the failure and the
/// reason (`Err`); otherwise the loop goes on as `after_failure` says.
pub fn connection_failed(
    diagnostics: LiveAsrDiagnostics,
    connection: &mut LiveConnection,
    failure: ConnectFailure,
) -> (r: Result<(LiveAsrDiagnostics, ConnectRetry), LiveAsrResult>)
    ensures
        *final(connection) == after_failure_state(*old(connection), failure.retryable),
        match r {
            Ok((d, retry)) => {
                &&& retry == failure_action(*old(connection), failure.retryable).0
                &&& retry != ConnectRetry::GiveUp
                &&& opt_text(d.last_error_category) == Some(failure.category@)
                &&& d.fallback_reason == diagnostics.fallback_reason
                &&& d.connection_attempts == diagnostics.connection_attempts
                &&& d.first_connected_after_ms == diagnostics.first_connected_after_ms
                &&& d.peak_buffered_bytes == diagnostics.peak_buffered_bytes
            },
            Err(res) => {
                &&& failure_action(*old(connection), failure.retryable).0 == ConnectRetry::GiveUp
                &&& res.output == Err::<AsrOutput, String>(failure.error)
                &&& opt_text(res.diagnostics.fallback_reason) == failure_action(*old(connection), failure.retryable).1
                &&& opt_text(res.diagnostics.last_error_category) == Some(failure.category@)
                &&& res.diagnostics.connection_attempts == diagnostics.connection_attempts
                &&& res.diagnostics.first_connected_after_ms == diagnostics.first_connected_after_ms
                &&& res.diagnostics.peak_buffered_bytes == diagnostics.peak_buffered_bytes
                &&& result_consistent(res)
            },
        },
{
    let mut diagnostics = diagnostics;
    diagnostics.last_error_category = Some(crate::text::copy_string(&failure.category));
    let (retry, reason) = connection.after_failure(failure.retryable);
    match retry {
        ConnectRetry::GiveUp => {
            let text = match reason {
                Some(t) => owned(t),
                None => owned("connection_attempts_exhausted"),
            };
            diagnostics.fallback_reason = Some(text);
            Err(LiveAsrResult { output: Err(failure.error), diagnostics })
        },
        _ => Ok((diagnostics, retry)),
    }
}

// ---------------------------------------------------------------------------
// Buffering while no connection is up
// ---------------------------------------------------------------------------

/// Bytes of 16-bit audio in a chunk (saturating).
pub open spec fn chunk_bytes(n: nat) -> nat {
    if n * 2 > usize::MAX { usize::MAX as nat } else { n * 2 }
}

/// Bytes of 16-bit audio held by `chunk`.
pub fn audio_chunk_bytes(chunk: &AudioChunk) -> (r: usize)
    ensures
        r == chunk_bytes(chunk.samples@.len()),
{
    let n = chunk.samples.len();
    if n > usize::MAX / 2 {
        usize::MAX
    } else {
        n * 2
    }
}

pub open spec fn buffer_limit_message() -> Seq<char> {
    "Live ASR audio buffer exceeded 128 MiB"@
}

/// Appends `chunk` to the audio kept while connecting, unless that would
/// hold more than `limit` bytes; the peak is kept in the diagnostics.
pub fn buffer_live_audio_chunk_with_limit(
    chunk: AudioChunk,
    buffered: &mut Vec<AudioChunk>,
    buffered_bytes: &mut usize,
    diagnostics: &mut LiveAsrDiagnostics,
    limit: usize,
) -> (r: Result<(), String>)
    ensures
        ({
            let next = if *old(buffered_bytes) + chunk_bytes(chunk.samples@.len()) > usize::MAX { usize::MAX as int } else { *old(buffered_bytes) + chunk_bytes(chunk.samples@.len()) };
            if next > limit {
                &&& r matches Err(e) && e@ == buffer_limit_message()
                &&& final(buffered)@ == old(buffered)@
                &&& *final(buffered_bytes) == *old(buffered_bytes)
                &&& *final(diagnostics) == *old(diagnostics)
            } else {
                &&& r is Ok
                &&& final(buffered)@ == old(buffered)@.push(chunk)
                &&& *final(buffered_bytes) == next
                &&& final(diagnostics).peak_buffered_bytes == (if old(diagnostics).peak_buffered_bytes >= next { old(diagnostics).peak_buffered_bytes as int } else { next })
                &&& final(diagnostics).connection_attempts == old(diagnostics).connection_attempts
                &&& final(diagnostics).first_connected_after_ms == old(diagnostics).first_connected_after_ms
                &&& final(diagnostics).last_error_category == old(diagnostics).last_error_category
                &&& final(diagnostics).fallback_reason == old(diagnostics).fallback_reason
            }
        }),
{
    let next_bytes = buffered_bytes.saturating_add(audio_chunk_bytes(&chunk));
    if next_bytes > limit {
        return Err(owned("Live ASR audio buffer exceeded 128 MiB"));
    }
    *buffered_bytes = next_bytes;
    let next64 = next_bytes as u64;
    if diagnostics.peak_buffered_bytes < next64 {
        diagnostics.peak_buffered_bytes = next64;
    }
    buffered.push(chunk);
    Ok(())
}

/// [`buffer_live_audio_chunk_with_limit`] with the 128 MiB limit.
pub fn buffer_live_audio_chunk(
    chunk: AudioChunk,
    buffered: &mut Vec<AudioChunk>,
    buffered_bytes: &mut usize,
    diagnostics: &mut LiveAsrDiagnostics,
) -> (r: Result<(), String>)
    ensures
        ({
            let next = if *old(buffered_bytes) + chunk_bytes(chunk.samples@.len()) > usize::MAX { usize::MAX as int } else { *old(buffered_bytes) + chunk_bytes(chunk.samples@.len()) };
            if next > LIVE_AUDIO_BUFFER_LIMIT {
                &&& r matches Err(e) && e@ == buffer_limit_message()
                &&& final(buffered)@ == old(buffered)@
                &&& *final(buffered_bytes) == *old(buffered_bytes)
            } else {
                &&& r is Ok
                &&& final(buffered)@ == old(buffered)@.push(chunk)
                &&& *final(buffered_bytes) == next
            }
        }),
{
    buffer_live_audio_chunk_with_limit(chunk, buffered, buffered_bytes, diagnostics, LIVE_AUDIO_BUFFER_LIMIT)
}

// ---------------------------------------------------------------------------
// A live session from its first attempt to its result
// ---------------------------------------------------------------------------

/// What every finished live session promises of its result: a transcript
/// exactly when no fallback reason is recorded, a first-connection time
/// whenever there is a transcript, at least one connection attempt, and a
/// peak of buffered audio within the 128 MiB limit.
pub open spec fn session_result(r: LiveAsrResult) -> bool {
    &&& result_consistent(r)
    &&& r.output is Ok ==> r.diagnostics.first_connected_after_ms is Some
    &&& r.diagnostics.connection_attempts >= 1
    &&& r.diagnostics.peak_buffered_bytes <= LIVE_AUDIO_BUFFER_LIMIT
}

/// The buffered byte count after `chunk` would be added (saturating).
pub open spec fn bytes_after(buffered_bytes: usize, chunk: AudioChunk) -> int {
    if buffered_bytes + chunk_bytes(chunk.samples@.len()) > usize::MAX {
        usize::MAX as int
    } else {
        buffered_bytes + chunk_bytes(chunk.samples@.len())
    }
}

/// A live session while it is connecting: the connection loop, the
/// diagnostics so far, and the audio held until a connection is up.  The
/// caller performs the attempts, waits and reads; the session decides.
pub struct LiveSession {
    connection: LiveConnection,
    diagnostics: LiveAsrDiagnostics,
    buffered: Vec<AudioChunk>,
    buffered_bytes: usize,
}

/// A live session whose connection is up: its diagnostics.
pub struct LiveStreaming {
    diagnostics: LiveAsrDiagnostics,
}

impl LiveSession {
    pub closed spec fn connection_of(self) -> LiveConnection {
        self.connection
    }

    pub closed spec fn diagnostics_of(self) -> LiveAsrDiagnostics {
        self.diagnostics
    }

    pub closed spec fn buffered_of(self) -> Seq<AudioChunk> {
        self.buffered@
    }

    pub closed spec fn buffered_bytes_of(self) -> usize {
        self.buffered_bytes
    }

    /// While connecting: the diagnostics count the loop's attempts, at
    /// least one has begun, nothing has connected or ended the session,
    /// and the audio held stays within the limit.
    pub closed spec fn wf(self) -> bool {
        &&& self.diagnostics.connection_attempts == self.connection.attempts
        &&& self.connection.attempts >= 1
        &&& self.diagnostics.first_connected_after_ms is None
        &&& self.diagnostics.fallback_reason is None
        &&& self.buffered_bytes <= self.diagnostics.peak_buffered_bytes
        &&& self.diagnostics.peak_buffered_bytes <= LIVE_AUDIO_BUFFER_LIMIT
    }

    /// A session whose first connection attempt begins now.
    pub fn start() -> (s: Self)
        ensures
            s.wf(),
            s.connection_of() == (LiveConnection { attempts: 1, recording_finished: false, final_attempt_used: false }),
            s.diagnostics_of().connection_attempts == 1,
            s.diagnostics_of().peak_buffered_bytes == 0,
            s.diagnostics_of().last_error_category is None,
            s.buffered_of().len() == 0,
            s.buffered_bytes_of() == 0,
    {
        let mut connection = LiveConnection { attempts: 0, recording_finished: false, final_attempt_used: false };
        connection.begin_attempt();
        let mut diagnostics = LiveAsrDiagnostics::default();
        diagnostics.connection_attempts = 1;
        LiveSession { connection, diagnostics, buffered: Vec::new(), buffered_bytes: 0 }
    }

    /// Another attempt begins (after a back-off delay, or at once once the
    /// recording has ended).
    pub fn begin_attempt(&mut self)
        requires
            old(self).wf(),
        ensures
            final(self).wf(),
            final(self).connection_of() == after_begin(old(self).connection_of()),
            final(self).diagnostics_of().connection_attempts == after_begin(old(self).connection_of()).attempts,
            final(self).diagnostics_of().peak_buffered_bytes == old(self).diagnostics_of().peak_buffered_bytes,
            final(self).diagnostics_of().last_error_category == old(self).diagnostics_of().last_error_category,
            final(self).buffered_of() == old(self).buffered_of(),
            final(self).buffered_bytes_of() == old(self).buffered_bytes_of(),
    {
        self.connection.begin_attempt();
        self.diagnostics.connection_attempts = self.diagnostics.connection_attempts.saturating_add(1);
    }

    /// The recording ended (the audio channel closed).
    pub fn finish_recording(&mut self)
        requires
            old(self).wf(),
        ensures
            final(self).wf(),
            final(self).connection_of() == (LiveConnection { recording_finished: true, ..old(self).connection_of() }),
            final(self).diagnostics_of() == old(self).diagnostics_of(),
            final(self).buffered_of() == old(self).buffered_of(),
            final(self).buffered_bytes_of() == old(self).buffered_bytes_of(),
    {
        self.connection.finish_recording();
    }

    /// A chunk of audio arrived while connecting: it is held, unless the
    /// held audio would outgrow 128 MiB, which ends the session.
    pub fn buffer_chunk(self, chunk: AudioChunk) -> (r: Result<LiveSession, LiveAsrResult>)
        requires
            self.wf(),
        ensures
            bytes_after(self.buffered_bytes_of(), chunk) > LIVE_AUDIO_BUFFER_LIMIT <==> r is Err,
            r matches Ok(s) ==> {
                &&& s.wf()
                &&& s.buffered_of() == self.buffered_of().push(chunk)
                &&& s.buffered_bytes_of() == bytes_after(self.buffered_bytes_of(), chunk)
                &&& s.connection_of() == self.connection_of()
                &&& s.diagnostics_of().connection_attempts == self.diagnostics_of().connection_attempts
                &&& s.diagnostics_of().last_error_category == self.diagnostics_of().last_error_category
                &&& s.diagnostics_of().peak_buffered_bytes == (if self.diagnostics_of().peak_buffered_bytes >= bytes_after(self.buffered_bytes_of(), chunk) { self.diagnostics_of().peak_buffered_bytes as int } else { bytes_after(self.buffered_bytes_of(), chunk) })
            },
            r matches Err(res) ==> {
                &&& session_result(res)
                &&& res.output matches Err(e) && e@ == buffer_limit_message()
                &&& opt_text(res.diagnostics.fallback_reason) == Some("buffer_limit_exceeded"@)
                &&& res.diagnostics.connection_attempts == self.diagnostics_of().connection_attempts
                &&& res.diagnostics.peak_buffered_bytes == self.diagnostics_of().peak_buffered_bytes
                &&& res.diagnostics.last_error_category == self.diagnostics_of().last_error_category
            },
    {
        let LiveSession { connection, mut diagnostics, mut buffered, mut buffered_bytes } = self;
        match buffer_live_audio_chunk_with_limit(chunk, &mut buffered, &mut buffered_bytes, &mut diagnostics, LIVE_AUDIO_BUFFER_LIMIT) {
            Ok(()) => Ok(LiveSession { connection, diagnostics, buffered, buffered_bytes }),
            Err(error) => Err(buffer_overflow_result(diagnostics, error)),
        }
    }

    /// A connection attempt failed: the session either goes on (`Ok`, with
    /// what to do next) or ends with the failure (`Err`), as
    /// [`connection_failed`] decides.
    pub fn attempt_failed(self, failure: ConnectFailure) -> (r: Result<(LiveSession, ConnectRetry), LiveAsrResult>)
        requires
            self.wf(),
        ensures
            (failure_action(self.connection_of(), failure.retryable).0 == ConnectRetry::GiveUp) <==> r is Err,
            r matches Ok((s, retry)) ==> {
                &&& s.wf()
                &&& retry == failure_action(self.connection_of(), failure.retryable).0
                &&& s.connection_of() == after_failure_state(self.connection_of(), failure.retryable)
                &&& opt_text(s.diagnostics_of().last_error_category) == Some(failure.category@)
                &&& s.diagnostics_of().peak_buffered_bytes == self.diagnostics_of().peak_buffered_bytes
                &&& s.buffered_of() == self.buffered_of()
                &&& s.buffered_bytes_of() == self.buffered_bytes_of()
            },
            r matches Err(res) ==> {
                &&& session_result(res)
                &&& res.output == Err::<AsrOutput, String>(failure.error)
                &&& opt_text(res.diagnostics.fallback_reason) == failure_action(self.connection_of(), failure.retryable).1
                &&& opt_text(res.diagnostics.last_error_category) == Some(failure.category@)
                &&& res.diagnostics.connection_attempts == self.diagnostics_of().connection_attempts
                &&& res.diagnostics.peak_buffered_bytes == self.diagnostics_of().peak_buffered_bytes
            },
    {
        let LiveSession { mut connection, diagnostics, buffered, buffered_bytes } = self;
        proof {
            if failure.retryable && connection.recording_finished && connection.final_attempt_used {
                assert(failure_action(connection, true).1 == Some("connection_attempts_exhausted"@));
            }
        }
        match connection_failed(diagnostics, &mut connection, failure) {
            Ok((diagnostics, retry)) => Ok((LiveSession { connection, diagnostics, buffered, buffered_bytes }, retry)),
            Err(res) => Err(res),
        }
    }

    /// The connection is up `elapsed_ms` after the session started: the
    /// time is noted and the held audio is handed over for streaming.
    pub fn connected(self, elapsed_ms: u64) -> (r: (LiveStreaming, Vec<AudioChunk>))
        requires
            self.wf(),
        ensures
            r.0.wf(),
            r.1@ == self.buffered_of(),
            r.0.diagnostics_of().first_connected_after_ms == Some(elapsed_ms),
            r.0.diagnostics_of().connection_attempts == self.diagnostics_of().connection_attempts,
            r.0.diagnostics_of().peak_buffered_bytes == self.diagnostics_of().peak_buffered_bytes,
            r.0.diagnostics_of().last_error_category == self.diagnostics_of().last_error_category,
    {
        let LiveSession { connection, mut diagnostics, buffered, buffered_bytes } = self;
        note_connected(&mut diagnostics, elapsed_ms);
        (LiveStreaming { diagnostics }, buffered)
    }
}

impl LiveStreaming {
    pub closed spec fn diagnostics_of(self) -> LiveAsrDiagnostics {
        self.diagnostics
    }

    /// Connected: at least one attempt was made, the first connection time
    /// is known, nothing has ended the session, and the peak of held audio
    /// stayed within the limit.
    pub closed spec fn wf(self) -> bool {
        &&& self.diagnostics.connection_attempts >= 1
        &&& self.diagnostics.first_connected_after_ms is Some
        &&& self.diagnostics.fallback_reason is None
        &&& self.diagnostics.peak_buffered_bytes <= LIVE_AUDIO_BUFFER_LIMIT
    }

    /// The stream ended with `output`: the session's result.
    pub fn finish(self, output: Result<AsrOutput, String>) -> (r: LiveAsrResult)
        requires
            self.wf(),
        ensures
            session_result(r),
            r.output == output,
            output is Err ==> opt_text(r.diagnostics.fallback_reason) == Some("stream_interrupted"@)
                && opt_text(r.diagnostics.last_error_category) == Some("stream_interrupted"@),
            output is Ok ==> r.diagnostics == self.diagnostics_of(),
            r.diagnostics.connection_attempts == self.diagnostics_of().connection_attempts,
            r.diagnostics.first_connected_after_ms == self.diagnostics_of().first_connected_after_ms,
            r.diagnostics.peak_buffered_bytes == self.diagnostics_of().peak_buffered_bytes,
    {
        stream_result(self.diagnostics, output)
    }
}

// ---------------------------------------------------------------------------
// PCM and WAV bytes
// ---------------------------------------------------------------------------

/// Little-endian bytes of a 16-bit value.
pub open spec fn le16(x: u16) -> Seq<u8> {
    seq![(x & 0xff) as u8, (x >> 8) as u8]
}

/// Little-endian bytes of a 32-bit value.
pub open spec fn le32(x: u32) -> Seq<u8> {
    seq![(x & 0xff) as u8, ((x >> 8) & 0xff) as u8, ((x >> 16) & 0xff) as u8, (x >> 24) as u8]
}

/// Big-endian bytes of a 32-bit value.
pub open spec fn be32(x: u32) -> Seq<u8> {
    seq![(x >> 24) as u8, ((x >> 16) & 0xff) as u8, ((x >> 8) & 0xff) as u8, (x & 0xff) as u8]
}

/// Samples as little-endian 16-bit PCM.
pub open spec fn pcm_spec(s: Seq<i16>) -> Seq<u8>
    decreases s.len(),
{
    if s.len() == 0 {
        seq![]
    } else {
        pcm_spec(s.drop_last()) + le16(s.last() as u16)
    }
}

fn push_le16(out: &mut Vec<u8>, x: u16)
    ensures
        final(out)@ == old(out)@ + le16(x),
{
    out.push((x & 0xff) as u8);
    out.push((x >> 8) as u8);
    assert(out@ =~= old(out)@ + le16(x));
}

fn push_le32(out: &mut Vec<u8>, x: u32)
    ensures
        final(out)@ == old(out)@ + le32(x),
{
    out.push((x & 0xff) as u8);
    out.push(((x >> 8) & 0xff) as u8);
    out.push(((x >> 16) & 0xff) as u8);
    out.push((x >> 24) as u8);
    assert(out@ =~= old(out)@ + le32(x));
}

fn push_be32(out: &mut Vec<u8>, x: u32)
    ensures
        final(out)@ == old(out)@ + be32(x),
{
    out.push((x >> 24) as u8);
    out.push(((x >> 16) & 0xff) as u8);
    out.push(((x >> 8) & 0xff) as u8);
    out.push((x & 0xff) as u8);
    assert(out@ =~= old(out)@ + be32(x));
}

fn push_pcm(out: &mut Vec<u8>, samples: &[i16], from: usize, to: usize)
    requires
        from <= to <= samples@.len(),
    ensures
        final(out)@ == old(out)@ + pcm_spec(samples@.subrange(from as int, to as int)),
{
    let mut i = from;
    assert(samples@.subrange(from as int, from as int) =~= Seq::<i16>::empty());
    while i < to
        invariant
            from <= i <= to,
            to <= samples@.len(),
            out@ == old(out)@ + pcm_spec(samples@.subrange(from as int, i as int)),
        decreases to - i,
    {
        let ghost before = out@;
        push_le16(out, samples[i] as u16);
        proof {
            let s = samples@.subrange(from as int, i + 1);
            assert(s.drop_last() =~= samples@.subrange(from as int, i as int));
            assert(s.last() == samples@[i as int]);
            assert(out@ =~= old(out)@ + pcm_spec(s));
        }
        i = i + 1;
    }
}

/// The samples as little-endian 16-bit PCM bytes.
pub fn pcm_bytes(samples: &[i16]) -> (r: Vec<u8>)
    ensures
        r@ == pcm_spec(samples@),
{
    let mut out: Vec<u8> = Vec::new();
    push_pcm(&mut out, samples, 0, samples.len());
    assert(samples@.subrange(0, samples@.len() as int) =~= samples@);
    assert(out@ =~= pcm_spec(samples@));
    out
}

proof fn lemma_pcm_len(s: Seq<i16>)
    ensures
        pcm_spec(s).len() == 2 * s.len(),
    decreases s.len(),
{
    if s.len() > 0 {
        lemma_pcm_len(s.drop_last());
    }
}

/// A 44-byte RIFF/WAVE header for 16-bit mono PCM followed by the samples.
pub open spec fn wav_spec(samples: Seq<i16>, sample_rate: u32) -> Seq<u8> {
    let data_len = (samples.len() * 2) as u32;
    seq![0x52u8, 0x49u8, 0x46u8, 0x46u8] + le32((36 + data_len) as u32)
        + seq![0x57u8, 0x41u8, 0x56u8, 0x45u8, 0x66u8, 0x6du8, 0x74u8, 0x20u8]
        + le32(16) + le16(1) + le16(1) + le32(sample_rate) + le32((sample_rate * 2) as u32)
        + le16(2) + le16(16) + seq![0x64u8, 0x61u8, 0x74u8, 0x61u8] + le32(data_len)
        + pcm_spec(samples)
}

fn push_bytes(out: &mut Vec<u8>, b: &[u8])
    ensures
        final(out)@ == old(out)@ + b@,
{
    let mut i: usize = 0;
    while i < b.len()
        invariant
            i <= b.len(),
            out@ == old(out)@ + b@.take(i as int),
        decreases b.len() - i,
    {
        out.push(b[i]);
        assert(b@.take(i + 1) =~= b@.take(i as int).push(b@[i as int]));
        i = i + 1;
    }
    assert(b@.take(b.len() as int) =~= b@);
}

/// A WAV file holding 16-bit mono samples at `sample_rate`.
pub fn wav_bytes_from_mono(samples: &[i16], sample_rate: u32) -> (r: Vec<u8>)
    requires
        samples@.len() * 2 <= usize::MAX,
        36 + ((samples@.len() * 2) as u32) <= u32::MAX,
        sample_rate * 2 <= u32::MAX,
    ensures
        r@ == wav_spec(samples@, sample_rate),
{
    let data_len = (samples.len() * 2) as u32;
    let mut out: Vec<u8> = Vec::new();
    let riff: [u8; 4] = [0x52, 0x49, 0x46, 0x46];
    push_bytes(&mut out, &riff);
    push_le32(&mut out, 36 + data_len);
    let wave: [u8; 8] = [0x57, 0x41, 0x56, 0x45, 0x66, 0x6d, 0x74, 0x20];
    push_bytes(&mut out, &wave);
    push_le32(&mut out, 16);
    push_le16(&mut out, 1);
    push_le16(&mut out, 1);
    push_le32(&mut out, sample_rate);
    push_le32(&mut out, sample_rate * 2);
    push_le16(&mut out, 2);
    push_le16(&mut out, 16);
    let data: [u8; 4] = [0x64, 0x61, 0x74, 0x61];
    push_bytes(&mut out, &data);
    push_le32(&mut out, data_len);
    push_pcm(&mut out, samples, 0, samples.len());
    assert(samples@.subrange(0, samples@.len() as int) =~= samples@);
    assert(riff@ =~= seq![0x52u8, 0x49u8, 0x46u8, 0x46u8]);
    assert(wave@ =~= seq![0x57u8, 0x41u8, 0x56u8, 0x45u8, 0x66u8, 0x6du8, 0x74u8, 0x20u8]);
    assert(data@ =~= seq![0x64u8, 0x61u8, 0x74u8, 0x61u8]);
    assert(out@ =~= wav_spec(samples@, sample_rate));
    out
}

/// Mono samples: each group of `channels` samples (the last group may be
/// shorter) replaced by its average, rounded toward zero.
pub open spec fn sum_i16(s: Seq<i16>) -> int
    decreases s.len(),
{
    if s.len() == 0 { 0 } else { sum_i16(s.drop_last()) + s.last() }
}

pub open spec fn trunc_div(a: int, b: int) -> int {
    if a >= 0 { a / b } else { -((-a) / b) }
}

pub open spec fn frame_average(s: Seq<i16>) -> int {
    trunc_div(sum_i16(s), s.len() as int)
}

pub open spec fn channel_count(channels: u16) -> int {
    if channels == 0 { 1 } else { channels as int }
}

pub open spec fn downmix_spec(s: Seq<i16>, channels: u16) -> Seq<i16> {
    let c = channel_count(channels);
    Seq::new(((s.len() + c - 1) / c) as nat, |k: int| {
        let end = if (k + 1) * c > s.len() { s.len() as int } else { (k + 1) * c };
        frame_average(s.subrange(k * c, end)) as i16
    })
}

proof fn lemma_sum_bounds(s: Seq<i16>)
    ensures
        -32768 * s.len() <= sum_i16(s) <= 32767 * s.len(),
    decreases s.len(),
{
    if s.len() > 0 {
        lemma_sum_bounds(s.drop_last());
    }
}

fn frame_sum(samples: &[i16], from: usize, to: usize) -> (r: i64)
    requires
        from <= to <= samples@.len(),
        to - from <= 65536,
    ensures
        r == sum_i16(samples@.subrange(from as int, to as int)),
{
    let mut sum: i64 = 0;
    let mut i = from;
    assert(samples@.subrange(from as int, from as int) =~= Seq::<i16>::empty());
    while i < to
        invariant
            from <= i <= to,
            to <= samples@.len(),
            to - from <= 65536,
            sum == sum_i16(samples@.subrange(from as int, i as int)),
        decreases to - i,
    {
        proof {
            let s = samples@.subrange(from as int, i + 1);
            assert(s.drop_last() =~= samples@.subrange(from as int, i as int));
            lemma_sum_bounds(samples@.subrange(from as int, i as int));
        }
        sum = sum + samples[i] as i64;
        i = i + 1;
    }
    sum
}

/// Averages interleaved samples down to one channel.
pub fn downmix_to_mono(samples: &[i16], channels: u16) -> (r: Vec<i16>)
    ensures
        r@ == downmix_spec(samples@, channels),
{
    let c: usize = if channels == 0 { 1 } else { channels as usize };
    let n = samples.len();
    let ghost d = downmix_spec(samples@, channels);
    let mut out: Vec<i16> = Vec::new();
    let mut start: usize = 0;
    let mut k: usize = 0;
    while start < n
        invariant
            c == channel_count(channels),
            1 <= c <= 65535,
            n == samples@.len(),
            d == downmix_spec(samples@, channels),
            start <= n,
            start < n ==> start == k * c,
            start == n ==> k * c >= n && (k == 0 || (k - 1) * c < n),
            out@.len() == k,
            forall|j: int| 0 <= j < k ==> #[trigger] out@[j] == d[j],
        decreases n - start,
    {
        let end = if n - start < c { n } else { start + c };
        let sum = frame_sum(samples, start, end);
        let len = (end - start) as i64;
        proof {
            lemma_sum_bounds(samples@.subrange(start as int, end as int));
        }
        let avg: i64 = if sum >= 0 { sum / len } else { -((-sum) / len) };
        proof {
            assert(-32768 <= avg <= 32767) by (nonlinear_arith)
                requires
                    len >= 1,
                    -32768 * len <= sum <= 32767 * len,
                    avg as int == (if sum >= 0 { sum as int / len as int } else { -((-sum) as int / len as int) }),
            ;
            assert((k + 1) * c == start + c) by (nonlinear_arith)
                requires start == k * c;
            assert(k < d.len()) by (nonlinear_arith)
                requires start == k * c, start < n, c >= 1, d.len() as int == (n + c - 1) as int / c as int;
            assert(d[k as int] == frame_average(samples@.subrange(start as int, end as int)) as i16);
        }
        out.push(avg as i16);
        proof {
            assert(k * c + c == (k + 1) * c) by (nonlinear_arith);
            assert(k <= start) by (nonlinear_arith)
                requires start == k * c, c >= 1;
        }
        start = end;
        k = k + 1;
    }
    proof {
        assert(d.len() == k) by (nonlinear_arith)
            requires
                c >= 1,
                d.len() as int == (n + c - 1) as int / c as int,
                k == 0 || (k - 1) * c < n,
                k * c >= n,
        ;
        assert(out@ =~= d);
    }
    out
}

// ---------------------------------------------------------------------------
// 200 ms framing of the live stream
// ---------------------------------------------------------------------------

pub open spec fn bviews(v: Seq<Vec<u8>>) -> Seq<Seq<u8>> {
    v.map_values(|x: Vec<u8>| x@)
}

/// The `j`-th 200 ms frame of `all`, as PCM bytes.
pub open spec fn frame_bytes(all: Seq<i16>, j: int) -> Seq<u8> {
    pcm_spec(all.subrange(3200 * j, 3200 * j + 3200))
}

/// Cuts 16 kHz mono samples into 200 ms frames; the rest waits for more.
#[derive(Debug, Clone, PartialEq, Eq)]
pub struct LiveAudioFramer {
    pub pending_samples: Vec<i16>,
}

impl Default for LiveAudioFramer {
    fn default() -> (r: Self)
        ensures
            r.pending_samples@.len() == 0,
    {
        LiveAudioFramer { pending_samples: Vec::new() }
    }
}

impl LiveAudioFramer {
    /// Adds samples and returns every complete frame, oldest first.
    pub fn push_samples(&mut self, samples: &[i16]) -> (frames: Vec<Vec<u8>>)
        ensures
            ({
                let all = old(self).pending_samples@ + samples@;
                let k = all.len() / 3200;
                &&& frames@.len() == k
                &&& forall|j: int| 0 <= j < k ==> (#[trigger] frames@[j])@ == frame_bytes(all, j)
                &&& final(self).pending_samples@ == all.skip(3200 * k as int)
            }),
    {
        let mut all: Vec<i16> = Vec::new();
        let mut i: usize = 0;
        while i < self.pending_samples.len()
            invariant
                i <= self.pending_samples.len(),
                all@ == self.pending_samples@.take(i as int),
            decreases self.pending_samples.len() - i,
        {
            all.push(self.pending_samples[i]);
            assert(self.pending_samples@.take(i + 1) =~= self.pending_samples@.take(i as int).push(self.pending_samples@[i as int]));
            i = i + 1;
        }
        assert(self.pending_samples@.take(self.pending_samples.len() as int) =~= self.pending_samples@);
        i = 0;
        let ghost base = all@;
        while i < samples.len()
            invariant
                i <= samples.len(),
                all@ == base + samples@.take(i as int),
            decreases samples.len() - i,
        {
            all.push(samples[i]);
            assert(samples@.take(i + 1) =~= samples@.take(i as int).push(samples@[i as int]));
            i = i + 1;
        }
        assert(samples@.take(samples.len() as int) =~= samples@);
        let ghost a = all@;
        assert(a == old(self).pending_samples@ + samples@);
        let mut frames: Vec<Vec<u8>> = Vec::new();
        let mut start: usize = 0;
        while all.len() - start >= 3200
            invariant
                all@ == a,
                start <= all@.len(),
                start == 3200 * frames@.len(),
                forall|j: int| 0 <= j < frames@.len() ==> (#[trigger] frames@[j])@ == frame_bytes(a, j),
            decreases all.len() - start,
        {
            let mut frame: Vec<u8> = Vec::new();
            push_pcm(&mut frame, all.as_slice(), start, start + 3200);
            assert(frame@ =~= frame_bytes(a, frames@.len() as int));
            frames.push(frame);
            start = start + 3200;
        }
        proof {
            assert(frames@.len() == a.len() / 3200) by (nonlinear_arith)
                requires start == 3200 * frames@.len(), start <= a.len(), a.len() - start < 3200;
        }
        let mut rest: Vec<i16> = Vec::new();
        let mut j = start;
        while j < all.len()
            invariant
                start <= j <= all@.len(),
                all@ == a,
                rest@ == a.subrange(start as int, j as int),
            decreases all.len() - j,
        {
            rest.push(all[j]);
            assert(a.subrange(start as int, j + 1) =~= a.subrange(start as int, j as int).push(a[j as int]));
            j = j + 1;
        }
        assert(rest@ =~= a.skip(start as int));
        self.pending_samples = rest;
        frames
    }

    /// The remaining samples as a last, shorter frame, if there are any.
    pub fn finish(&mut self) -> (r: Option<Vec<u8>>)
        ensures
            old(self).pending_samples@.len() == 0 ==> r is None,
            old(self).pending_samples@.len() > 0 ==> (r matches Some(f) && f@ == pcm_spec(old(self).pending_samples@)),
            final(self).pending_samples@.len() == 0,
    {
        if self.pending_samples.len() == 0 {
            return None;
        }
        let frame = pcm_bytes(self.pending_samples.as_slice());
        self.pending_samples = Vec::new();
        Some(frame)
    }
}

/// The frames sent when the recording ends: the frame held back (so that
/// the last one can carry the end mark) and the partial tail; only the very
/// last frame is marked final.
pub fn finish_live_audio_frames(delayed_frame: Option<Vec<u8>>, framer: &mut LiveAudioFramer) -> (r: Vec<(Vec<u8>, bool)>)
    ensures
        final(framer).pending_samples@.len() == 0,
        ({
            let tail = old(framer).pending_samples@;
            match delayed_frame {
                Some(d) => if tail.len() > 0 {
                    r@.len() == 2 && r@[0].0@ == d@ && !r@[0].1 && r@[1].0@ == pcm_spec(tail) && r@[1].1
                } else {
                    r@.len() == 1 && r@[0].0@ == d@ && r@[0].1
                },
                None => if tail.len() > 0 {
                    r@.len() == 1 && r@[0].0@ == pcm_spec(tail) && r@[0].1
                } else {
                    r@.len() == 0
                },
            }
        }),
{
    let partial = framer.finish();
    let mut out: Vec<(Vec<u8>, bool)> = Vec::new();
    match (delayed_frame, partial) {
        (Some(delayed), Some(last)) => {
            out.push((delayed, false));
            out.push((last, true));
        },
        (Some(last), None) => {
            out.push((last, true));
        },
        (None, Some(last)) => {
            out.push((last, true));
        },
        (None, None) => {},
    }
    out
}

// ---------------------------------------------------------------------------
// Binary protocol frames
// ---------------------------------------------------------------------------

/// A protocol message: 4 header bytes, the payload size (big-endian), the
/// payload.
pub open spec fn message_spec(header: Seq<u8>, payload: Seq<u8>) -> Seq<u8> {
    header + be32(payload.len() as u32) + payload
}

/// Frames `payload` under `header`.
pub fn binary_message(header: [u8; 4], payload: &[u8]) -> (r: Vec<u8>)
    ensures
        r@ == message_spec(header@, payload@),
{
    let mut out: Vec<u8> = Vec::new();
    push_bytes(&mut out, &header);
    push_be32(&mut out, payload.len() as u32);
    push_bytes(&mut out, payload);
    out
}

/// What gzip compression with flate2's default settings makes of `data`:
/// the compressed bytes, or `None` where the compressor reports an error.
pub uninterp spec fn gzip_of(data: Seq<u8>) -> Option<Seq<u8>>;

/// `flate2::write::GzEncoder` with the default level over a `Vec`: the
/// compressed bytes, which depend on the input alone (the header carries no
/// time stamp and writing to a `Vec` does no I/O that can fail).  Whether
/// the compressor reports an error is named, not stated.
#[verifier::external_body]
fn gzip(payload: &[u8]) -> (r: Result<Vec<u8>, String>)
    ensures
        match r {
            Ok(v) => gzip_of(payload@) == Some(v@),
            Err(_) => gzip_of(payload@) is None,
        },
{
    let mut encoder = flate2::write::GzEncoder::new(Vec::new(), flate2::Compression::default());
    std::io::Write::write_all(&mut encoder, payload).map_err(|e| e.to_string())?;
    encoder.finish().map_err(|e| e.to_string())
}

/// What `flate2::read::GzDecoder` read to the end makes of `data`: the
/// decompressed bytes, or `None` when the stream is not valid gzip.
pub uninterp spec fn gunzip_of(data: Seq<u8>) -> Option<Seq<u8>>;

/// `flate2::read::GzDecoder` read to the end: the decompressed bytes, or an
/// error when the data is not a valid gzip stream.
#[verifier::external_body]
fn gunzip(payload: &[u8]) -> (r: Result<Vec<u8>, String>)
    ensures
        match r {
            Ok(v) => gunzip_of(payload@) == Some(v@),
            Err(_) => gunzip_of(payload@) is None,
        },
{
    let mut decoder = flate2::read::GzDecoder::new(payload);
    let mut out = Vec::new();
    std::io::Read::read_to_end(&mut decoder, &mut out).map_err(|e| e.to_string())?;
    Ok(out)
}

/// Header of an audio-only request; the last one carries the end flag.
pub open spec fn audio_header(is_final: bool) -> Seq<u8> {
    seq![0x11u8, if is_final { 0x22u8 } else { 0x20u8 }, 0x01u8, 0x00u8]
}

/// The audio request around already-compressed audio.
pub fn audio_frame(compressed: &[u8], is_final: bool) -> (r: Vec<u8>)
    ensures
        r@ == message_spec(audio_header(is_final), compressed@),
{
    let flags: u8 = if is_final { 0x02 } else { 0x00 };
    let header: [u8; 4] = [0x11, 0x20 | flags, 0x01, 0x00];
    assert(0x20u8 | 0x02u8 == 0x22u8) by (bit_vector);
    assert(0x20u8 | 0x00u8 == 0x20u8) by (bit_vector);
    assert(header@ =~= audio_header(is_final));
    binary_message(header, compressed)
}

/// A gzip-compressed audio request.
pub fn audio_request(payload: &[u8], is_final: bool) -> (r: Result<Vec<u8>, String>)
    ensures
        match gzip_of(payload@) {
            Some(c) => r matches Ok(v) && v@ == message_spec(audio_header(is_final), c),
            None => r is Err,
        },
{
    let compressed = gzip(payload)?;
    Ok(audio_frame(compressed.as_slice(), is_final))
}

/// Header of the full client request that opens a session.
pub open spec fn full_request_header() -> Seq<u8> {
    seq![0x11u8, 0x10u8, 0x11u8, 0x00u8]
}

/// The session-opening request around the request's JSON text.
pub fn full_client_request(json: &[u8]) -> (r: Result<Vec<u8>, String>)
    ensures
        match gzip_of(json@) {
            Some(c) => r matches Ok(v) && v@ == message_spec(full_request_header(), c),
            None => r is Err,
        },
{
    let compressed = gzip(json)?;
    let header: [u8; 4] = [0x11, 0x10, 0x11, 0x00];
    assert(header@ =~= full_request_header());
    Ok(binary_message(header, compressed.as_slice()))
}

// ---------------------------------------------------------------------------
// Server frames
// ---------------------------------------------------------------------------

/// Where the parts of a server frame lie.
#[derive(Debug, Clone, Copy, PartialEq, Eq, Structural)]
pub struct FrameLayout {
    pub message_type: u8,
    pub flags: u8,
    pub compression: u8,
    pub code: u32,
    pub payload_start: usize,
    pub payload_len: usize,
}

/// The big-endian 32-bit number at `i`.
pub open spec fn be32_at(b: Seq<u8>, i: int) -> int {
    b[i] * 16777216 + b[i + 1] * 65536 + b[i + 2] * 256 + b[i + 3]
}

/// The layout of a server frame, or why it cannot be read.  Result frames
/// (type 9) may carry a sequence number before the payload size; error
/// frames (type 15) carry a code and a message.
pub open spec fn layout_spec(b: Seq<u8>) -> Result<FrameLayout, Seq<char>> {
    if b.len() < 8 {
        Err("Volcengine ASR response frame is too short"@)
    } else {
        let hs = ((b[0] & 0x0f) as int) * 4;
        let mt = b[1] >> 4;
        let fl = b[1] & 0x0f;
        let comp = b[2] & 0x0f;
        if mt == 9 {
            let off = hs + if fl == 1 || fl == 3 { 4int } else { 0int };
            if b.len() < off + 4 {
                Err("Volcengine ASR result frame is missing payload size"@)
            } else if b.len() < off + 4 + be32_at(b, off) {
                Err("Volcengine ASR result frame payload is incomplete"@)
            } else {
                Ok(FrameLayout { message_type: 9, flags: fl, compression: comp, code: 0,
                    payload_start: (off + 4) as usize, payload_len: be32_at(b, off) as usize })
            }
        } else if mt == 15 {
            if b.len() < hs + 8 {
                Err("Volcengine ASR error frame is incomplete"@)
            } else if b.len() < hs + 8 + be32_at(b, hs + 4) {
                Err("Volcengine ASR error frame payload is incomplete"@)
            } else {
                Ok(FrameLayout { message_type: 15, flags: fl, compression: comp, code: be32_at(b, hs) as u32,
                    payload_start: (hs + 8) as usize, payload_len: be32_at(b, hs + 4) as usize })
            }
        } else {
            Err("Unsupported Volcengine ASR message type: "@ + "0x"@ + hex(mt as nat))
        }
    }
}

fn be32_exec(b: &[u8], i: usize) -> (r: u32)
    requires
        i + 4 <= b@.len(),
    ensures
        r == be32_at(b@, i as int),
{
    (b[i] as u32) * 16777216 + (b[i + 1] as u32) * 65536 + (b[i + 2] as u32) * 256 + (b[i + 3] as u32)
}

fn message_with_hex(prefix: &str, n: u8) -> (r: String)
    ensures
        r@ == prefix@ + "0x"@ + hex(n as nat),
{
    let mut v = chars_of(prefix);
    let x = chars_of("0x");
    append_chars(&mut v, &x);
    crate::text::push_hex(&mut v, n as u64);
    string_from(&v)
}

/// Locates the parts of a server frame.
pub fn frame_layout(bytes: &[u8]) -> (r: Result<FrameLayout, String>)
    ensures
        match r {
            Ok(l) => layout_spec(bytes@) == Ok::<FrameLayout, Seq<char>>(l),
            Err(e) => layout_spec(bytes@) == Err::<FrameLayout, Seq<char>>(e@),
        },
{
    if bytes.len() < 8 {
        return Err(owned("Volcengine ASR response frame is too short"));
    }
    let b0 = bytes[0];
    let low = b0 & 0x0f;
    assert(b0 & 0x0f <= 15) by (bit_vector);
    let hs: usize = (low as usize) * 4;
    let mt = bytes[1] >> 4;
    let fl = bytes[1] & 0x0f;
    let comp = bytes[2] & 0x0f;
    if mt == 9 {
        let off = hs + if fl == 1 || fl == 3 { 4 } else { 0 };
        if bytes.len() < off + 4 {
            return Err(owned("Volcengine ASR result frame is missing payload size"));
        }
        let size = be32_exec(bytes, off);
        if ((bytes.len() - (off + 4)) as u64) < (size as u64) {
            return Err(owned("Volcengine ASR result frame payload is incomplete"));
        }
        Ok(FrameLayout { message_type: 9, flags: fl, compression: comp, code: 0, payload_start: off + 4, payload_len: size as usize })
    } else if mt == 15 {
        if bytes.len() < hs + 8 {
            return Err(owned("Volcengine ASR error frame is incomplete"));
        }
        let code = be32_exec(bytes, hs);
        let size = be32_exec(bytes, hs + 4);
        if ((bytes.len() - (hs + 8)) as u64) < (size as u64) {
            return Err(owned("Volcengine ASR error frame payload is incomplete"));
        }
        Ok(FrameLayout { message_type: 15, flags: fl, compression: comp, code, payload_start: hs + 8, payload_len: size as usize })
    } else {
        Err(message_with_hex("Unsupported Volcengine ASR message type: ", mt))
    }
}

/// A decoded server frame: a recognition result (its JSON text, and whether
/// it is the last one) or an error report.
#[derive(Debug, Clone, PartialEq, Eq)]
pub enum ServerFrame {
    Result { payload: Vec<u8>, final_frame: bool },
    Error { code: u32, message: String },
}

/// Payload bytes after decompression: stored as is (0) or gzip (1).
pub fn decode_payload(payload: &[u8], compression: u8) -> (r: Result<Vec<u8>, String>)
    ensures
        compression == 0 ==> (r matches Ok(v) && v@ == payload@),
        compression == 1 ==> match r {
            Ok(v) => gunzip_of(payload@) == Some(v@),
            Err(_) => gunzip_of(payload@) is None,
        },
        compression > 1 ==> (r matches Err(e) && e@ == "Unsupported Volcengine ASR compression method: "@ + "0x"@ + hex(compression as nat)),
{
    if compression == 0 {
        let mut out: Vec<u8> = Vec::new();
        push_bytes(&mut out, payload);
        Ok(out)
    } else if compression == 1 {
        gunzip(payload)
    } else {
        Err(message_with_hex("Unsupported Volcengine ASR compression method: ", compression))
    }
}

fn sub_bytes(b: &[u8], from: usize, len: usize) -> (r: Vec<u8>)
    requires
        from + len <= b@.len(),
    ensures
        r@ == b@.subrange(from as int, from + len),
{
    let mut out: Vec<u8> = Vec::new();
    let mut i = from;
    let n = b.len();
    assert(from + len <= n);
    let end = from + len;
    while i < end
        invariant
            from <= i <= end,
            end == from + len,
            end <= b@.len(),
            out@ == b@.subrange(from as int, i as int),
        decreases end - i,
    {
        out.push(b[i]);
        assert(b@.subrange(from as int, i + 1) =~= b@.subrange(from as int, i as int).push(b@[i as int]));
        i = i + 1;
    }
    out
}

/// Reads a server frame: the result payload decompressed, with its final
/// flag (flags 2 and 3), or the error code with its message.
pub fn parse_server_message(bytes: &[u8]) -> (r: Result<ServerFrame, String>)
    ensures
        match layout_spec(bytes@) {
            Err(e) => r matches Err(m) && m@ == e,
            Ok(l) => {
                let payload = bytes@.subrange(l.payload_start as int, l.payload_start + l.payload_len);
                if l.message_type == 15 {
                    r matches Ok(ServerFrame::Error { code, message }) && code == l.code && message@ == crate::text::utf8_lossy_of(payload)
                } else if l.compression == 0 {
                    r matches Ok(ServerFrame::Result { payload: p, final_frame }) && p@ == payload && final_frame == (l.flags == 2 || l.flags == 3)
                } else if l.compression == 1 {
                    match r {
                        Ok(ServerFrame::Result { payload: p, final_frame }) => gunzip_of(payload) == Some(p@) && final_frame == (l.flags == 2 || l.flags == 3),
                        Ok(ServerFrame::Error { .. }) => false,
                        Err(_) => gunzip_of(payload) is None,
                    }
                } else {
                    r matches Err(e) && e@ == "Unsupported Volcengine ASR compression method: "@ + "0x"@ + hex(l.compression as nat)
                }
            },
        },
{
    let layout = frame_layout(bytes)?;
    let raw = sub_bytes(bytes, layout.payload_start, layout.payload_len);
    if layout.message_type == 15 {
        let message = crate::text::utf8_lossy(raw.as_slice());
        return Ok(ServerFrame::Error { code: layout.code, message });
    }
    let payload = decode_payload(raw.as_slice(), layout.compression)?;
    Ok(ServerFrame::Result { payload, final_frame: layout.flags == 2 || layout.flags == 3 })
}

// ---------------------------------------------------------------------------
// Configuration and request
// ---------------------------------------------------------------------------

/// Whether the legacy console's app-key/access-key pair is used: named
/// explicitly, or, with no mode given, whenever an app key is present.
pub open spec fn legacy_auth(auth_mode: Seq<char>, app_key: Seq<char>) -> bool {
    let m = trim(auth_mode);
    if m == "legacy"@ || m == "old_console"@ {
        true
    } else if m == "api_key"@ || m == "new_console"@ || m == "x_api_key"@ {
        false
    } else if m.len() == 0 {
        !is_blank(app_key)
    } else {
        false
    }
}

/// Whether `config` authenticates the legacy way.
pub fn uses_legacy_auth(config: &AsrConfig) -> (r: bool)
    ensures
        r == legacy_auth(config.auth_mode@, config.app_key@),
{
    let m = crate::text::trim_chars(&chars_of(config.auth_mode.as_str()));
    if chars_eq_str(&m, "legacy") || chars_eq_str(&m, "old_console") {
        true
    } else if chars_eq_str(&m, "api_key") || chars_eq_str(&m, "new_console") || chars_eq_str(&m, "x_api_key") {
        false
    } else if m.len() == 0 {
        !crate::text::blank(config.app_key.as_str())
    } else {
        false
    }
}

/// Why `config` cannot be used for recognition, if it cannot.
pub open spec fn config_problem(c: AsrConfig) -> Option<Seq<char>> {
    if legacy_auth(c.auth_mode@, c.app_key@) && is_blank(c.app_key@) {
        Some("Volcengine app_key is required for legacy ASR auth"@)
    } else if is_blank(c.access_key@) {
        Some("Volcengine access_key/X-Api-Key is required"@)
    } else if is_blank(c.resource_id@) {
        Some("Volcengine resource_id is required"@)
    } else if is_blank(c.stream_url@) {
        Some("Volcengine stream_url is required"@)
    } else {
        None
    }
}

/// Checks that the credentials and endpoint needed for recognition are set.
pub fn validate_config(config: &AsrConfig) -> (r: Result<(), String>)
    ensures
        match config_problem(*config) {
            None => r is Ok,
            Some(m) => r matches Err(e) && e@ == m,
        },
{
    if uses_legacy_auth(config) && crate::text::blank(config.app_key.as_str()) {
        return Err(owned("Volcengine app_key is required for legacy ASR auth"));
    }
    if crate::text::blank(config.access_key.as_str()) {
        return Err(owned("Volcengine access_key/X-Api-Key is required"));
    }
    if crate::text::blank(config.resource_id.as_str()) {
        return Err(owned("Volcengine resource_id is required"));
    }
    if crate::text::blank(config.stream_url.as_str()) {
        return Err(owned("Volcengine stream_url is required"));
    }
    Ok(())
}

/// The user id sent with a request: the legacy app key when it is used and
/// set, else `boltscribe`.
pub fn request_uid(config: &AsrConfig) -> (r: String)
    ensures
        r@ == (if legacy_auth(config.auth_mode@, config.app_key@) && !is_blank(config.app_key@) { trim(config.app_key@) } else { "boltscribe"@ }),
{
    if uses_legacy_auth(config) {
        let uid = trim_str(config.app_key.as_str());
        if chars_of(uid.as_str()).len() != 0 {
            return uid;
        }
    }
    owned("boltscribe")
}

/// The language sent to the service; Chinese in any spelling, or none, is
/// `zh-CN`.
pub open spec fn language_spec(language: Seq<char>) -> Seq<char> {
    let t = trim(language);
    if t.len() == 0 || t == "zh"@ || t == "zh_CN"@ || t == "zh-CN"@ { "zh-CN"@ } else { t }
}

/// The language goes to the service as configured, trimmed: only an empty
/// setting or a spelling of Chinese (`zh`, `zh_CN`, `zh-CN`) becomes
/// `zh-CN`; any other language (`en-US`, `ja`, ...) is sent unchanged.
pub proof fn law_language_is_kept_unless_chinese(language: Seq<char>)
    ensures
        ({
            let t = trim(language);
            let chinese = t.len() == 0 || t == "zh"@ || t == "zh_CN"@ || t == "zh-CN"@;
            &&& !chinese ==> language_spec(language) == t
            &&& chinese ==> language_spec(language) == "zh-CN"@
        }),
{
}

/// The configured language in the form the service expects.
pub fn normalized_language(language: &str) -> (r: String)
    ensures
        r@ == language_spec(language@),
{
    let t = trim_str(language);
    if chars_of(t.as_str()).len() == 0 || crate::text::str_eq(t.as_str(), "zh") || crate::text::str_eq(t.as_str(), "zh_CN")
        || crate::text::str_eq(t.as_str(), "zh-CN") {
        owned("zh-CN")
    } else {
        t
    }
}

pub open spec fn header_views(v: Seq<(String, String)>) -> Seq<(Seq<char>, Seq<char>)> {
    v.map_values(|h: (String, String)| (h.0@, h.1@))
}

/// The headers of the websocket handshake: the credentials (legacy pair or
/// API key), the resource, the request and connection ids, the sequence.
pub open spec fn ws_headers_spec(c: AsrConfig, task_id: Seq<char>) -> Seq<(Seq<char>, Seq<char>)> {
    let auth: Seq<(Seq<char>, Seq<char>)> = if legacy_auth(c.auth_mode@, c.app_key@) {
        seq![("X-Api-App-Key"@, trim(c.app_key@)), ("X-Api-Access-Key"@, trim(c.access_key@))]
    } else {
        seq![("X-Api-Key"@, trim(c.access_key@))]
    };
    auth + seq![
        ("X-Api-Resource-Id"@, trim(c.resource_id@)),
        ("X-Api-Request-Id"@, task_id),
        ("X-Api-Connect-Id"@, task_id),
        ("X-Api-Sequence"@, "-1"@),
    ]
}

fn push_header(v: &mut Vec<(String, String)>, name: &str, value: String)
    ensures
        header_views(final(v)@) == header_views(old(v)@).push((name@, value@)),
{
    let ghost vv = value@;
    v.push((owned(name), value));
    assert(header_views(v@) =~= header_views(old(v)@).push((name@, vv)));
}

/// The handshake headers for `config` and the request id `task_id`.
pub fn ws_request_headers(config: &AsrConfig, task_id: &str) -> (r: Vec<(String, String)>)
    ensures
        header_views(r@) == ws_headers_spec(*config, task_id@),
{
    let mut headers: Vec<(String, String)> = Vec::new();
    if uses_legacy_auth(config) {
        push_header(&mut headers, "X-Api-App-Key", trim_str(config.app_key.as_str()));
        push_header(&mut headers, "X-Api-Access-Key", trim_str(config.access_key.as_str()));
    } else {
        push_header(&mut headers, "X-Api-Key", trim_str(config.access_key.as_str()));
    }
    push_header(&mut headers, "X-Api-Resource-Id", trim_str(config.resource_id.as_str()));
    push_header(&mut headers, "X-Api-Request-Id", owned(task_id));
    push_header(&mut headers, "X-Api-Connect-Id", owned(task_id));
    push_header(&mut headers, "X-Api-Sequence", owned("-1"));
    assert(header_views(headers@) =~= ws_headers_spec(*config, task_id@));
    headers
}

/// The progress signal of one live recognition session: the last time, in
/// milliseconds since the session started, that the service reported
/// progress (0: never).  There is exactly one per session: it is not
/// `Clone`, the session's response state owns it, and whoever watches the
/// session borrows it from there, so every reader sees the same progress.
#[derive(Debug, PartialEq, Eq)]
pub struct LiveAsrActivity {
    last_progress: u64,
}

/// The progress after a report `elapsed_ms` into the session: never earlier
/// than before, and at least 1 ms so that it reads as reported.
pub open spec fn after_progress(last: u64, elapsed_ms: u64) -> u64 {
    let stamp: u64 = if elapsed_ms == 0 { 1 } else { elapsed_ms };
    if last > stamp { last } else { stamp }
}

impl LiveAsrActivity {
    /// The progress recorded so far, in ms (0: none).
    pub closed spec fn progress_ms(self) -> u64 {
        self.last_progress
    }

    pub fn new() -> (r: Self)
        ensures
            r.progress_ms() == 0,
    {
        LiveAsrActivity { last_progress: 0 }
    }

    /// When progress was last reported, if ever.
    pub fn last_progress_ms(&self) -> (r: Option<u64>)
        ensures
            r == (if self.progress_ms() == 0 { None } else { Some(self.progress_ms()) }),
    {
        if self.last_progress == 0 { None } else { Some(self.last_progress) }
    }

    /// Records progress reported `elapsed_ms` after the start.  Progress
    /// never goes back, and once noted it is at least 1 ms.
    pub fn note_progress(&mut self, elapsed_ms: u64)
        ensures
            final(self).progress_ms() == after_progress(old(self).progress_ms(), elapsed_ms),
    {
        let stamp: u64 = if elapsed_ms == 0 { 1 } else { elapsed_ms };
        if stamp > self.last_progress {
            self.last_progress = stamp;
        }
    }
}

/// Progress never decreases, and once noted the activity reads as reported.
pub proof fn law_progress_never_decreases(last: u64, elapsed_ms: u64)
    ensures
        after_progress(last, elapsed_ms) >= last,
        after_progress(last, elapsed_ms) >= elapsed_ms,
        after_progress(last, elapsed_ms) >= 1,
{
}

/// The metadata request that opens a recognition session (members in key
/// order): the audio description, the recognition options and the user.
pub open spec fn full_request_spec(c: AsrConfig, audio_format: Seq<char>) -> JsonView {
    JsonView::Object(seq![
        ("audio"@, JsonView::Object(seq![
            ("bits"@, JsonView::Number(NumberView::PosInt(16))),
            ("channel"@, JsonView::Number(NumberView::PosInt(1))),
            ("codec"@, jstr("raw"@)),
            ("format"@, jstr(audio_format)),
            ("language"@, jstr(language_spec(c.language@))),
            ("rate"@, JsonView::Number(NumberView::PosInt(16000))),
        ])),
        ("request"@, JsonView::Object(seq![
            ("enable_ddc"@, JsonView::Bool(false)),
            ("enable_itn"@, JsonView::Bool(true)),
            ("enable_punc"@, JsonView::Bool(true)),
            ("model_name"@, jstr("bigmodel"@)),
            ("show_utterances"@, JsonView::Bool(true)),
        ])),
        ("user"@, JsonView::Object(seq![
            ("uid"@, jstr(if legacy_auth(c.auth_mode@, c.app_key@) && !is_blank(c.app_key@) { trim(c.app_key@) } else { "boltscribe"@ })),
        ])),
    ])
}

/// The metadata request for audio in `audio_format` (`wav` or `pcm`).
pub fn build_full_request(config: &AsrConfig, audio_format: &str) -> (r: JsonValue)
    ensures
        jview(r) == full_request_spec(*config, audio_format@),
{
    let mut audio: Vec<(String, JsonValue)> = Vec::new();
    assert(mviews(audio@) =~= Seq::<(Seq<char>, JsonView)>::empty());
    push_member(&mut audio, "bits", JsonValue::Number(JsonNumber::PosInt(16)));
    push_member(&mut audio, "channel", JsonValue::Number(JsonNumber::PosInt(1)));
    push_member(&mut audio, "codec", jstring("raw"));
    push_member(&mut audio, "format", jstring(audio_format));
    push_member(&mut audio, "language", JsonValue::String(normalized_language(config.language.as_str())));
    push_member(&mut audio, "rate", JsonValue::Number(JsonNumber::PosInt(16000)));
    let mut request: Vec<(String, JsonValue)> = Vec::new();
    assert(mviews(request@) =~= Seq::<(Seq<char>, JsonView)>::empty());
    push_member(&mut request, "enable_ddc", JsonValue::Bool(false));
    push_member(&mut request, "enable_itn", JsonValue::Bool(true));
    push_member(&mut request, "enable_punc", JsonValue::Bool(true));
    push_member(&mut request, "model_name", jstring("bigmodel"));
    push_member(&mut request, "show_utterances", JsonValue::Bool(true));
    let uid = request_uid(config);
    let ghost uv = uid@;
    let user = one_member("uid", JsonValue::String(uid));
    assert(jview(user) == JsonView::Object(seq![("uid"@, jstr(uv))]));
    let mut top: Vec<(String, JsonValue)> = Vec::new();
    assert(mviews(top@) =~= Seq::<(Seq<char>, JsonView)>::empty());
    let ghost av = mviews(audio@);
    let ghost rv = mviews(request@);
    push_member(&mut top, "audio", object_of(audio));
    push_member(&mut top, "request", object_of(request));
    push_member(&mut top, "user", user);
    proof {
        assert(av =~= seq![
            ("bits"@, JsonView::Number(NumberView::PosInt(16))),
            ("channel"@, JsonView::Number(NumberView::PosInt(1))),
            ("codec"@, jstr("raw"@)),
            ("format"@, jstr(audio_format@)),
            ("language"@, jstr(language_spec(config.language@))),
            ("rate"@, JsonView::Number(NumberView::PosInt(16000))),
        ]);
        assert(rv =~= seq![
            ("enable_ddc"@, JsonView::Bool(false)),
            ("enable_itn"@, JsonView::Bool(true)),
            ("enable_punc"@, JsonView::Bool(true)),
            ("model_name"@, jstr("bigmodel"@)),
            ("show_utterances"@, JsonView::Bool(true)),
        ]);
        assert(mviews(top@) =~= seq![
            ("audio"@, JsonView::Object(av)),
            ("request"@, JsonView::Object(rv)),
            ("user"@, JsonView::Object(seq![("uid"@, jstr(uv))])),
        ]);
    }
    object_of(top)
}

/// What `format!("{:?}", log_id)` prints for the service's log id.
pub uninterp spec fn debug_log_id(log_id: Option<Seq<char>>) -> Seq<char>;

pub open spec fn opt_chars(v: Option<String>) -> Option<Seq<char>> {
    match v {
        Some(s) => Some(s@),
        None => None,
    }
}

/// `<Option<String> as Debug>::fmt`, through `format!`: `None` for a
/// missing log id; otherwise `Some(..)` around the quoted, escaped text,
/// which is named and not spelled out here.
#[verifier::external_body]
fn log_id_text(log_id: &Option<String>) -> (r: String)
    ensures
        r@ == debug_log_id(opt_chars(*log_id)),
        log_id is None ==> r@ == "None"@,
{
    format!("{:?}", log_id)
}

/// The error for a service error frame.
pub fn service_error_message(code: u32, message: &str, log_id: &Option<String>) -> (r: String)
    ensures
        r@ == "Volcengine ASR websocket error: code="@ + crate::text::decimal(code as nat) + ", message="@ + message@
            + ", log_id="@ + debug_log_id(opt_chars(*log_id)),
{
    let mut v = chars_of("Volcengine ASR websocket error: code=");
    crate::text::push_decimal(&mut v, code as u64);
    let m = chars_of(", message=");
    append_chars(&mut v, &m);
    let t = chars_of(message);
    append_chars(&mut v, &t);
    let l = chars_of(", log_id=");
    append_chars(&mut v, &l);
    let id = log_id_text(log_id);
    let iv = chars_of(id.as_str());
    append_chars(&mut v, &iv);
    string_from(&v)
}

/// The transcript a session ends with: the best text heard, refused when
/// it is blank.
pub fn transcript_output(state: AsrResponseState, live: bool, task_id: String, log_id: &Option<String>) -> (r: Result<AsrOutput, String>)
    ensures
        is_blank(state.best_text@) <==> r is Err,
        r matches Err(e) ==> e@ == (if live { "Volcengine live ASR response did not contain text, log_id="@ }
            else { "Volcengine ASR response did not contain text, log_id="@ }) + debug_log_id(opt_chars(*log_id)),
        r matches Ok(o) ==> o.text@ == state.best_text@
            && o.provider@ == (if live { "volcengine_ws_live"@ } else { "volcengine_ws_file"@ })
            && o.task_id == Some(task_id)
            && o.duration_ms == state.service_duration_ms,
{
    if crate::text::blank(state.best_text.as_str()) {
        let mut v = if live {
            chars_of("Volcengine live ASR response did not contain text, log_id=")
        } else {
            chars_of("Volcengine ASR response did not contain text, log_id=")
        };
        let id = log_id_text(log_id);
        let iv = chars_of(id.as_str());
        append_chars(&mut v, &iv);
        return Err(string_from(&v));
    }
    Ok(AsrOutput {
        text: state.best_text,
        provider: owned(if live { "volcengine_ws_live" } else { "volcengine_ws_file" }),
        task_id: Some(task_id),
        duration_ms: state.service_duration_ms,
    })
}

/// How many requests a recording of `n` bytes is sent in.
pub open spec fn chunk_count(n: nat) -> nat {
    (n + 6399) / 6400
}

/// The `k`-th piece of a recording sent whole.
pub open spec fn chunk_of(audio: Seq<u8>, k: int) -> Seq<u8> {
    audio.subrange(k * 6400, if (k + 1) * 6400 < audio.len() { (k + 1) * 6400 } else { audio.len() as int })
}

fn copy_range(b: &[u8], from: usize, to: usize) -> (r: Vec<u8>)
    requires
        from <= to <= b.len(),
    ensures
        r@ == b@.subrange(from as int, to as int),
{
    let mut out: Vec<u8> = Vec::new();
    let mut i: usize = from;
    while i < to
        invariant
            from <= i <= to <= b.len(),
            out@ == b@.subrange(from as int, i as int),
        decreases to - i,
    {
        out.push(b[i]);
        assert(b@.subrange(from as int, i + 1) =~= b@.subrange(from as int, i as int).push(b@[i as int]));
        i = i + 1;
    }
    out
}

/// Whether every piece of a recording compresses.
pub open spec fn all_chunks_compress(audio: Seq<u8>) -> bool {
    forall|k: int| 0 <= k < chunk_count(audio.len()) ==> #[trigger] gzip_of(chunk_of(audio, k)) is Some
}

/// The requests that carry a whole recording: pieces of 6400 bytes, the
/// last one flagged as final.
pub fn file_audio_requests(audio: &[u8]) -> (r: Result<Vec<Vec<u8>>, String>)
    ensures
        r is Ok <==> all_chunks_compress(audio@),
        r matches Ok(v) ==> v.len() == chunk_count(audio@.len())
            && forall|k: int| 0 <= k < v.len() ==> #[trigger] v@[k]@
                == message_spec(audio_header(k + 1 == chunk_count(audio@.len())), gzip_of(chunk_of(audio@, k)).unwrap()),
{
    let n = audio.len();
    let ghost count = chunk_count(n as nat);
    let mut out: Vec<Vec<u8>> = Vec::new();
    let mut start: usize = 0;
    let mut k: usize = 0;
    assert((0 < count) <==> (0 < n)) by (nonlinear_arith)
        requires
            count == (n + 6399) / 6400;
    assert((0 < count) <==> (0 < n)) by (nonlinear_arith)
        requires
            count == (n + 6399) / 6400;
    while start < n
        invariant
            start <= n,
            start < n ==> start == k * 6400,
            n == audio.len(),
            count == chunk_count(n as nat),
            k <= count,
            (k < count) <==> (start < n),
            out.len() == k,
            forall|q: int| 0 <= q < k ==> #[trigger] out@[q]@
                == message_spec(audio_header(q + 1 == count), gzip_of(chunk_of(audio@, q)).unwrap()),
            forall|q: int| 0 <= q < k ==> #[trigger] gzip_of(chunk_of(audio@, q)) is Some,
        decreases n - start,
    {
        let end = if n - start > STREAM_CHUNK_BYTES { start + STREAM_CHUNK_BYTES } else { n };
        let piece = copy_range(audio, start, end);
        let last = end == n;
        proof {
            assert(last == (k + 1 == count)) by (nonlinear_arith)
                requires
                    start == k * 6400,
                    start < n,
                    count == (n + 6399) / 6400,
                    end == (if n - start > 6400 { start + 6400 } else { n as int }),
                    last == (end == n);
            assert(piece@ == chunk_of(audio@, k as int));
        }
        let request = match audio_request(piece.as_slice(), last) {
            Ok(request) => request,
            Err(e) => {
                assert(gzip_of(chunk_of(audio@, k as int)) is None);
                return Err(e);
            },
        };
        out.push(request);
        proof {
            assert(k + 1 <= count && ((k + 1 < count) <==> (end < n))) by (nonlinear_arith)
                requires
                    start == k * 6400,
                    start < n,
                    count == (n + 6399) / 6400,
                    end == (if n - start > 6400 { start + 6400 } else { n as int });
        }
        start = end;
        k = k + 1;
        proof {
            if start < n {
                assert(start == k * 6400);
            }
        }
    }
    Ok(out)
}

/// How a websocket handshake failed, as far as the retry rules care.
#[derive(Debug, Clone, Copy, PartialEq, Eq, Structural)]
pub enum HandshakeFailure {
    /// The server answered with this HTTP status.
    HttpStatus(u16),
    Tls,
    Url,
    HttpFormat,
    /// An I/O error that timed out or would block.
    IoTimeout,
    Io,
    Other,
    /// The handshake did not finish in time.
    Interrupted,
}

/// Category and retry decision of a failed handshake.
pub open spec fn handshake_class(f: HandshakeFailure) -> (Seq<char>, bool) {
    match f {
        HandshakeFailure::HttpStatus(s) => if http_status_retryable(s) { ("http_temporary"@, true) } else { ("http_client"@, false) },
        HandshakeFailure::Tls => ("tls_certificate"@, false),
        HandshakeFailure::Url => ("invalid_url"@, false),
        HandshakeFailure::HttpFormat => ("configuration"@, false),
        HandshakeFailure::IoTimeout => ("timeout"@, true),
        HandshakeFailure::Io => ("network"@, true),
        HandshakeFailure::Other => ("handshake"@, true),
        HandshakeFailure::Interrupted => ("timeout"@, true),
    }
}

/// Classifies a failed handshake: certificate, address and request
/// problems are permanent; timeouts, network trouble and temporary HTTP
/// statuses are retried.
pub fn classify_handshake_failure(f: HandshakeFailure) -> (r: (&'static str, bool))
    ensures
        r.0@ == handshake_class(f).0,
        r.1 == handshake_class(f).1,
{
    match f {
        HandshakeFailure::HttpStatus(s) => classify_http_status(s),
        HandshakeFailure::Tls => ("tls_certificate", false),
        HandshakeFailure::Url => ("invalid_url", false),
        HandshakeFailure::HttpFormat => ("configuration", false),
        HandshakeFailure::IoTimeout => ("timeout", true),
        HandshakeFailure::Io => ("network", true),
        HandshakeFailure::Other => ("handshake", true),
        HandshakeFailure::Interrupted => ("timeout", true),
    }
}

/// The audio format a live session settled on with its first chunk.
#[derive(Debug, Clone, Copy, PartialEq, Eq, Structural)]
pub struct LiveAudioFormat {
    pub sample_rate: Option<u32>,
    pub channels: Option<u16>,
}

impl LiveAudioFormat {
    /// No chunk seen yet.
    pub fn new() -> (r: Self)
        ensures
            r.sample_rate is None && r.channels is None,
    {
        LiveAudioFormat { sample_rate: None, channels: None }
    }

    /// Checks a chunk before it is converted: an empty chunk is skipped
    /// (`Ok(false)`); a zero rate or channel count is refused; the first
    /// chunk fixes the format and later ones must keep it.
    pub fn check_chunk(&mut self, chunk: &AudioChunk) -> (r: Result<bool, String>)
        ensures
            chunk.samples@.len() == 0 ==> r == Ok::<bool, String>(false) && *final(self) == *old(self),
            chunk.samples@.len() > 0 && (chunk.sample_rate == 0 || chunk.channels == 0) ==>
                (r matches Err(e) && e@ == "Invalid live audio format"@) && *final(self) == *old(self),
            chunk.samples@.len() > 0 && chunk.sample_rate != 0 && chunk.channels != 0 ==> {
                match (old(self).sample_rate, old(self).channels) {
                    (None, None) => r == Ok::<bool, String>(true)
                        && final(self).sample_rate == Some(chunk.sample_rate) && final(self).channels == Some(chunk.channels),
                    (Some(rate), Some(ch)) => if rate == chunk.sample_rate && ch == chunk.channels {
                        r == Ok::<bool, String>(true) && *final(self) == *old(self)
                    } else {
                        (r matches Err(e) && e@ == "Live audio format changed during recording"@) && *final(self) == *old(self)
                    },
                    _ => (r matches Err(e) && e@ == "Live audio format changed during recording"@) && *final(self) == *old(self),
                }
            },
    {
        if chunk.samples.len() == 0 {
            return Ok(false);
        }
        if chunk.sample_rate == 0 || chunk.channels == 0 {
            return Err(owned("Invalid live audio format"));
        }
        match (self.sample_rate, self.channels) {
            (None, None) => {
                self.sample_rate = Some(chunk.sample_rate);
                self.channels = Some(chunk.channels);
                Ok(true)
            },
            (Some(rate), Some(ch)) => {
                if rate == chunk.sample_rate && ch == chunk.channels {
                    Ok(true)
                } else {
                    Err(owned("Live audio format changed during recording"))
                }
            },
            _ => Err(owned("Live audio format changed during recording")),
        }
    }
}

} // verus!
