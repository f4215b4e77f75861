//! Parts of the voice-activity gate that do not depend on signal levels:
//! audio held back until speech is confirmed, and the initial-silence limit.

use vstd::prelude::*;
use crate::recorder::AudioChunk;

verus! {

/// Audio received before speech was confirmed; once taken for activation,
/// later audio is no longer held.
#[derive(Debug)]
pub struct PreActivationAudio {
    pub chunks: Option<Vec<AudioChunk>>,
}

pub open spec fn chunk_view(c: AudioChunk) -> (Seq<i16>, u32, u16) {
    (c.samples@, c.sample_rate, c.channels)
}

pub open spec fn chunk_views(v: Seq<AudioChunk>) -> Seq<(Seq<i16>, u32, u16)> {
    v.map_values(|c: AudioChunk| chunk_view(c))
}

fn copy_chunk(chunk: &AudioChunk) -> (r: AudioChunk)
    ensures
        chunk_view(r) == chunk_view(*chunk),
{
    let mut samples: Vec<i16> = Vec::new();
    let mut i: usize = 0;
    while i < chunk.samples.len()
        invariant
            i <= chunk.samples.len(),
            samples@ == chunk.samples@.take(i as int),
        decreases chunk.samples.len() - i,
    {
        samples.push(chunk.samples[i]);
        assert(chunk.samples@.take(i + 1) =~= chunk.samples@.take(i as int).push(chunk.samples@[i as int]));
        i = i + 1;
    }
    assert(chunk.samples@.take(chunk.samples.len() as int) =~= chunk.samples@);
    AudioChunk { samples, sample_rate: chunk.sample_rate, channels: chunk.channels }
}

impl PreActivationAudio {
    pub fn new() -> (r: Self)
        ensures
            r.chunks matches Some(v) && v@.len() == 0,
    {
        PreActivationAudio { chunks: Some(Vec::new()) }
    }

    /// Keeps a copy of `chunk` while audio is still being held.
    pub fn push(&mut self, chunk: &AudioChunk)
        ensures
            match old(self).chunks {
                Some(v) => final(self).chunks matches Some(w) && chunk_views(w@) == chunk_views(v@).push(chunk_view(*chunk)),
                None => final(self).chunks is None,
            },
    {
        match self.chunks.take() {
            Some(mut v) => {
                let ghost before = v@;
                v.push(copy_chunk(chunk));
                assert(chunk_views(v@) =~= chunk_views(before).push(chunk_view(*chunk)));
                self.chunks = Some(v);
            },
            None => {},
        }
    }

    /// Hands over the held audio, oldest first, and stops holding.
    pub fn take_for_activation(&mut self) -> (r: Vec<AudioChunk>)
        ensures
            final(self).chunks is None,
            match old(self).chunks {
                Some(v) => r@ == v@,
                None => r@.len() == 0,
            },
    {
        match self.chunks.take() {
            Some(v) => v,
            None => Vec::new(),
        }
    }
}

/// Whether recording stops for lack of speech: nothing was activated and
/// the limit has passed, however much audio keeps arriving.
pub fn initial_silence_timed_out(activated: bool, elapsed_ms: u64, timeout_ms: u64) -> (r: bool)
    ensures
        r == (!activated && elapsed_ms >= timeout_ms),
{
    !activated && elapsed_ms >= timeout_ms
}

/// Where the voice detector stands.
#[derive(Debug, Clone, Copy, PartialEq, Eq, Structural)]
pub enum VadPhase {
    Armed,
    Activated,
    TimedOut,
    Cancelled,
    Error,
}

/// The phase the voice detector takes when it stops.  After a stop for lack
/// of speech or a cancellation it keeps its phase (`None`); otherwise it
/// ends activated if speech was confirmed, else cancelled.
pub open spec fn closing_phase_spec(current: Option<VadPhase>, activated: bool) -> Option<VadPhase> {
    match current {
        Some(VadPhase::Cancelled) | Some(VadPhase::TimedOut) => None,
        _ => Some(if activated { VadPhase::Activated } else { VadPhase::Cancelled }),
    }
}

/// Decides the phase the voice detector takes when it stops, from its
/// current phase (`None` when that is unknown).
pub fn closing_phase(current: Option<VadPhase>, activated: bool) -> (r: Option<VadPhase>)
    ensures
        r == closing_phase_spec(current, activated),
{
    match current {
        Some(VadPhase::Cancelled) | Some(VadPhase::TimedOut) => None,
        _ => Some(if activated { VadPhase::Activated } else { VadPhase::Cancelled }),
    }
}

/// The length of one voice-activity frame (ms).
pub const FRAME_MS: u32 = 20;

/// The WebRTC voice-activity mode the detector runs in (very aggressive).
pub const WEBRTC_VAD_MODE: u8 = 3;

/// The bounds and steps of the detector's settings: the noise margin (dB),
/// the confirmation time and the noise window (ms, each rounded to its
/// step), and the run of continuous speech that activates at once (ms).
#[derive(Debug, Clone, Copy, PartialEq, Eq, Structural)]
pub struct VadLimits {
    pub min_noise_margin_db: u32,
    pub max_noise_margin_db: u32,
    pub min_confirmation_ms: u32,
    pub max_confirmation_ms: u32,
    pub confirmation_step_ms: u32,
    pub min_noise_window_ms: u32,
    pub max_noise_window_ms: u32,
    pub noise_window_step_ms: u32,
    pub continuous_speech_ms: u32,
}

/// Limits that `u32::clamp` accepts and whose rounding stays in a `u32`.
pub open spec fn limits_valid(l: VadLimits) -> bool {
    &&& l.min_noise_margin_db <= l.max_noise_margin_db
    &&& l.min_confirmation_ms <= l.max_confirmation_ms
    &&& l.min_noise_window_ms <= l.max_noise_window_ms
    &&& l.confirmation_step_ms > 0
    &&& l.noise_window_step_ms > 0
    &&& l.max_confirmation_ms + l.confirmation_step_ms / 2 <= u32::MAX
    &&& l.max_noise_window_ms + l.noise_window_step_ms / 2 <= u32::MAX
}

/// The settings the detector runs with, and the frame counts they give.
#[derive(Debug, Clone, Copy, PartialEq, Eq, Structural)]
pub struct GateProfile {
    pub noise_margin_db: u32,
    pub confirmation_ms: u32,
    pub noise_window_ms: u32,
    pub noise_window_frames: usize,
    pub window_frames: usize,
    pub required_voice_frames: usize,
    pub required_consecutive_frames: usize,
}

/// `v` kept between `lo` and `hi` (`u32::clamp`).
pub open spec fn clamp_u32(v: u32, lo: u32, hi: u32) -> int {
    if v < lo { lo as int } else if v > hi { hi as int } else { v as int }
}

/// `v` rounded to the nearest multiple of `step`, halves upward.
pub open spec fn round_to_step(v: int, step: int) -> int {
    ((v + step / 2) / step) * step
}

/// The detector's profile for the given settings: each setting clamped to
/// its bounds, the times rounded to their steps, and the frame counts
/// derived from the times (the confirmation window is twice the voice
/// frames required, saturating).
pub open spec fn gate_profile_spec(l: VadLimits, noise_margin_db: u32, confirmation_ms: u32, noise_window_ms: u32) -> GateProfile {
    let conf = round_to_step(clamp_u32(confirmation_ms, l.min_confirmation_ms, l.max_confirmation_ms), l.confirmation_step_ms as int);
    let window = round_to_step(clamp_u32(noise_window_ms, l.min_noise_window_ms, l.max_noise_window_ms), l.noise_window_step_ms as int);
    let required = conf / (FRAME_MS as int);
    GateProfile {
        noise_margin_db: clamp_u32(noise_margin_db, l.min_noise_margin_db, l.max_noise_margin_db) as u32,
        confirmation_ms: conf as u32,
        noise_window_ms: window as u32,
        noise_window_frames: (window / (FRAME_MS as int)) as usize,
        window_frames: (if required * 2 > usize::MAX { usize::MAX as int } else { required * 2 }) as usize,
        required_voice_frames: required as usize,
        required_consecutive_frames: (l.continuous_speech_ms / FRAME_MS) as usize,
    }
}

fn clamp_setting(v: u32, lo: u32, hi: u32) -> (r: u32)
    requires
        lo <= hi,
    ensures
        r as int == clamp_u32(v, lo, hi),
{
    if v < lo { lo } else if v > hi { hi } else { v }
}

fn round_setting(v: u32, step: u32, hi: u32) -> (r: u32)
    requires
        step > 0,
        v <= hi,
        hi + step / 2 <= u32::MAX,
    ensures
        r as int == round_to_step(v as int, step as int),
{
    let sum: u32 = v + step / 2;
    let q: u32 = sum / step;
    assert(q * step <= sum) by (nonlinear_arith)
        requires
            step > 0,
            q == sum / step;
    q * step
}

/// Works out the detector's profile from its settings.
pub fn gate_profile(limits: VadLimits, noise_margin_db: u32, confirmation_ms: u32, noise_window_ms: u32) -> (r: GateProfile)
    requires
        limits_valid(limits),
    ensures
        r == gate_profile_spec(limits, noise_margin_db, confirmation_ms, noise_window_ms),
{
    let margin = clamp_setting(noise_margin_db, limits.min_noise_margin_db, limits.max_noise_margin_db);
    let conf0 = clamp_setting(confirmation_ms, limits.min_confirmation_ms, limits.max_confirmation_ms);
    let conf = round_setting(conf0, limits.confirmation_step_ms, limits.max_confirmation_ms);
    let window0 = clamp_setting(noise_window_ms, limits.min_noise_window_ms, limits.max_noise_window_ms);
    let window = round_setting(window0, limits.noise_window_step_ms, limits.max_noise_window_ms);
    let required = (conf / FRAME_MS) as usize;
    let window_frames: usize = if required > usize::MAX / 2 { usize::MAX } else { required * 2 };
    GateProfile {
        noise_margin_db: margin,
        confirmation_ms: conf,
        noise_window_ms: window,
        noise_window_frames: (window / FRAME_MS) as usize,
        window_frames,
        required_voice_frames: required,
        required_consecutive_frames: (limits.continuous_speech_ms / FRAME_MS) as usize,
    }
}

/// What the voice detector's worker knows between events: whether speech
/// was confirmed, whether it stopped, the phase it reports, and when it
/// activated (ms after it started; live-recognition activity is counted
/// from there).
#[derive(Debug, Clone, Copy, PartialEq, Eq, Structural)]
pub struct VadWorkerState {
    pub activated: bool,
    pub stopped: bool,
    pub phase: VadPhase,
    pub activity_offset_ms: u64,
}

/// What reaches the worker.
#[derive(Debug, Clone, Copy, PartialEq, Eq, Structural)]
pub enum VadEvent {
    /// The recording stopped normally.
    Stop,
    /// The recording was cancelled.
    Cancel,
    /// New settings arrived.
    UpdateSettings,
    /// The worker checks the initial-silence limit before reading audio.
    Deadline { elapsed_ms: u64, timeout_ms: u64 },
    /// A chunk could not be converted to 16 kHz mono; `live` when a live
    /// recognition session is wanted (a real recording, not a test).
    ConversionFailed { live: bool, elapsed_ms: u64 },
    /// The speech gate confirmed speech on a frame.
    SpeechConfirmed { elapsed_ms: u64 },
    /// A chunk has been looked at; `was_activated` says whether speech had
    /// been confirmed before it arrived.
    ChunkHandled { was_activated: bool },
}

/// What the worker does in answer.
#[derive(Debug, Clone, Copy, PartialEq, Eq, Structural)]
pub enum VadAction {
    Nothing,
    /// Apply the new settings to the speech gate and report them.
    ApplySettings,
    /// Leave the loop.
    Stop,
    /// Start live recognition with the audio held so far.
    StartLiveAsr,
    /// Fail open: note the conversion error and start live recognition.
    FailOpen,
    /// Report the conversion error (a test session has no recognition).
    ReportError,
    /// Hand the chunk to the live session.
    ForwardChunk,
}

/// The worker's answer to one event.
pub open spec fn vad_step_spec(s: VadWorkerState, e: VadEvent) -> (VadWorkerState, VadAction) {
    match e {
        VadEvent::Stop => (VadWorkerState { stopped: true, ..s }, VadAction::Stop),
        VadEvent::Cancel => (VadWorkerState { stopped: true, phase: VadPhase::Cancelled, ..s }, VadAction::Stop),
        VadEvent::UpdateSettings => (s, VadAction::ApplySettings),
        VadEvent::Deadline { elapsed_ms, timeout_ms } => if !s.activated && elapsed_ms >= timeout_ms {
            (VadWorkerState { stopped: true, phase: VadPhase::TimedOut, ..s }, VadAction::Stop)
        } else {
            (s, VadAction::Nothing)
        },
        VadEvent::ConversionFailed { live, elapsed_ms } => if live {
            if !s.activated {
                (VadWorkerState { activated: true, phase: VadPhase::Activated, activity_offset_ms: elapsed_ms, ..s }, VadAction::FailOpen)
            } else {
                (s, VadAction::Nothing)
            }
        } else {
            (VadWorkerState { phase: VadPhase::Error, ..s }, VadAction::ReportError)
        },
        VadEvent::SpeechConfirmed { elapsed_ms } => if !s.activated {
            (VadWorkerState { activated: true, phase: VadPhase::Activated, activity_offset_ms: elapsed_ms, ..s }, VadAction::StartLiveAsr)
        } else {
            (s, VadAction::Nothing)
        },
        VadEvent::ChunkHandled { was_activated } => if s.activated && was_activated {
            (s, VadAction::ForwardChunk)
        } else {
            (s, VadAction::Nothing)
        },
    }
}

impl VadWorkerState {
    /// The worker as it starts: armed, nothing confirmed.
    pub fn new() -> (r: Self)
        ensures
            r == (VadWorkerState { activated: false, stopped: false, phase: VadPhase::Armed, activity_offset_ms: 0 }),
    {
        VadWorkerState { activated: false, stopped: false, phase: VadPhase::Armed, activity_offset_ms: 0 }
    }
}

/// Decides the worker's answer to one event.
pub fn vad_step(s: VadWorkerState, e: VadEvent) -> (r: (VadWorkerState, VadAction))
    ensures
        r == vad_step_spec(s, e),
{
    match e {
        VadEvent::Stop => (VadWorkerState { stopped: true, ..s }, VadAction::Stop),
        VadEvent::Cancel => (VadWorkerState { stopped: true, phase: VadPhase::Cancelled, ..s }, VadAction::Stop),
        VadEvent::UpdateSettings => (s, VadAction::ApplySettings),
        VadEvent::Deadline { elapsed_ms, timeout_ms } => if initial_silence_timed_out(s.activated, elapsed_ms, timeout_ms) {
            (VadWorkerState { stopped: true, phase: VadPhase::TimedOut, ..s }, VadAction::Stop)
        } else {
            (s, VadAction::Nothing)
        },
        VadEvent::ConversionFailed { live, elapsed_ms } => if live {
            if !s.activated {
                (VadWorkerState { activated: true, phase: VadPhase::Activated, activity_offset_ms: elapsed_ms, ..s }, VadAction::FailOpen)
            } else {
                (s, VadAction::Nothing)
            }
        } else {
            (VadWorkerState { phase: VadPhase::Error, ..s }, VadAction::ReportError)
        },
        VadEvent::SpeechConfirmed { elapsed_ms } => if !s.activated {
            (VadWorkerState { activated: true, phase: VadPhase::Activated, activity_offset_ms: elapsed_ms, ..s }, VadAction::StartLiveAsr)
        } else {
            (s, VadAction::Nothing)
        },
        VadEvent::ChunkHandled { was_activated } => if s.activated && was_activated {
            (s, VadAction::ForwardChunk)
        } else {
            (s, VadAction::Nothing)
        },
    }
}

/// Live recognition starts at most once: once speech is confirmed (or the
/// worker failed open) no event starts it again, and the worker stays
/// activated.
pub proof fn law_live_asr_starts_once(s: VadWorkerState, e: VadEvent)
    requires
        s.activated,
    ensures
        vad_step_spec(s, e).0.activated,
        vad_step_spec(s, e).1 != VadAction::StartLiveAsr,
        vad_step_spec(s, e).1 != VadAction::FailOpen,
        vad_step_spec(s, e).0.activity_offset_ms == s.activity_offset_ms,
{
}

/// The initial-silence limit only stops a worker that never activated.
pub proof fn law_timeout_only_before_speech(s: VadWorkerState, elapsed_ms: u64, timeout_ms: u64)
    ensures
        vad_step_spec(s, VadEvent::Deadline { elapsed_ms, timeout_ms }).1 == VadAction::Stop ==> !s.activated && elapsed_ms >= timeout_ms,
        s.activated ==> vad_step_spec(s, VadEvent::Deadline { elapsed_ms, timeout_ms }) == (s, VadAction::Nothing),
{
}

/// Audio reaches the live session only from chunks that arrived after
/// activation.
pub proof fn law_only_later_chunks_are_forwarded(s: VadWorkerState, was_activated: bool)
    ensures
        vad_step_spec(s, VadEvent::ChunkHandled { was_activated }).1 == VadAction::ForwardChunk ==> was_activated && s.activated,
{
}

} // verus!
