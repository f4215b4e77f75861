//! Captured audio and the checks made on it while recording starts and stops.

use vstd::prelude::*;
use crate::text::{chars_of, decimal, push_decimal, string_from};

verus! {

broadcast use vstd::string::group_string_axioms;

/// A block of interleaved 16-bit samples as the input stream delivered it.
#[derive(Debug, Clone, PartialEq, Eq)]
pub struct AudioChunk {
    pub samples: Vec<i16>,
    pub sample_rate: u32,
    pub channels: u16,
}

pub open spec fn any_nonzero(s: Seq<i16>) -> bool {
    exists|k: int| 0 <= k < s.len() && #[trigger] s[k] != 0
}

/// Whether any sample differs from digital silence.
pub fn has_audio_signal(samples: &[i16]) -> (r: bool)
    ensures
        r == any_nonzero(samples@),
{
    let mut i: usize = 0;
    while i < samples.len()
        invariant
            i <= samples.len(),
            forall|k: int| 0 <= k < i ==> samples@[k] == 0,
        decreases samples.len() - i,
    {
        if samples[i] != 0 {
            assert(samples@[i as int] != 0);
            return true;
        }
        i = i + 1;
    }
    false
}

/// Unsigned samples re-centred around zero.
pub fn u16_to_i16(data: &[u16]) -> (r: Vec<i16>)
    ensures
        r@.len() == data@.len(),
        forall|k: int| 0 <= k < data@.len() ==> r@[k] == data@[k] - 32768,
{
    let mut out: Vec<i16> = Vec::new();
    let mut i: usize = 0;
    while i < data.len()
        invariant
            i <= data.len(),
            out@.len() == i,
            forall|k: int| 0 <= k < i ==> out@[k] == data@[k] - 32768,
        decreases data.len() - i,
    {
        let centered: i32 = data[i] as i32 - 32768;
        out.push(centered as i16);
        i = i + 1;
    }
    out
}

/// Whether the stream has delivered a non-silent sample since it started.
#[derive(Debug, Clone, Copy, PartialEq, Eq)]
pub struct InitialAudioReadiness {
    pub signal_seen: bool,
}

impl Default for InitialAudioReadiness {
    fn default() -> (r: Self)
        ensures
            !r.signal_seen,
    {
        InitialAudioReadiness { signal_seen: false }
    }
}

/// Message when no signal arrived in time.
pub open spec fn no_signal_message(timeout_ms: u64) -> Seq<char> {
    "No audio signal arrived within "@ + decimal(timeout_ms as nat) + "ms"@
}

impl InitialAudioReadiness {
    /// Forgets any signal seen before a new start.
    pub fn reset(&mut self)
        ensures
            !final(self).signal_seen,
    {
        self.signal_seen = false;
    }

    /// Notes a block of samples.
    pub fn observe(&mut self, samples: &[i16])
        ensures
            final(self).signal_seen == (old(self).signal_seen || any_nonzero(samples@)),
    {
        if has_audio_signal(samples) {
            self.signal_seen = true;
        }
    }

    /// One poll while waiting for the first signal: ready once a signal was
    /// seen; failed when the stream broke or `timeout_ms` has passed;
    /// otherwise keep waiting (`None`).
    pub fn poll(&self, unhealthy: bool, elapsed_ms: u64, timeout_ms: u64) -> (r: Option<Result<(), String>>)
        ensures
            self.signal_seen ==> r == Some(Ok::<(), String>(())),
            !self.signal_seen && unhealthy ==> (r matches Some(Err(e)) && e@ == "Input stream failed before delivering an audio signal"@),
            !self.signal_seen && !unhealthy && elapsed_ms >= timeout_ms ==> (r matches Some(Err(e)) && e@ == no_signal_message(timeout_ms)),
            !self.signal_seen && !unhealthy && elapsed_ms < timeout_ms ==> r is None,
    {
        if self.signal_seen {
            return Some(Ok(()));
        }
        if unhealthy {
            return Some(Err(crate::text::owned("Input stream failed before delivering an audio signal")));
        }
        if elapsed_ms >= timeout_ms {
            let mut v = chars_of("No audio signal arrived within ");
            push_decimal(&mut v, timeout_ms);
            let ms = chars_of("ms");
            crate::text::append_chars(&mut v, &ms);
            return Some(Err(string_from(&v)));
        }
        None
    }
}

} // verus!
