//! Which output devices are ducked while recording, and how.

use vstd::prelude::*;
use crate::config::OutputVolumeDuckingConfig;
use crate::text::strs;

verus! {

broadcast use vstd::string::group_string_axioms;

/// An empty whitelist ducks every device; otherwise only the devices whose
/// name is listed exactly.
pub open spec fn duck_device(name: Seq<char>, whitelist: Seq<Seq<char>>) -> bool {
    whitelist.len() == 0 || whitelist.contains(name)
}

/// Whether the output device called `device_name` is ducked.
pub fn should_duck_device(device_name: &str, whitelist: &Vec<String>) -> (r: bool)
    ensures
        r == duck_device(device_name@, strs(whitelist@)),
{
    if whitelist.len() == 0 {
        return true;
    }
    let mut i: usize = 0;
    while i < whitelist.len()
        invariant
            i <= whitelist.len(),
            forall|k: int| 0 <= k < i ==> whitelist@[k]@ != device_name@,
        decreases whitelist.len() - i,
    {
        if crate::text::str_eq(whitelist[i].as_str(), device_name) {
            assert(strs(whitelist@)[i as int] == device_name@);
            return true;
        }
        i = i + 1;
    }
    assert forall|k: int| 0 <= k < strs(whitelist@).len() implies strs(whitelist@)[k] != device_name@ by {
        assert(strs(whitelist@)[k] == whitelist@[k]@);
    }
    false
}

/// How the volume of one output device is lowered.
#[derive(Debug, Clone, Copy, PartialEq, Eq, Structural)]
pub enum DuckingStrategy {
    Volume,
    NativeMute,
    SoundSourceHotkey,
    Unsupported,
}

/// The device's own controls come first, in the order that the configuration
/// prefers (muting or lowering); the SoundSource shortcut is the last resort.
pub open spec fn strategy_for(volume: bool, mute: bool, prefer_mute: bool, hotkey: bool) -> DuckingStrategy {
    if prefer_mute && mute {
        DuckingStrategy::NativeMute
    } else if volume {
        DuckingStrategy::Volume
    } else if mute {
        DuckingStrategy::NativeMute
    } else if hotkey {
        DuckingStrategy::SoundSourceHotkey
    } else {
        DuckingStrategy::Unsupported
    }
}

/// Chooses how to duck a device from what it supports and what is configured.
pub fn ducking_strategy(
    supports_volume_control: bool,
    supports_mute_control: bool,
    mute_instead_of_reduce: bool,
    sound_source_hotkey_fallback_enabled: bool,
) -> (r: DuckingStrategy)
    ensures
        r == strategy_for(supports_volume_control, supports_mute_control, mute_instead_of_reduce, sound_source_hotkey_fallback_enabled),
{
    if mute_instead_of_reduce {
        if supports_mute_control {
            DuckingStrategy::NativeMute
        } else if supports_volume_control {
            DuckingStrategy::Volume
        } else if sound_source_hotkey_fallback_enabled {
            DuckingStrategy::SoundSourceHotkey
        } else {
            DuckingStrategy::Unsupported
        }
    } else {
        if supports_volume_control {
            DuckingStrategy::Volume
        } else if supports_mute_control {
            DuckingStrategy::NativeMute
        } else if sound_source_hotkey_fallback_enabled {
            DuckingStrategy::SoundSourceHotkey
        } else {
            DuckingStrategy::Unsupported
        }
    }
}

/// A CoreAudio selector from its four ASCII bytes, the first byte highest.
pub fn four_char_code(bytes: [u8; 4]) -> (code: u32)
    ensures
        code == bytes[0] * 0x100_0000 + bytes[1] * 0x1_0000 + bytes[2] * 0x100 + bytes[3],
{
    let b0: u32 = bytes[0] as u32;
    let b1: u32 = bytes[1] as u32;
    let b2: u32 = bytes[2] as u32;
    let b3: u32 = bytes[3] as u32;
    let code: u32 = (b0 << 24) | (b1 << 16) | (b2 << 8) | b3;
    assert(code == b0 * 0x100_0000 + b1 * 0x1_0000 + b2 * 0x100 + b3) by (bit_vector)
        requires
            b0 < 256, b1 < 256, b2 < 256, b3 < 256,
            code == (b0 << 24) | (b1 << 16) | (b2 << 8) | b3;
    code
}

/// An output device as the settings list it.
#[derive(Debug, Clone, PartialEq, Eq)]
pub struct AudioOutputDevice {
    pub id: String,
    pub name: String,
    pub is_default: bool,
    pub platform: String,
    pub supports_volume_control: bool,
    pub supports_mute_control: bool,
}

/// The output devices whose volume can be lowered while recording.  This
/// library has no audio backend that enumerates them (the ones there are
/// need CoreAudio or the Windows audio endpoints), so, as on any platform
/// without one, the list is empty.
pub fn list_output_devices() -> (r: Result<Vec<AudioOutputDevice>, String>)
    ensures
        r matches Ok(v) && v@.len() == 0,
{
    Ok(Vec::new())
}

/// A ducking in progress, to be undone when recording ends.  Without an
/// audio backend nothing is ever lowered, so there is nothing to undo.
#[derive(Debug)]
pub struct OutputVolumeDuckingSession;

impl OutputVolumeDuckingSession {
    /// Puts the devices back as they were.
    pub fn restore(self) -> (r: Result<(), String>)
        ensures
            r is Ok,
    {
        Ok(())
    }
}

/// Lowers the output devices for a recording as configured.  A disabled
/// configuration starts nothing; without an audio backend no device can be
/// lowered either, so no session is started.
pub fn start_ducking_session(config: &OutputVolumeDuckingConfig) -> (r: Result<Option<OutputVolumeDuckingSession>, String>)
    ensures
        r matches Ok(s) && s is None,
{
    if !config.enabled {
        return Ok(None);
    }
    Ok(None)
}

} // verus!
