//! Core logic of the BoltScribe dictation assistant: configuration
//! normalisation, shortcut parsing, device ranking, audio framing and the
//! text processing that surrounds speech recognition and correction.

pub mod asr;
pub mod asr_response;
pub mod commands;
pub mod audio_devices;
pub mod autostart;
pub mod config;
pub mod config_import;
pub mod corrector;
pub mod data_dir;
pub mod fn_trigger;
pub mod history;
pub mod history_store;
pub mod hotkeys;
pub mod injector;
pub mod input_stats;
pub mod json;
pub mod migration;
pub mod keyboard_shortcut;
pub mod mouse_shortcuts;
pub mod output_volume;
pub mod paths;
pub mod overlay;
pub mod recorder;
pub mod recording_name;
pub mod shortcuts;
pub mod startup_single_instance;
pub mod system_audio;
pub mod text;
pub mod tray;
pub mod vad;
pub mod workflow;
