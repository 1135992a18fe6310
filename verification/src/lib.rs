//! A verified metronome core: tempo arithmetic, the beat/tick position state
//! machine with lateness correction, tempo ramps, tap tempo, key handling and
//! the layout of the beat bar.
//!
//! All time values are unsigned nanosecond readings of one monotonic clock
//! chosen by the caller; the library never reads a clock itself, never waits
//! and never draws.

pub mod audio;
pub mod cli;
pub mod input;
pub mod scheduler;
pub mod tap;
pub mod tempo;
pub mod text;
pub mod ui;

pub use audio::{click_request, click_tone, ClickRequest, Tone};
pub use cli::{Cli, Commands, SoundType, Subdivision};
pub use input::{key_action, Action, Key};
pub use scheduler::{
    wait_step, Metronome, PlaybackPosition, Signature, TempoState, TickEvent, WaitStep,
};
pub use tap::{estimate_bpm, tap_tempo, TapSession, TapStatus};
pub use tempo::{
    clamp_bpm, parse_duration_ms, parse_ramp_pattern, parse_signature, tick_interval, ParseError,
    RampCfg, RampSpec,
};
