//! What a click sounds like: the tone for each kind of click, accented or
//! not, and whether a tick is to be sounded at all.

use vstd::prelude::*;
use crate::cli::SoundType;
use crate::scheduler::TickEvent;

verus! {

/// A short tone: its pitch in hertz and its length in milliseconds.
#[derive(Copy, Clone, Debug, PartialEq, Eq, Structural)]
pub struct Tone {
    pub frequency_hz: u32,
    pub duration_ms: u64,
}

/// A click to be played: whether it is accented, and its kind.
#[derive(Copy, Clone, Debug, PartialEq, Eq, Structural)]
pub struct ClickRequest {
    pub is_accent: bool,
    pub sound: SoundType,
}

/// An accented click lasts 30 ms, any other 20 ms.
pub open spec fn tone_length(accent: bool) -> u64 {
    if accent {
        30
    } else {
        20
    }
}

/// The pitch of each kind of click, accented and not.
pub open spec fn tone_pitch(sound: SoundType, accent: bool) -> u32 {
    match sound {
        SoundType::Click => if accent {
            1760
        } else {
            1320
        },
        SoundType::Beep => if accent {
            1760
        } else {
            880
        },
        SoundType::Wood => if accent {
            1500
        } else {
            900
        },
        SoundType::Cowbell => if accent {
            2000
        } else {
            1200
        },
        SoundType::Sidestick => if accent {
            1200
        } else {
            800
        },
    }
}

/// The tone to play for a click of kind `sound`.
pub fn click_tone(sound: SoundType, accent: bool) -> (tone: Tone)
    ensures
        tone == (Tone {
            frequency_hz: tone_pitch(sound, accent),
            duration_ms: tone_length(accent),
        }),
{
    let duration_ms: u64 = if accent {
        30
    } else {
        20
    };
    let frequency_hz: u32 = match sound {
        SoundType::Click => if accent {
            1760
        } else {
            1320
        },
        SoundType::Beep => if accent {
            1760
        } else {
            880
        },
        SoundType::Wood => if accent {
            1500
        } else {
            900
        },
        SoundType::Cowbell => if accent {
            2000
        } else {
            1200
        },
        SoundType::Sidestick => if accent {
            1200
        } else {
            800
        },
    };
    Tone { frequency_hz, duration_ms }
}

/// The click to send for a tick: one for every tick of a playing metronome
/// that is not muted, none otherwise.
pub fn click_request(event: &TickEvent, mute: bool, sound: SoundType) -> (r: Option<ClickRequest>)
    ensures
        r == if event.playing && !mute {
            Some(ClickRequest { is_accent: event.is_accent, sound })
        } else {
            None
        },
{
    if event.playing && !mute {
        Some(ClickRequest { is_accent: event.is_accent, sound })
    } else {
        None
    }
}

} // verus!
