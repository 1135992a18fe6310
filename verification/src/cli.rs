//! Plain configuration types: how a beat is subdivided, which click is
//! played, and what was asked for on the command line.

use vstd::prelude::*;

verus! {

/// How many ticks a beat is divided into.
#[derive(Copy, Clone, Debug, PartialEq, Eq, Structural)]
pub enum Subdivision {
    Quarter,
    Eighth,
    Triplet,
    Sixteenth,
}

impl Subdivision {
    /// Number of ticks in one beat.
    pub open spec fn ticks(self) -> nat {
        match self {
            Subdivision::Quarter => 1,
            Subdivision::Eighth => 2,
            Subdivision::Triplet => 3,
            Subdivision::Sixteenth => 4,
        }
    }

    /// The subdivision that follows this one when cycling.
    pub open spec fn successor(self) -> Subdivision {
        match self {
            Subdivision::Quarter => Subdivision::Eighth,
            Subdivision::Eighth => Subdivision::Triplet,
            Subdivision::Triplet => Subdivision::Sixteenth,
            Subdivision::Sixteenth => Subdivision::Quarter,
        }
    }

    pub fn ticks_per_beat(self) -> (n: u8)
        ensures
            n == self.ticks(),
            1 <= n <= 4,
    {
        match self {
            Subdivision::Quarter => 1,
            Subdivision::Eighth => 2,
            Subdivision::Triplet => 3,
            Subdivision::Sixteenth => 4,
        }
    }

    /// Quarter, Eighth, Triplet, Sixteenth, and round again.
    pub fn next(self) -> (s: Subdivision)
        ensures
            s == self.successor(),
    {
        match self {
            Subdivision::Quarter => Subdivision::Eighth,
            Subdivision::Eighth => Subdivision::Triplet,
            Subdivision::Triplet => Subdivision::Sixteenth,
            Subdivision::Sixteenth => Subdivision::Quarter,
        }
    }
}

/// The timbre of the click.
#[derive(Copy, Clone, Debug, PartialEq, Eq, Structural)]
pub enum SoundType {
    Click,
    Wood,
    Cowbell,
    Sidestick,
    Beep,
}

/// What the metronome is asked to do besides playing.
#[derive(Clone, Debug, PartialEq, Eq)]
pub enum Commands {
    /// Take the tempo from taps on the space bar first.
    Tap { apply: bool },
    /// Let the tempo run along a ramp, written `FROM..TO@DURATION`.
    Ramp { pattern: String },
}

/// The settings of one run, as given on the command line.
#[derive(Clone, Debug, PartialEq, Eq)]
pub struct Cli {
    /// The tempo given without a flag; it goes before `bpm`.
    pub bpm_positional: Option<u16>,
    pub bpm: u16,
    /// The time signature, as text: `M/N`.
    pub signature: String,
    pub subdivision: Subdivision,
    pub mute: bool,
    pub sound: SoundType,
    pub command: Option<Commands>,
}

impl Cli {
    /// The tempo asked for: the one given without a flag, or else `bpm`.
    pub open spec fn asked_bpm(self) -> u16 {
        match self.bpm_positional {
            Some(bpm) => bpm,
            None => self.bpm,
        }
    }

    /// The command is to tap the tempo.
    pub open spec fn asks_tap(self) -> bool {
        self.command matches Some(Commands::Tap { .. })
    }

    pub fn requested_bpm(&self) -> (bpm: u16)
        ensures
            bpm == self.asked_bpm(),
    {
        match self.bpm_positional {
            Some(bpm) => bpm,
            None => self.bpm,
        }
    }

    pub fn wants_tap(&self) -> (tap: bool)
        ensures
            tap == self.asks_tap(),
    {
        match &self.command {
            Some(Commands::Tap { .. }) => true,
            _ => false,
        }
    }
}

} // verus!
