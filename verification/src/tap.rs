//! Tap tempo: a tempo taken from the times at which a key was tapped.
//!
//! The tempo is sixty seconds divided by the mean time between two taps,
//! rounded to the nearest whole number of beats per minute.

use vstd::prelude::*;
use vstd::arithmetic::div_mod::lemma_basic_div;
use crate::input::Key;
use crate::tempo::{clamp_bpm, clamp_bpm_spec, round_div, NANOS_PER_MINUTE};

verus! {

/// Taps needed before a tempo can be accepted.
pub const MIN_TAPS: usize = 4;

/// Taps after which the session ends by itself.
pub const MAX_TAPS: usize = 8;

/// How long a tap lights the display, in nanoseconds.
pub const FLASH_NANOS: u64 = 150_000_000;

/// Time from the tap at `a` to the tap at `b`; none where the clock went back.
pub open spec fn gap(a: u64, b: u64) -> nat {
    if b >= a {
        (b - a) as nat
    } else {
        0
    }
}

/// The times between neighbouring taps, added up.
pub open spec fn gaps_total(taps: Seq<u64>) -> nat
    decreases taps.len(),
{
    if taps.len() < 2 {
        0
    } else {
        gaps_total(taps.drop_last()) + gap(taps[taps.len() - 2], taps[taps.len() - 1])
    }
}

/// The tempo of `count` gaps that take `total` nanoseconds together: a
/// minute divided by the mean gap, to the nearest whole number, and no more
/// than a `u16` holds. Gaps of no length at all give the largest tempo.
pub open spec fn gaps_bpm(total: nat, count: nat) -> int {
    if total == 0 {
        u16::MAX as int
    } else {
        let bpm = round_div(NANOS_PER_MINUTE as int * count as int, total as int);
        if bpm > u16::MAX as int {
            u16::MAX as int
        } else {
            bpm
        }
    }
}

/// The tempo that the taps show so far: none before the second tap.
pub open spec fn estimate_of(taps: Seq<u64>) -> Option<u16> {
    if taps.len() < 2 {
        None
    } else {
        Some(gaps_bpm(gaps_total(taps), (taps.len() - 1) as nat) as u16)
    }
}

/// The tempo that the taps give: none with fewer than four taps, else the
/// tempo they show, brought into the playable range.
pub open spec fn tap_tempo_of(taps: Seq<u64>) -> Option<u16> {
    if taps.len() < MIN_TAPS {
        None
    } else {
        Some(clamp_bpm_spec(gaps_bpm(gaps_total(taps), (taps.len() - 1) as nat)) as u16)
    }
}

/// The tempo shown by `taps`, clock readings in nanoseconds in the order
/// they were made: none before the second tap.
pub fn estimate_bpm(taps: &Vec<u64>) -> (r: Option<u16>)
    ensures
        r == estimate_of(taps@),
{
    let n: usize = taps.len();
    if n < 2 {
        return None;
    }
    let mut total: u128 = 0;
    let mut i: usize = 1;
    assert(gaps_total(taps@.take(1)) == 0);
    while i < n
        invariant
            1 <= i <= n,
            n == taps.len(),
            total == gaps_total(taps@.take(i as int)),
            total <= (i - 1) * u64::MAX,
        decreases n - i,
    {
        let a: u64 = taps[i - 1];
        let b: u64 = taps[i];
        let step: u64 = if b >= a {
            b - a
        } else {
            0
        };
        proof {
            let next = taps@.take(i + 1);
            assert(next.drop_last() == taps@.take(i as int));
            assert(next[next.len() - 2] == a && next[next.len() - 1] == b);
        }
        total = total + step as u128;
        i += 1;
    }
    assert(taps@.take(n as int) == taps@);
    if total == 0 {
        return Some(u16::MAX);
    }
    let count: u128 = (n - 1) as u128;
    assert(NANOS_PER_MINUTE * count <= 60_000_000_000 * 0xffff_ffff_ffff_ffff) by (nonlinear_arith)
        requires
            count <= 0xffff_ffff_ffff_ffff,
    ;
    let minute: u128 = NANOS_PER_MINUTE as u128 * count;
    if total > 2 * minute {
        // The mean gap is longer than two minutes.
        proof {
            lemma_basic_div(2 * minute + total, 2 * total);
        }
        return Some(0);
    }
    let bpm: u128 = (2 * minute + total) / (2 * total);
    if bpm > u16::MAX as u128 {
        Some(u16::MAX)
    } else {
        Some(bpm as u16)
    }
}

/// The tempo given by `taps`: none with fewer than four taps.
pub fn tap_tempo(taps: &Vec<u64>) -> (r: Option<u16>)
    ensures
        r == tap_tempo_of(taps@),
        r matches Some(bpm) ==> 20 <= bpm <= 400,
{
    if taps.len() < MIN_TAPS {
        return None;
    }
    match estimate_bpm(taps) {
        Some(bpm) => Some(clamp_bpm(bpm)),
        None => None,
    }
}

/// How a tap session stands after a key.
#[derive(Copy, Clone, Debug, PartialEq, Eq, Structural)]
pub enum TapStatus {
    /// More taps are awaited.
    Collecting,
    /// The session was given up; there is no tempo.
    Cancelled,
    /// The session is over; the taps give the tempo.
    Complete,
}

/// A tap session: the taps made so far and until when the last one lights
/// the display.
#[derive(Clone, Debug, PartialEq, Eq)]
pub struct TapSession {
    pub taps: Vec<u64>,
    pub flash_until: Option<u64>,
}

/// What a key does to a session at clock reading `now`: `q` and Esc give it
/// up; Enter ends it once there are four taps; the space bar adds a tap,
/// lights the display and ends the session with the eighth tap; other keys
/// do nothing.
pub open spec fn tap_step(taps: Seq<u64>, flash_until: Option<u64>, key: Key, now: u64) -> (
    Seq<u64>,
    Option<u64>,
    TapStatus,
) {
    match key {
        Key::Esc => (taps, flash_until, TapStatus::Cancelled),
        Key::Enter => (
            taps,
            flash_until,
            if taps.len() >= MIN_TAPS {
                TapStatus::Complete
            } else {
                TapStatus::Collecting
            },
        ),
        Key::Char(c) => if c == 'q' {
            (taps, flash_until, TapStatus::Cancelled)
        } else if c == ' ' {
            (
                taps.push(now),
                Some(
                    if now + FLASH_NANOS > u64::MAX {
                        u64::MAX
                    } else {
                        (now + FLASH_NANOS) as u64
                    },
                ),
                if taps.len() + 1 >= MAX_TAPS {
                    TapStatus::Complete
                } else {
                    TapStatus::Collecting
                },
            )
        } else {
            (taps, flash_until, TapStatus::Collecting)
        },
        _ => (taps, flash_until, TapStatus::Collecting),
    }
}

impl TapSession {
    pub fn new() -> (s: TapSession)
        ensures
            s.taps@.len() == 0,
            s.flash_until is None,
    {
        TapSession { taps: Vec::new(), flash_until: None }
    }

    /// Handles one key press made at clock reading `now`.
    pub fn handle_key(&mut self, key: Key, now: u64) -> (status: TapStatus)
        ensures
            (final(self).taps@, final(self).flash_until, status) == tap_step(
                old(self).taps@,
                old(self).flash_until,
                key,
                now,
            ),
    {
        match key {
            Key::Esc => TapStatus::Cancelled,
            Key::Enter => {
                if self.taps.len() >= MIN_TAPS {
                    TapStatus::Complete
                } else {
                    TapStatus::Collecting
                }
            },
            Key::Char(c) => {
                if c == 'q' {
                    TapStatus::Cancelled
                } else if c == ' ' {
                    self.taps.push(now);
                    self.flash_until = Some(now.saturating_add(FLASH_NANOS));
                    if self.taps.len() >= MAX_TAPS {
                        TapStatus::Complete
                    } else {
                        TapStatus::Collecting
                    }
                } else {
                    TapStatus::Collecting
                }
            },
            _ => TapStatus::Collecting,
        }
    }

    /// The tempo to show while tapping goes on.
    pub fn estimate(&self) -> (r: Option<u16>)
        ensures
            r == estimate_of(self.taps@),
    {
        estimate_bpm(&self.taps)
    }

    /// The tempo of a session that is complete.
    pub fn tempo(&self) -> (r: Option<u16>)
        ensures
            r == tap_tempo_of(self.taps@),
    {
        tap_tempo(&self.taps)
    }

    /// How many of the eight marks of the display are filled.
    pub fn filled(&self) -> (n: usize)
        ensures
            n == if self.taps@.len() < MAX_TAPS {
                self.taps@.len()
            } else {
                MAX_TAPS as nat
            },
    {
        if self.taps.len() < MAX_TAPS {
            self.taps.len()
        } else {
            MAX_TAPS
        }
    }

    /// Whether the last tap still lights the display at `now`.
    pub fn flash_visible(&self, now: u64) -> (lit: bool)
        ensures
            lit == (self.flash_until matches Some(until) && now < until),
    {
        match self.flash_until {
            Some(until) => now < until,
            None => false,
        }
    }
}

} // verus!
