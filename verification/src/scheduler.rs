//! The tick scheduler: where in the bar the metronome stands, when the next
//! tick is due, and how both move on as keys arrive and time passes.
//!
//! The scheduler never waits and never reads a clock. Its caller runs the loop:
//! hand over the keys that were pressed, start a tick and draw or sound what
//! comes back, wait as `wait_step` says, then finish the tick.

use vstd::prelude::*;
use vstd::arithmetic::div_mod::*;
use vstd::arithmetic::mul::*;
use crate::cli::{Cli, Commands, Subdivision};
use crate::input::{action_of, key_action, Action, Key};
use crate::tempo::{
    clamp_bpm, clamp_bpm_spec, legal_denominator, parse_duration_ms, parse_ramp_pattern,
    parse_signature, playable_bpm, ramp_of, signature_of, tick_interval, tick_interval_nanos,
    ParseError, RampCfg, RampSpec,
};

verus! {

/// A place in the bar: the beat, counted from one, and the tick within that
/// beat, counted from zero.
#[derive(Copy, Clone, Debug, PartialEq, Eq, Structural)]
pub struct PlaybackPosition {
    pub beat_in_bar: u8,
    pub tick_in_beat: u8,
}

/// The beat after `beat` in a bar of `numerator` beats; after the last comes
/// the first.
pub open spec fn following_beat(beat: u8, numerator: u8) -> u8 {
    if beat >= numerator {
        1
    } else {
        (beat + 1) as u8
    }
}

impl PlaybackPosition {
    /// The beat lies within a bar of `numerator` beats.
    pub open spec fn in_bar(self, numerator: u8) -> bool {
        1 <= self.beat_in_bar <= numerator
    }

    /// The beat lies within the bar and the tick within the beat.
    pub open spec fn in_range(self, numerator: u8, ticks_per_beat: u8) -> bool {
        self.in_bar(numerator) && self.tick_in_beat < ticks_per_beat
    }

    /// The first tick of the first beat carries the accent.
    pub open spec fn accented(self) -> bool {
        self.tick_in_beat == 0 && self.beat_in_bar == 1
    }

    /// One tick on. When the tick reaches the end of the beat it returns to
    /// zero and the beat moves on, the first beat following the last.
    pub open spec fn advanced(self, ticks_per_beat: u8, numerator: u8) -> PlaybackPosition {
        if self.tick_in_beat + 1 >= ticks_per_beat {
            PlaybackPosition {
                beat_in_bar: following_beat(self.beat_in_bar, numerator),
                tick_in_beat: 0,
            }
        } else {
            PlaybackPosition {
                beat_in_bar: self.beat_in_bar,
                tick_in_beat: (self.tick_in_beat + 1) as u8,
            }
        }
    }

    /// The position after a wake-up that came `ticks_behind` whole ticks late.
    /// Nothing moves for zero. Otherwise the tick moves on by `ticks_behind`
    /// modulo the ticks per beat, and each whole beat that this fills moves the
    /// beat on by one, round the bar.
    pub open spec fn caught_up(self, ticks_behind: u64, ticks_per_beat: u8, numerator: u8)
        -> PlaybackPosition {
        if ticks_behind == 0 {
            self
        } else {
            let ticks = self.tick_in_beat as int + ticks_behind as int % ticks_per_beat as int;
            PlaybackPosition {
                beat_in_bar: ((self.beat_in_bar as int - 1 + ticks / ticks_per_beat as int)
                    % numerator as int + 1) as u8,
                tick_in_beat: (ticks % ticks_per_beat as int) as u8,
            }
        }
    }

    /// The first tick of the first beat.
    pub fn start() -> (p: PlaybackPosition)
        ensures
            p == (PlaybackPosition { beat_in_bar: 1, tick_in_beat: 0 }),
            p.accented(),
    {
        PlaybackPosition { beat_in_bar: 1, tick_in_beat: 0 }
    }

    pub fn is_accent(&self) -> (a: bool)
        ensures
            a == self.accented(),
    {
        self.tick_in_beat == 0 && self.beat_in_bar == 1
    }

    pub fn advance(self, ticks_per_beat: u8, numerator: u8) -> (p: PlaybackPosition)
        ensures
            p == self.advanced(ticks_per_beat, numerator),
            ticks_per_beat >= 1 && self.in_bar(numerator) ==> p.in_range(numerator, ticks_per_beat),
    {
        if self.tick_in_beat as u16 + 1 >= ticks_per_beat as u16 {
            let beat: u8 = if self.beat_in_bar >= numerator {
                1
            } else {
                self.beat_in_bar + 1
            };
            PlaybackPosition { beat_in_bar: beat, tick_in_beat: 0 }
        } else {
            PlaybackPosition { beat_in_bar: self.beat_in_bar, tick_in_beat: self.tick_in_beat + 1 }
        }
    }

    pub fn catch_up(self, ticks_behind: u64, ticks_per_beat: u8, numerator: u8) -> (p:
        PlaybackPosition)
        requires
            ticks_per_beat >= 1,
            self.in_bar(numerator),
        ensures
            p == self.caught_up(ticks_behind, ticks_per_beat, numerator),
            p.in_bar(numerator),
            ticks_behind > 0 || self.tick_in_beat < ticks_per_beat ==> p.in_range(
                numerator,
                ticks_per_beat,
            ),
    {
        if ticks_behind == 0 {
            return self;
        }
        let step: u64 = ticks_behind % ticks_per_beat as u64;
        let mut tick: u16 = self.tick_in_beat as u16 + step as u16;
        let mut beat: u8 = self.beat_in_bar;
        let ghost ticks: int = tick as int;
        let ghost beats: int = 0;
        proof {
            lemma_small_mod((self.beat_in_bar - 1) as nat, numerator as nat);
        }
        while tick >= ticks_per_beat as u16
            invariant
                ticks_per_beat >= 1,
                numerator >= 1,
                self.beat_in_bar >= 1,
                0 <= beats,
                ticks == tick + beats * ticks_per_beat,
                beat as int == (self.beat_in_bar as int - 1 + beats) % numerator as int + 1,
            decreases tick,
        {
            tick = tick - ticks_per_beat as u16;
            proof {
                lemma_mod_successor(self.beat_in_bar as int - 1 + beats, numerator as int);
                assert(ticks == tick + (beats + 1) * ticks_per_beat) by (nonlinear_arith)
                    requires
                        ticks == tick + ticks_per_beat + beats * ticks_per_beat,
                ;
                beats = beats + 1;
            }
            beat = if beat >= numerator {
                1
            } else {
                beat + 1
            };
        }
        proof {
            lemma_mul_is_commutative(beats, ticks_per_beat as int);
            lemma_fundamental_div_mod_converse(ticks, ticks_per_beat as int, beats, tick as int);
            lemma_mod_bound(self.beat_in_bar as int - 1 + beats, numerator as int);
        }
        PlaybackPosition { beat_in_bar: beat, tick_in_beat: tick as u8 }
    }
}

/// Catching up is a function of the position, the lateness and the cadence
/// alone, and it never leads out of the bar: from a beat within the bar it
/// ends on a beat from one to `numerator`, and whenever it moves the position
/// the tick ends within the beat.
pub proof fn lemma_caught_up_in_range(
    position: PlaybackPosition,
    ticks_behind: u64,
    ticks_per_beat: u8,
    numerator: u8,
)
    requires
        ticks_per_beat >= 1,
        position.in_bar(numerator),
    ensures
        position.caught_up(ticks_behind, ticks_per_beat, numerator).in_bar(numerator),
        ticks_behind > 0 || position.tick_in_beat < ticks_per_beat ==> position.caught_up(
            ticks_behind,
            ticks_per_beat,
            numerator,
        ).in_range(numerator, ticks_per_beat),
        ticks_behind == 0 ==> position.caught_up(ticks_behind, ticks_per_beat, numerator)
            == position,
{
    if ticks_behind > 0 {
        let tpb = ticks_per_beat as int;
        let n = numerator as int;
        let ticks = position.tick_in_beat as int + ticks_behind as int % tpb;
        lemma_mod_bound(ticks_behind as int, tpb);
        lemma_mod_bound(ticks, tpb);
        lemma_div_pos_is_pos(ticks, tpb);
        lemma_mod_bound(position.beat_in_bar as int - 1 + ticks / tpb, n);
    }
}

/// One tick on from a beat within the bar ends within the bar and within the
/// beat, wherever the tick stood before.
pub proof fn lemma_advanced_in_range(position: PlaybackPosition, ticks_per_beat: u8, numerator: u8)
    requires
        ticks_per_beat >= 1,
        position.in_bar(numerator),
    ensures
        position.advanced(ticks_per_beat, numerator).in_range(numerator, ticks_per_beat),
{
}

/// Adding one to a number moves its remainder on by one, round the modulus.
proof fn lemma_mod_successor(x: int, n: int)
    requires
        0 <= x,
        0 < n,
    ensures
        (x + 1) % n == if x % n == n - 1 {
            0
        } else {
            x % n + 1
        },
{
    lemma_fundamental_div_mod(x, n);
    lemma_mod_bound(x, n);
    let q = x / n;
    let r = x % n;
    if r == n - 1 {
        assert(x + 1 == (q + 1) * n + 0) by (nonlinear_arith)
            requires
                x == n * q + r,
                r == n - 1,
        ;
        lemma_fundamental_div_mod_converse(x + 1, n, q + 1, 0);
    } else {
        assert(x + 1 == q * n + (r + 1)) by (nonlinear_arith)
            requires
                x == n * q + r,
        ;
        lemma_fundamental_div_mod_converse(x + 1, n, q, r + 1);
    }
}

/// A time signature: `numerator` beats to the bar, each a note of one
/// `denominator`th.
#[derive(Copy, Clone, Debug, PartialEq, Eq, Structural)]
pub struct Signature {
    pub numerator: u8,
    pub denominator: u8,
}

impl Signature {
    /// The bar has a beat and the denominator is legal.
    pub open spec fn wf(self) -> bool {
        self.numerator >= 1 && legal_denominator(self.denominator as int)
    }

    /// The signature that follows this one when cycling: 4/4, 3/4, 6/8, 7/8
    /// and round again; from any other signature, 4/4.
    pub open spec fn successor(self) -> Signature {
        if self.numerator == 4 && self.denominator == 4 {
            Signature { numerator: 3, denominator: 4 }
        } else if self.numerator == 3 && self.denominator == 4 {
            Signature { numerator: 6, denominator: 8 }
        } else if self.numerator == 6 && self.denominator == 8 {
            Signature { numerator: 7, denominator: 8 }
        } else {
            Signature { numerator: 4, denominator: 4 }
        }
    }

    pub fn next(self) -> (s: Signature)
        ensures
            s == self.successor(),
            s.wf(),
    {
        if self.numerator == 4 && self.denominator == 4 {
            Signature { numerator: 3, denominator: 4 }
        } else if self.numerator == 3 && self.denominator == 4 {
            Signature { numerator: 6, denominator: 8 }
        } else if self.numerator == 6 && self.denominator == 8 {
            Signature { numerator: 7, denominator: 8 }
        } else {
            Signature { numerator: 4, denominator: 4 }
        }
    }
}

/// `a + b`, held at the largest clock reading there is.
pub open spec fn later_by(a: u64, b: u64) -> u64 {
    if a + b > u64::MAX {
        u64::MAX
    } else {
        (a + b) as u64
    }
}

/// What sets the cadence: tempo, time signature and subdivision.
#[derive(Copy, Clone, Debug, PartialEq, Eq, Structural)]
pub struct TempoState {
    pub bpm: u16,
    pub signature: Signature,
    pub subdivision: Subdivision,
}

impl TempoState {
    /// The tempo is playable and the signature well formed.
    pub open spec fn wf(self) -> bool {
        playable_bpm(self.bpm as int) && self.signature.wf()
    }

    /// Length of one tick at this tempo and subdivision, in nanoseconds.
    pub open spec fn interval(self) -> u64 {
        tick_interval_nanos(self.bpm as int, self.subdivision.ticks() as int) as u64
    }

    /// The tempo moved by `delta` and kept playable.
    pub open spec fn nudged(self, delta: int) -> TempoState {
        TempoState { bpm: clamp_bpm_spec(self.bpm + delta) as u16, ..self }
    }

    pub fn tick_interval(&self) -> (nanos: u64)
        ensures
            nanos == self.interval(),
            self.wf() ==> 37_500_000 <= nanos <= 3_000_000_000,
    {
        tick_interval(self.bpm, self.subdivision.ticks_per_beat())
    }
}

/// What is handed to the display and to the click for one tick: a copy of
/// the state at that moment.
#[derive(Copy, Clone, Debug, PartialEq, Eq, Structural)]
pub struct TickEvent {
    pub is_accent: bool,
    pub beat_in_bar: u8,
    pub tick_in_beat: u8,
    pub bpm: u16,
    pub signature: Signature,
    pub playing: bool,
}

/// How to pass the time until a deadline.
#[derive(Copy, Clone, Debug, PartialEq, Eq, Structural)]
pub enum WaitStep {
    /// Sleep for this many nanoseconds, then ask again.
    Sleep(u64),
    /// The deadline is close: read the clock and ask again at once.
    Spin,
    /// The deadline has been reached.
    Done,
}

/// The last stretch before a deadline, in nanoseconds, that is spent reading
/// the clock instead of sleeping.
pub const SPIN_WINDOW_NANOS: u64 = 2_000_000;

/// Sleep until the spin window opens, spin inside it, and be done at the
/// deadline.
pub open spec fn wait_plan(deadline: u64, now: u64) -> WaitStep {
    if now >= deadline {
        WaitStep::Done
    } else if deadline - now > SPIN_WINDOW_NANOS {
        WaitStep::Sleep((deadline - now - SPIN_WINDOW_NANOS) as u64)
    } else {
        WaitStep::Spin
    }
}

pub fn wait_step(deadline: u64, now: u64) -> (step: WaitStep)
    ensures
        step == wait_plan(deadline, now),
{
    if now >= deadline {
        WaitStep::Done
    } else if deadline - now > SPIN_WINDOW_NANOS {
        WaitStep::Sleep(deadline - now - SPIN_WINDOW_NANOS)
    } else {
        WaitStep::Spin
    }
}

/// The running metronome.
#[derive(Copy, Clone, Debug, PartialEq, Eq, Structural)]
pub struct Metronome {
    pub tempo: TempoState,
    /// The tick that is shown and sounded next.
    pub position: PlaybackPosition,
    pub playing: bool,
    pub show_help: bool,
    /// Clock reading at which the wait of the current tick ends.
    pub next_tick: u64,
    pub ramp: Option<RampSpec>,
}

impl Metronome {
    /// The cadence is well formed and the beat lies within the bar. The tick
    /// may stand beyond the beat for a moment, after the subdivision was made
    /// coarser; the next step of the position brings it back.
    pub open spec fn wf(self) -> bool {
        self.tempo.wf() && self.position.in_bar(self.tempo.signature.numerator)
    }

    /// The state after `action`. Quitting and ignored keys change nothing.
    pub open spec fn applied(self, action: Action) -> Metronome {
        match action {
            Action::Quit => self,
            Action::Ignore => self,
            Action::TogglePlay => Metronome { playing: !self.playing, ..self },
            Action::ToggleHelp => Metronome { show_help: !self.show_help, ..self },
            Action::BpmUp => Metronome { tempo: self.tempo.nudged(1), ..self },
            Action::BpmDown => Metronome { tempo: self.tempo.nudged(-1), ..self },
            Action::BpmUpFive => Metronome { tempo: self.tempo.nudged(5), ..self },
            Action::BpmDownFive => Metronome { tempo: self.tempo.nudged(-5), ..self },
            Action::CycleSubdivision => Metronome {
                tempo: TempoState { subdivision: self.tempo.subdivision.successor(), ..self.tempo },
                ..self
            },
            Action::CycleSignature => {
                let next = self.tempo.signature.successor();
                Metronome {
                    tempo: TempoState { signature: next, ..self.tempo },
                    position: if self.position.beat_in_bar > next.numerator {
                        PlaybackPosition { beat_in_bar: 1, ..self.position }
                    } else {
                        self.position
                    },
                    ..self
                }
            },
        }
    }

    /// The state after the keys of `keys` were handled in order, up to and
    /// without a key that quits, and whether such a key was met.
    pub open spec fn drained(self, keys: Seq<Key>) -> (Metronome, bool)
        decreases keys.len(),
    {
        if keys.len() == 0 {
            (self, false)
        } else if action_of(keys[0]) == Action::Quit {
            (self, true)
        } else {
            self.applied(action_of(keys[0])).drained(keys.drop_first())
        }
    }

    /// The tempo that holds at `now`: the ramp's, where there is one.
    pub open spec fn tempo_at(self, now: u64) -> TempoState {
        match self.ramp {
            Some(ramp) => TempoState { bpm: ramp.bpm_at(now) as u16, ..self.tempo },
            None => self.tempo,
        }
    }

    /// The state once a tick has started at `now`. The tempo is brought up to
    /// date. While playing, the deadline moves on by one tick interval from
    /// where it stood; while paused, it is one interval from `now`. The
    /// position stays.
    pub open spec fn started(self, now: u64) -> Metronome {
        let tempo = self.tempo_at(now);
        Metronome {
            tempo,
            next_tick: if self.playing {
                later_by(self.next_tick, tempo.interval())
            } else {
                later_by(now, tempo.interval())
            },
            ..self
        }
    }

    /// The snapshot of this state.
    pub open spec fn event(self) -> TickEvent {
        TickEvent {
            is_accent: self.playing && self.position.accented(),
            beat_in_bar: self.position.beat_in_bar,
            tick_in_beat: self.position.tick_in_beat,
            bpm: self.tempo.bpm,
            signature: self.tempo.signature,
            playing: self.playing,
        }
    }

    /// `now` lies after the deadline.
    pub open spec fn late(self, now: u64) -> bool {
        now > self.next_tick
    }

    /// Whole tick intervals by which `now` lies after the deadline.
    pub open spec fn ticks_behind(self, now: u64) -> u64 {
        if now > self.next_tick && self.tempo.interval() > 0 {
            ((now - self.next_tick) / self.tempo.interval() as int) as u64
        } else {
            0
        }
    }

    /// The state once the tick has finished, the deadline having been checked
    /// at `now`. In time and playing: the position moves on by one tick. Late:
    /// the deadline becomes one interval from `now`, and while playing the
    /// position catches up by the whole ticks that were missed. Paused, the
    /// position stays.
    pub open spec fn finished(self, now: u64) -> Metronome {
        let ticks_per_beat = self.tempo.subdivision.ticks() as u8;
        if self.late(now) {
            Metronome {
                next_tick: later_by(now, self.tempo.interval()),
                position: if self.playing {
                    self.position.caught_up(
                        self.ticks_behind(now),
                        ticks_per_beat,
                        self.tempo.signature.numerator,
                    )
                } else {
                    self.position
                },
                ..self
            }
        } else if self.playing {
            Metronome {
                position: self.position.advanced(ticks_per_beat, self.tempo.signature.numerator),
                ..self
            }
        } else {
            self
        }
    }

    /// Whether this state is well formed. Every state that the library hands
    /// out is; a state put together by hand may not be.
    pub fn is_well_formed(&self) -> (ok: bool)
        ensures
            ok == self.wf(),
    {
        let d: u8 = self.tempo.signature.denominator;
        20 <= self.tempo.bpm && self.tempo.bpm <= 400 && self.tempo.signature.numerator >= 1 && (d
            == 1 || d == 2 || d == 4 || d == 8 || d == 16) && 1 <= self.position.beat_in_bar
            && self.position.beat_in_bar <= self.tempo.signature.numerator
    }

    /// Carries out `action` and says whether it asks to quit.
    pub fn apply(&mut self, action: Action) -> (quit: bool)
        requires
            old(self).wf(),
        ensures
            *final(self) == old(self).applied(action),
            quit == (action == Action::Quit),
            final(self).wf(),
    {
        match action {
            Action::Quit => {
                return true;
            },
            Action::Ignore => {},
            Action::TogglePlay => {
                self.playing = !self.playing;
            },
            Action::ToggleHelp => {
                self.show_help = !self.show_help;
            },
            Action::BpmUp => {
                self.tempo.bpm = clamp_bpm(self.tempo.bpm + 1);
            },
            Action::BpmDown => {
                self.tempo.bpm = clamp_bpm(self.tempo.bpm - 1);
            },
            Action::BpmUpFive => {
                self.tempo.bpm = clamp_bpm(self.tempo.bpm + 5);
            },
            Action::BpmDownFive => {
                self.tempo.bpm = clamp_bpm(self.tempo.bpm - 5);
            },
            Action::CycleSubdivision => {
                self.tempo.subdivision = self.tempo.subdivision.next();
            },
            Action::CycleSignature => {
                self.tempo.signature = self.tempo.signature.next();
                if self.position.beat_in_bar > self.tempo.signature.numerator {
                    self.position.beat_in_bar = 1;
                }
            },
        }
        false
    }

    /// Handles one key press and says whether it asks to quit.
    pub fn handle_key(&mut self, key: Key) -> (quit: bool)
        requires
            old(self).wf(),
        ensures
            *final(self) == old(self).applied(action_of(key)),
            quit == (action_of(key) == Action::Quit),
            final(self).wf(),
    {
        self.apply(key_action(key))
    }
}

impl Metronome {
    /// Handles a batch of key presses in the order they came. Every key is
    /// handled before the next wait, none is dropped; a key that quits ends
    /// the batch, and the keys behind it are left alone.
    pub fn drain_keys(&mut self, keys: &Vec<Key>) -> (quit: bool)
        requires
            old(self).wf(),
        ensures
            (*final(self), quit) == old(self).drained(keys@),
            final(self).wf(),
    {
        let mut i: usize = 0;
        assert(keys@.skip(0) == keys@);
        while i < keys.len()
            invariant
                i <= keys.len(),
                self.wf(),
                old(self).drained(keys@) == self.drained(keys@.skip(i as int)),
            decreases keys.len() - i,
        {
            let ghost rest = keys@.skip(i as int);
            assert(rest[0] == keys@[i as int]);
            assert(rest.drop_first() == keys@.skip(i + 1));
            if self.handle_key(keys[i]) {
                return true;
            }
            i += 1;
        }
        assert(keys@.skip(i as int).len() == 0);
        false
    }

    /// Starts a tick at clock reading `now` and hands back what is to be
    /// shown and sounded for it.
    pub fn start_tick(&mut self, now: u64) -> (event: TickEvent)
        requires
            old(self).wf(),
        ensures
            *final(self) == old(self).started(now),
            event == final(self).event(),
            final(self).position == old(self).position,
            final(self).wf(),
    {
        match self.ramp {
            Some(ramp) => {
                self.tempo.bpm = ramp.current_bpm(now);
            },
            None => {},
        }
        let interval: u64 = self.tempo.tick_interval();
        if self.playing {
            self.next_tick = self.next_tick.saturating_add(interval);
        } else {
            self.next_tick = now.saturating_add(interval);
        }
        TickEvent {
            is_accent: self.playing && self.position.is_accent(),
            beat_in_bar: self.position.beat_in_bar,
            tick_in_beat: self.position.tick_in_beat,
            bpm: self.tempo.bpm,
            signature: self.tempo.signature,
            playing: self.playing,
        }
    }

    /// How to pass the time from `now` to the deadline of the current tick.
    pub fn wait_step(&self, now: u64) -> (step: WaitStep)
        ensures
            step == wait_plan(self.next_tick, now),
    {
        wait_step(self.next_tick, now)
    }

    /// Finishes the tick whose deadline was checked at clock reading `now`.
    pub fn finish_tick(&mut self, now: u64)
        requires
            old(self).wf(),
        ensures
            *final(self) == old(self).finished(now),
            final(self).wf(),
            final(self).playing && (!old(self).late(now) || old(self).ticks_behind(now) > 0)
                ==> final(self).position.in_range(
                final(self).tempo.signature.numerator,
                final(self).tempo.subdivision.ticks() as u8,
            ),
    {
        let ticks_per_beat: u8 = self.tempo.subdivision.ticks_per_beat();
        let numerator: u8 = self.tempo.signature.numerator;
        if now > self.next_tick {
            let interval: u64 = self.tempo.tick_interval();
            let behind: u64 = (now - self.next_tick) / interval;
            self.next_tick = now.saturating_add(interval);
            if self.playing {
                self.position = self.position.catch_up(behind, ticks_per_beat, numerator);
            }
        } else if self.playing {
            self.position = self.position.advance(ticks_per_beat, numerator);
        }
    }
}

/// Polling with nothing to do leaves the position where it is: handling keys
/// that ask for nothing, however many, changes no part of the state; starting
/// a tick never moves the position; and a lateness check made at the very
/// deadline, with no time gone by, finds no tick to catch up.
pub proof fn lemma_idle_polls_keep_position(m: Metronome, keys: Seq<Key>, now: u64)
    requires
        forall|i: int| 0 <= i < keys.len() ==> action_of(#[trigger] keys[i]) == Action::Ignore,
    ensures
        m.drained(keys) == (m, false),
        m.drained(Seq::<Key>::empty()) == (m, false),
        m.started(now).position == m.position,
        m.ticks_behind(m.next_tick) == 0,
        m.position.caught_up(
            m.ticks_behind(m.next_tick),
            m.tempo.subdivision.ticks() as u8,
            m.tempo.signature.numerator,
        ) == m.position,
        !m.playing ==> m.finished(now).position == m.position,
    decreases keys.len(),
{
    if keys.len() > 0 {
        assert(action_of(keys[0]) == Action::Ignore);
        assert(m.applied(Action::Ignore) == m);
        lemma_idle_polls_keep_position(m, keys.drop_first(), now);
    }
}

/// The ramp that `cli` asks for: the one its ramp command spells out, where
/// there is such a command and its pattern can be read.
pub open spec fn ramp_asked(cli: Cli) -> Option<RampCfg> {
    match cli.command {
        Some(Commands::Ramp { pattern }) => ramp_of(pattern@),
        _ => None,
    }
}

/// The tempo a run begins with, before it is brought into the playable
/// range: where a ramp is asked for, the tempo the ramp starts from; else
/// the tapped tempo, where tapping was asked for and gave one; else the tempo
/// asked for.
pub open spec fn opening_bpm(cli: Cli, tapped: Option<u16>) -> u16 {
    match ramp_asked(cli) {
        Some(ramp) => ramp.from_bpm,
        None => match tapped {
            Some(bpm) => if cli.asks_tap() {
                bpm
            } else {
                cli.asked_bpm()
            },
            None => cli.asked_bpm(),
        },
    }
}

/// The state a run of `cli` begins in at clock reading `now`: playing, at
/// the first tick of the first beat, the help hidden, the first tick due at
/// once, the ramp, where one is asked for, beginning now.
pub open spec fn opening(cli: Cli, tapped: Option<u16>, now: u64, signature: (u8, u8))
    -> Metronome {
    Metronome {
        tempo: TempoState {
            bpm: clamp_bpm_spec(opening_bpm(cli, tapped) as int) as u16,
            signature: Signature { numerator: signature.0, denominator: signature.1 },
            subdivision: cli.subdivision,
        },
        position: PlaybackPosition { beat_in_bar: 1, tick_in_beat: 0 },
        playing: true,
        show_help: false,
        next_tick: now,
        ramp: match ramp_asked(cli) {
            Some(ramp) => Some(
                RampSpec {
                    from_bpm: ramp.from_bpm,
                    to_bpm: ramp.to_bpm,
                    duration_ms: ramp.duration_ms,
                    start: now,
                },
            ),
            None => None,
        },
    }
}

impl Metronome {
    /// Sets a run up from its settings, the tempo that tapping gave, if any,
    /// and the clock reading `now`. A signature that cannot be read is the
    /// one thing that fails; a ramp pattern that cannot be read gives a run
    /// without a ramp.
    pub fn start(cli: &Cli, tapped: Option<u16>, now: u64) -> (r: Result<Metronome, ParseError>)
        ensures
            match signature_of(cli.signature@) {
                Ok(signature) => r == Ok::<Metronome, ParseError>(
                    opening(*cli, tapped, now, signature),
                ),
                Err(e) => r == Err::<Metronome, ParseError>(e),
            },
            r matches Ok(m) ==> m.wf(),
            r matches Ok(m) ==> (m.ramp matches Some(ramp) ==> ramp.duration_ms >= 1),
    {
        let mut bpm: u16 = cli.requested_bpm();
        match tapped {
            Some(t) => {
                if cli.wants_tap() {
                    bpm = t;
                }
            },
            None => {},
        }
        let signature: (u8, u8) = match parse_signature(cli.signature.as_str()) {
            Ok(s) => s,
            Err(e) => {
                return Err(e);
            },
        };
        let mut ramp: Option<RampSpec> = None;
        match &cli.command {
            Some(Commands::Ramp { pattern }) => {
                match parse_ramp_pattern(pattern.as_str(), parse_duration_ms) {
                    Some(cfg) => {
                        ramp = Some(cfg.begin(now));
                        bpm = cfg.from_bpm;
                    },
                    None => {},
                }
            },
            _ => {},
        }
        Ok(
            Metronome {
                tempo: TempoState {
                    bpm: clamp_bpm(bpm),
                    signature: Signature { numerator: signature.0, denominator: signature.1 },
                    subdivision: cli.subdivision,
                },
                position: PlaybackPosition::start(),
                playing: true,
                show_help: false,
                next_tick: now,
                ramp,
            },
        )
    }
}

} // verus!
