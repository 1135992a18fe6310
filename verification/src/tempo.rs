//! Tempo arithmetic: the tick interval for a tempo and subdivision, and the
//! instantaneous tempo of a linear ramp.
//!
//! Everything is computed in integers. A tick interval is a whole number of
//! nanoseconds, rounded down; a ramp's tempo is the nearest whole number of
//! beats per minute, halves rounded up.

use vstd::prelude::*;
use vstd::arithmetic::div_mod::*;
use vstd::arithmetic::mul::*;
use crate::text::{
    chars_of, find_char, find_pair, first_index, first_pair, parse_unsigned, parse_unsigned_in,
    scaled_decimal, scaled_decimal_in, trim_in, trimmed,
};

verus! {

/// Slowest tempo the metronome plays, in beats per minute.
pub const MIN_BPM: u16 = 20;

/// Fastest tempo the metronome plays, in beats per minute.
pub const MAX_BPM: u16 = 400;

pub const NANOS_PER_MINUTE: u64 = 60_000_000_000;

pub const NANOS_PER_MILLI: u64 = 1_000_000;

/// `v` brought into the playable range.
pub open spec fn clamp_bpm_spec(v: int) -> int {
    if v < MIN_BPM as int {
        MIN_BPM as int
    } else if v > MAX_BPM as int {
        MAX_BPM as int
    } else {
        v
    }
}

pub open spec fn playable_bpm(v: int) -> bool {
    MIN_BPM as int <= v <= MAX_BPM as int
}

pub fn clamp_bpm(v: u16) -> (r: u16)
    ensures
        r == clamp_bpm_spec(v as int),
        playable_bpm(r as int),
{
    if v < MIN_BPM {
        MIN_BPM
    } else if v > MAX_BPM {
        MAX_BPM
    } else {
        v
    }
}

/// Length of one tick in nanoseconds: a minute shared out over
/// `bpm * ticks_per_beat` ticks, rounded down. A rate of zero ticks per minute
/// has no finite interval and is given the longest one there is.
pub open spec fn tick_interval_nanos(bpm: int, ticks_per_beat: int) -> int {
    if bpm * ticks_per_beat <= 0 {
        u64::MAX as int
    } else {
        NANOS_PER_MINUTE as int / (bpm * ticks_per_beat)
    }
}

pub fn tick_interval(bpm: u16, ticks_per_beat: u8) -> (nanos: u64)
    ensures
        nanos == tick_interval_nanos(bpm as int, ticks_per_beat as int),
        playable_bpm(bpm as int) && 1 <= ticks_per_beat <= 4 ==> 37_500_000 <= nanos
            <= 3_000_000_000,
{
    assert(0 <= bpm as int * ticks_per_beat as int <= 65535 * 255) by (nonlinear_arith);
    let ticks_per_minute: u64 = bpm as u64 * ticks_per_beat as u64;
    proof {
        if playable_bpm(bpm as int) && 1 <= ticks_per_beat <= 4 {
            lemma_tick_interval_exact(bpm as int, ticks_per_beat as int);
        }
    }
    if ticks_per_minute == 0 {
        u64::MAX
    } else {
        NANOS_PER_MINUTE / ticks_per_minute
    }
}

/// For every playable tempo and every subdivision the tick interval is
/// sixty thousand million nanoseconds divided by the tempo and then by the
/// ticks per beat, it differs from the exact quotient by less than one
/// nanosecond, and it is strictly positive.
pub proof fn lemma_tick_interval_exact(bpm: int, ticks_per_beat: int)
    requires
        playable_bpm(bpm),
        1 <= ticks_per_beat <= 4,
    ensures
        tick_interval_nanos(bpm, ticks_per_beat) == 60_000_000_000int / bpm / ticks_per_beat,
        tick_interval_nanos(bpm, ticks_per_beat) * (bpm * ticks_per_beat) <= 60_000_000_000int,
        60_000_000_000int < (tick_interval_nanos(bpm, ticks_per_beat) + 1) * (bpm
            * ticks_per_beat),
        37_500_000 <= tick_interval_nanos(bpm, ticks_per_beat) <= 3_000_000_000,
{
    let rate = bpm * ticks_per_beat;
    assert(20 <= rate <= 1600) by (nonlinear_arith)
        requires
            rate == bpm * ticks_per_beat,
            20 <= bpm <= 400,
            1 <= ticks_per_beat <= 4,
    ;
    let n = 60_000_000_000int / rate;
    lemma_div_denominator(60_000_000_000int, bpm, ticks_per_beat);
    lemma_fundamental_div_mod(60_000_000_000int, rate);
    lemma_mod_bound(60_000_000_000int, rate);
    assert(60_000_000_000int == rate * n + 60_000_000_000int % rate);
    lemma_mul_is_commutative(rate, n);
    lemma_mul_is_distributive_add_other_way(rate, n, 1);
    assert((n + 1) * rate == n * rate + rate);
    assert(n >= 37_500_000) by (nonlinear_arith)
        requires
            60_000_000_000int < (n + 1) * rate,
            20 <= rate <= 1600,
    ;
    assert(n <= 3_000_000_000) by (nonlinear_arith)
        requires
            n * rate <= 60_000_000_000int,
            20 <= rate <= 1600,
    ;
}

/// A tempo ramp as it is written down: from one tempo to another over a
/// number of milliseconds. A ramp that was read from a pattern lasts one
/// millisecond at least.
#[derive(Copy, Clone, Debug, PartialEq, Eq, Structural)]
pub struct RampCfg {
    pub from_bpm: u16,
    pub to_bpm: u16,
    pub duration_ms: u64,
}

/// A tempo ramp under way: the written ramp and the clock reading, in
/// nanoseconds, at which it began. It is never changed after it was made;
/// once its duration has passed it stays at its final tempo.
#[derive(Copy, Clone, Debug, PartialEq, Eq, Structural)]
pub struct RampSpec {
    pub from_bpm: u16,
    pub to_bpm: u16,
    pub duration_ms: u64,
    pub start: u64,
}

/// Whole milliseconds from `start` to `now`; none if `now` is not later.
pub open spec fn elapsed_millis(start: int, now: int) -> int {
    if now <= start {
        0
    } else {
        (now - start) / (NANOS_PER_MILLI as int)
    }
}

/// The whole number nearest to `n / d`, a half rounded up (`n >= 0`, `d > 0`).
pub open spec fn round_div(n: int, d: int) -> int {
    (2 * n + d) / (2 * d)
}

/// The time a ramp takes, in milliseconds: at least one.
pub open spec fn ramp_span(duration_ms: int) -> int {
    if duration_ms < 1 {
        1
    } else {
        duration_ms
    }
}

/// How much of the ramp's span has been covered after `elapsed_ms`.
pub open spec fn ramp_covered(duration_ms: int, elapsed_ms: int) -> int {
    if elapsed_ms > ramp_span(duration_ms) {
        ramp_span(duration_ms)
    } else {
        elapsed_ms
    }
}

/// The tempo of a ramp `elapsed_ms` after its start: the straight line from
/// `from` to `to`, taken at the covered fraction of the span, rounded to the
/// nearest whole tempo and brought into the playable range.
pub open spec fn ramp_bpm(from: int, to: int, duration_ms: int, elapsed_ms: int) -> int {
    let span = ramp_span(duration_ms);
    let covered = ramp_covered(duration_ms, elapsed_ms);
    clamp_bpm_spec(round_div(from * span + (to - from) * covered, span))
}

impl RampCfg {
    /// The ramp with these settings that begins at `now`.
    pub fn begin(self, now: u64) -> (r: RampSpec)
        ensures
            r == (RampSpec {
                from_bpm: self.from_bpm,
                to_bpm: self.to_bpm,
                duration_ms: self.duration_ms,
                start: now,
            }),
    {
        RampSpec {
            from_bpm: self.from_bpm,
            to_bpm: self.to_bpm,
            duration_ms: self.duration_ms,
            start: now,
        }
    }
}

impl RampSpec {
    /// The tempo this ramp has reached at clock reading `now`.
    pub open spec fn bpm_at(self, now: u64) -> int {
        ramp_bpm(
            self.from_bpm as int,
            self.to_bpm as int,
            self.duration_ms as int,
            elapsed_millis(self.start as int, now as int),
        )
    }

    pub fn current_bpm(&self, now: u64) -> (bpm: u16)
        ensures
            bpm == self.bpm_at(now),
            playable_bpm(bpm as int),
    {
        let elapsed: u64 = if now <= self.start {
            0
        } else {
            (now - self.start) / NANOS_PER_MILLI
        };
        let span: u128 = if self.duration_ms < 1 {
            1
        } else {
            self.duration_ms as u128
        };
        let covered: u128 = if elapsed as u128 > span {
            span
        } else {
            elapsed as u128
        };
        let from: u128 = self.from_bpm as u128;
        let to: u128 = self.to_bpm as u128;
        assert(from * span <= 65535 * 0xffff_ffff_ffff_ffff) by (nonlinear_arith)
            requires
                from <= 65535,
                span <= 0xffff_ffff_ffff_ffff,
        ;
        let base: u128 = from * span;
        let scaled: u128 = if to >= from {
            assert(0 <= (to - from) * covered <= 65535 * 0xffff_ffff_ffff_ffff) by (nonlinear_arith)
                requires
                    from <= to <= 65535,
                    0 <= covered <= 0xffff_ffff_ffff_ffff,
            ;
            base + (to - from) * covered
        } else {
            assert(0 <= (from - to) * covered <= from * span) by (nonlinear_arith)
                requires
                    0 <= to < from,
                    0 <= covered <= span,
            ;
            assert(from * span + (to - from) * covered == from * span - (from - to) * covered)
                by (nonlinear_arith);
            base - (from - to) * covered
        };
        assert(scaled == from * span + (to - from) * covered);
        let rounded: u128 = (2 * scaled + span) / (2 * span);
        assert(rounded == round_div(scaled as int, span as int));
        if rounded < MIN_BPM as u128 {
            MIN_BPM
        } else if rounded > MAX_BPM as u128 {
            MAX_BPM
        } else {
            rounded as u16
        }
    }
}

proof fn lemma_round_div_ordered(a: int, b: int, d: int)
    requires
        a <= b,
        0 < d,
    ensures
        round_div(a, d) <= round_div(b, d),
{
    lemma_div_is_ordered(2 * a + d, 2 * b + d, 2 * d);
}

proof fn lemma_round_div_of_multiple(v: int, d: int)
    requires
        0 <= v,
        0 < d,
    ensures
        round_div(v * d, d) == v,
{
    assert(2 * (v * d) + d == (2 * d) * v + d) by (nonlinear_arith);
    lemma_div_multiples_vanish_fancy(v, d, 2 * d);
}

/// The tempo of a ramp never moves against its direction as time passes:
/// with `to >= from` it does not fall, with `to <= from` it does not rise.
pub proof fn lemma_ramp_bpm_monotonic(from: int, to: int, duration_ms: int, e1: int, e2: int)
    requires
        e1 <= e2,
    ensures
        from <= to ==> ramp_bpm(from, to, duration_ms, e1) <= ramp_bpm(from, to, duration_ms, e2),
        to <= from ==> ramp_bpm(from, to, duration_ms, e1) >= ramp_bpm(from, to, duration_ms, e2),
{
    let span = ramp_span(duration_ms);
    let c1 = ramp_covered(duration_ms, e1);
    let c2 = ramp_covered(duration_ms, e2);
    assert(c1 <= c2);
    if from <= to {
        assert((to - from) * c1 <= (to - from) * c2) by (nonlinear_arith)
            requires
                c1 <= c2,
                from <= to,
        ;
        lemma_round_div_ordered(from * span + (to - from) * c1, from * span + (to - from) * c2, span);
    }
    if to <= from {
        assert((to - from) * c1 >= (to - from) * c2) by (nonlinear_arith)
            requires
                c1 <= c2,
                to <= from,
        ;
        lemma_round_div_ordered(from * span + (to - from) * c2, from * span + (to - from) * c1, span);
    }
}

/// From the end of its span on, a ramp stays at its final tempo, brought into
/// the playable range; a playable final tempo is reached exactly.
pub proof fn lemma_ramp_bpm_settles(from: int, to: int, duration_ms: int, elapsed_ms: int)
    requires
        0 <= to,
        elapsed_ms >= ramp_span(duration_ms),
    ensures
        ramp_bpm(from, to, duration_ms, elapsed_ms) == clamp_bpm_spec(to),
        playable_bpm(to) ==> ramp_bpm(from, to, duration_ms, elapsed_ms) == to,
{
    let span = ramp_span(duration_ms);
    assert(from * span + (to - from) * span == to * span) by (nonlinear_arith);
    lemma_round_div_of_multiple(to, span);
}

/// The tempo of a running ramp is monotonic in the clock reading, in the
/// direction of the ramp, and once its span has elapsed it is the final tempo
/// (where that tempo is playable, and otherwise the nearest playable one) for
/// good.
pub proof fn lemma_current_bpm_over_time(ramp: RampSpec, t1: u64, t2: u64)
    requires
        t1 <= t2,
    ensures
        ramp.from_bpm <= ramp.to_bpm ==> ramp.bpm_at(t1) <= ramp.bpm_at(t2),
        ramp.to_bpm <= ramp.from_bpm ==> ramp.bpm_at(t1) >= ramp.bpm_at(t2),
        elapsed_millis(ramp.start as int, t1 as int) >= ramp_span(ramp.duration_ms as int)
            ==> ramp.bpm_at(t1) == clamp_bpm_spec(ramp.to_bpm as int) && ramp.bpm_at(t2)
            == ramp.bpm_at(t1),
        elapsed_millis(ramp.start as int, t1 as int) >= ramp_span(ramp.duration_ms as int)
            && playable_bpm(ramp.to_bpm as int) ==> ramp.bpm_at(t1) == ramp.to_bpm,
{
    let e1 = elapsed_millis(ramp.start as int, t1 as int);
    let e2 = elapsed_millis(ramp.start as int, t2 as int);
    if t1 > ramp.start {
        lemma_div_is_ordered(t1 - ramp.start, t2 - ramp.start, NANOS_PER_MILLI as int);
    } else if t2 > ramp.start {
        lemma_div_pos_is_pos(t2 - ramp.start, NANOS_PER_MILLI as int);
    }
    assert(e1 <= e2);
    lemma_ramp_bpm_monotonic(
        ramp.from_bpm as int,
        ramp.to_bpm as int,
        ramp.duration_ms as int,
        e1,
        e2,
    );
    if e1 >= ramp_span(ramp.duration_ms as int) {
        lemma_ramp_bpm_settles(ramp.from_bpm as int, ramp.to_bpm as int, ramp.duration_ms as int, e1);
        lemma_ramp_bpm_settles(ramp.from_bpm as int, ramp.to_bpm as int, ramp.duration_ms as int, e2);
    }
}

/// Why a piece of configuration text was turned down.
#[derive(Copy, Clone, Debug, PartialEq, Eq, Structural)]
pub enum ParseError {
    /// A signature that is not two parts with one `/` between them.
    InvalidFormat,
    /// A numerator that is no whole number from 1 to 255.
    InvalidNumerator,
    /// A denominator that is not one of 1, 2, 4, 8 and 16.
    InvalidDenominator,
    /// A duration whose number cannot be read.
    InvalidDuration,
}

impl ParseError {
    pub open spec fn message_text(self) -> Seq<char> {
        match self {
            ParseError::InvalidFormat => "signature must be in the form M/N"@,
            ParseError::InvalidNumerator => "numerator must be a whole number >= 1"@,
            ParseError::InvalidDenominator => "denominator must be one of 1,2,4,8,16"@,
            ParseError::InvalidDuration => "invalid duration"@,
        }
    }

    /// A sentence for the user.
    pub fn message(&self) -> (text: &'static str)
        ensures
            text@ == self.message_text(),
    {
        match self {
            ParseError::InvalidFormat => "signature must be in the form M/N",
            ParseError::InvalidNumerator => "numerator must be a whole number >= 1",
            ParseError::InvalidDenominator => "denominator must be one of 1,2,4,8,16",
            ParseError::InvalidDuration => "invalid duration",
        }
    }
}

/// The denominators a time signature may have.
pub open spec fn legal_denominator(d: int) -> bool {
    d == 1 || d == 2 || d == 4 || d == 8 || d == 16
}

/// What a signature text says. The text must hold exactly one `/`, or else
/// the format is at fault. What stands before the `/` must be a whole number
/// from 1 to 255, or else the numerator is at fault. Only then is what stands
/// behind the `/` looked at: it must be one of the whole numbers 1, 2, 4, 8
/// and 16, or else the denominator is at fault.
pub open spec fn signature_of(text: Seq<char>) -> Result<(u8, u8), ParseError> {
    let slash = first_index(text, '/');
    if slash >= text.len() || first_index(text.skip(slash + 1), '/') < text.skip(slash + 1).len() {
        Err(ParseError::InvalidFormat)
    } else {
        match parse_unsigned(text.take(slash), 255) {
            None => Err(ParseError::InvalidNumerator),
            Some(numerator) => if numerator == 0 {
                Err(ParseError::InvalidNumerator)
            } else {
                match parse_unsigned(text.skip(slash + 1), 255) {
                    None => Err(ParseError::InvalidDenominator),
                    Some(denominator) => if legal_denominator(denominator as int) {
                        Ok((numerator as u8, denominator as u8))
                    } else {
                        Err(ParseError::InvalidDenominator)
                    },
                }
            },
        }
    }
}

/// Reads a time signature such as `4/4` or `6/8`.
pub fn parse_signature(sig: &str) -> (r: Result<(u8, u8), ParseError>)
    ensures
        r == signature_of(sig@),
        r matches Ok(s) ==> s.0 >= 1 && legal_denominator(s.1 as int),
{
    let text: Vec<char> = chars_of(sig);
    let n: usize = text.len();
    let slash: usize = find_char(&text, 0, n, '/');
    assert(text@.subrange(0, n as int) == text@);
    if slash >= n {
        return Err(ParseError::InvalidFormat);
    }
    let second: usize = find_char(&text, slash + 1, n, '/');
    assert(text@.subrange(slash + 1, n as int) == text@.skip(slash + 1));
    if second < n {
        return Err(ParseError::InvalidFormat);
    }
    assert(text@.subrange(0, slash as int) == text@.take(slash as int));
    let numerator: u64 = match parse_unsigned_in(&text, 0, slash, 255) {
        Some(v) => v,
        None => {
            return Err(ParseError::InvalidNumerator);
        },
    };
    if numerator == 0 {
        return Err(ParseError::InvalidNumerator);
    }
    let denominator: u64 = match parse_unsigned_in(&text, slash + 1, n, 255) {
        Some(v) => v,
        None => {
            return Err(ParseError::InvalidDenominator);
        },
    };
    if denominator == 1 || denominator == 2 || denominator == 4 || denominator == 8 || denominator
        == 16 {
        Ok((numerator as u8, denominator as u8))
    } else {
        Err(ParseError::InvalidDenominator)
    }
}

pub const MILLIS_PER_SECOND: u64 = 1_000;

pub const MILLIS_PER_MINUTE: u64 = 60_000;

/// The milliseconds a duration text stands for, where it is one. A text
/// that ends in `ms` is a whole number of milliseconds before that; one that
/// ends in `s` is a decimal number of seconds, one that ends in `m` a decimal
/// number of minutes, with or without a sign and an exponent, each turned
/// into whole milliseconds with the rest dropped; any other text is a whole
/// number of milliseconds. The endings are tried in this order and the first
/// that fits decides.
pub open spec fn duration_ms_of(text: Seq<char>) -> Option<u64> {
    let n = text.len() as int;
    if n >= 2 && text[n - 2] == 'm' && text[n - 1] == 's' {
        match parse_unsigned(text.take(n - 2), u64::MAX as nat) {
            Some(ms) => Some(ms as u64),
            None => None,
        }
    } else if n >= 1 && text[n - 1] == 's' {
        scaled_decimal(text.take(n - 1), MILLIS_PER_SECOND as nat)
    } else if n >= 1 && text[n - 1] == 'm' {
        scaled_decimal(text.take(n - 1), MILLIS_PER_MINUTE as nat)
    } else {
        match parse_unsigned(text, u64::MAX as nat) {
            Some(ms) => Some(ms as u64),
            None => None,
        }
    }
}

/// Reads a duration such as `250ms`, `1.5s`, `2m` or `250` as milliseconds.
pub fn parse_duration_ms(src: &str) -> (r: Result<u64, ParseError>)
    ensures
        r == match duration_ms_of(src@) {
            Some(ms) => Ok::<u64, ParseError>(ms),
            None => Err(ParseError::InvalidDuration),
        },
{
    let text: Vec<char> = chars_of(src);
    let n: usize = text.len();
    let parsed: Option<u64> = if n >= 2 && text[n - 2] == 'm' && text[n - 1] == 's' {
        assert(text@.subrange(0, n - 2) == text@.take(n - 2));
        parse_unsigned_in(&text, 0, n - 2, u64::MAX)
    } else if n >= 1 && text[n - 1] == 's' {
        assert(text@.subrange(0, n - 1) == text@.take(n - 1));
        scaled_decimal_in(&text, 0, n - 1, MILLIS_PER_SECOND)
    } else if n >= 1 && text[n - 1] == 'm' {
        assert(text@.subrange(0, n - 1) == text@.take(n - 1));
        scaled_decimal_in(&text, 0, n - 1, MILLIS_PER_MINUTE)
    } else {
        assert(text@.subrange(0, n as int) == text@);
        parse_unsigned_in(&text, 0, n, u64::MAX)
    };
    match parsed {
        Some(ms) => Ok(ms),
        None => Err(ParseError::InvalidDuration),
    }
}

/// The three fields of a ramp pattern `FROM..TO@DURATION`: the two tempos and
/// the text of the duration. The pattern is cut at its first `@`, and what
/// stands before that at its first `..`. The tempos, blank space at their ends
/// set aside, must each be a whole number of at most 65535. The duration text
/// is handed on without the blank space at its ends.
pub open spec fn ramp_fields(p: Seq<char>) -> Option<(u16, u16, Seq<char>)> {
    let at = first_index(p, '@');
    let range = p.take(at);
    let dots = first_pair(range, '.');
    if at >= p.len() || dots >= range.len() {
        None
    } else {
        match parse_unsigned(trimmed(range.take(dots)), 65535) {
            None => None,
            Some(from) => match parse_unsigned(trimmed(range.skip(dots + 2)), 65535) {
                None => None,
                Some(to) => Some((from as u16, to as u16, trimmed(p.skip(at + 1)))),
            },
        }
    }
}

/// The duration a ramp is given for a duration of `ms` milliseconds as read:
/// a ramp lasts one millisecond at least.
pub open spec fn ramp_duration(ms: u64) -> u64 {
    if ms < 1 {
        1
    } else {
        ms
    }
}

/// The ramp made of the two tempos and of what the duration reader made of
/// the duration text: none where the reader turned the text down.
pub open spec fn ramp_from<E>(from: u16, to: u16, duration: Result<u64, E>) -> Option<RampCfg> {
    match duration {
        Ok(ms) => Some(RampCfg { from_bpm: from, to_bpm: to, duration_ms: ramp_duration(ms) }),
        Err(_) => None,
    }
}

/// What a ramp pattern says when its duration is read by `parse_duration_ms`.
pub open spec fn ramp_of(p: Seq<char>) -> Option<RampCfg> {
    match ramp_fields(p) {
        None => None,
        Some((from, to, text)) => match duration_ms_of(text) {
            Some(ms) => Some(
                RampCfg { from_bpm: from, to_bpm: to, duration_ms: ramp_duration(ms) },
            ),
            None => None,
        },
    }
}

/// Reads a ramp pattern such as `80..140@30s`, leaving the duration to
/// `parse_duration_ms_fn`. A pattern that cannot be read gives no ramp.
pub fn parse_ramp_pattern<E, F: Fn(&str) -> Result<u64, E>>(p: &str, parse_duration_ms_fn: F) -> (r:
    Option<RampCfg>)
    requires
        forall|s: &str| call_requires(parse_duration_ms_fn, (s,)),
    ensures
        ramp_fields(p@) is None ==> r is None,
        ramp_fields(p@) matches Some(fields) ==> exists|s: &str, d: Result<u64, E>|
            s@ == fields.2 && #[trigger] call_ensures(parse_duration_ms_fn, (s,), d) && r
                == ramp_from(fields.0, fields.1, d),
        r matches Some(ramp) ==> ramp.duration_ms >= 1,
{
    let text: Vec<char> = chars_of(p);
    let n: usize = text.len();
    let at: usize = find_char(&text, 0, n, '@');
    assert(text@.subrange(0, n as int) == text@);
    let dots: usize = find_pair(&text, 0, at, '.');
    assert(text@.subrange(0, at as int) == text@.take(at as int));
    if at >= n || dots >= at {
        return None;
    }
    let ghost range = text@.take(at as int);
    let from_window: (usize, usize) = trim_in(&text, 0, dots);
    assert(text@.subrange(0, dots as int) == range.take(dots as int));
    let from: u64 = match parse_unsigned_in(&text, from_window.0, from_window.1, 65535) {
        Some(v) => v,
        None => {
            return None;
        },
    };
    let to_window: (usize, usize) = trim_in(&text, dots + 2, at);
    assert(text@.subrange(dots + 2, at as int) == range.skip(dots + 2));
    let to: u64 = match parse_unsigned_in(&text, to_window.0, to_window.1, 65535) {
        Some(v) => v,
        None => {
            return None;
        },
    };
    let duration_window: (usize, usize) = trim_in(&text, at + 1, n);
    assert(text@.subrange(at + 1, n as int) == text@.skip(at + 1));
    let duration_text: &str = p.substring_char(duration_window.0, duration_window.1);
    let duration: Result<u64, E> = parse_duration_ms_fn(duration_text);
    match duration {
        Ok(ms) => Some(
            RampCfg {
                from_bpm: from as u16,
                to_bpm: to as u16,
                duration_ms: if ms < 1 {
                    1
                } else {
                    ms
                },
            },
        ),
        Err(_) => None,
    }
}

} // verus!
