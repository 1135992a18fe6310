//! Reading numbers and finding separators in text.
//!
//! Text is handled as a sequence of characters; the functions here work on a
//! window `[lo, hi)` of a character vector and are specified over the
//! sequence that the window holds.

use vstd::prelude::*;
use vstd::arithmetic::div_mod::*;
use vstd::arithmetic::mul::*;

verus! {

pub open spec fn is_digit(c: char) -> bool {
    '0' <= c && c <= '9'
}

/// The number a decimal digit stands for.
pub open spec fn digit_value(c: char) -> nat {
    (c as u32 - '0' as u32) as nat
}

pub open spec fn all_digits(s: Seq<char>) -> bool {
    forall|i: int| 0 <= i < s.len() ==> is_digit(#[trigger] s[i])
}

/// The number that a run of decimal digits stands for; nothing for no digit.
pub open spec fn digits_value(s: Seq<char>) -> nat
    decreases s.len(),
{
    if s.len() == 0 {
        0
    } else {
        10 * digits_value(s.drop_last()) + digit_value(s.last())
    }
}

/// The digits of an unsigned whole number written as one or more decimal
/// digits, with or without a plus sign in front. Anything else, a blank or a
/// minus sign too, is no number.
pub open spec fn unsigned_digits(s: Seq<char>) -> Option<Seq<char>> {
    let body = if s.len() > 0 && s[0] == '+' {
        s.skip(1)
    } else {
        s
    };
    if body.len() > 0 && all_digits(body) {
        Some(body)
    } else {
        None
    }
}

/// The value of `s` read as an unsigned whole number, where it is one and
/// does not exceed `max`.
pub open spec fn parse_unsigned(s: Seq<char>, max: nat) -> Option<nat> {
    match unsigned_digits(s) {
        Some(digits) => if digits_value(digits) <= max {
            Some(digits_value(digits))
        } else {
            None
        },
        None => None,
    }
}

/// Appending a digit multiplies by ten and adds the digit.
pub proof fn lemma_digits_value_step(s: Seq<char>, k: int)
    requires
        0 <= k < s.len(),
    ensures
        digits_value(s.take(k + 1)) == 10 * digits_value(s.take(k)) + digit_value(s[k]),
{
    assert(s.take(k + 1).drop_last() == s.take(k));
}

/// A run of digits is worth at least as much as any of its beginnings.
pub proof fn lemma_digits_value_prefix(s: Seq<char>, k: int)
    requires
        0 <= k <= s.len(),
    ensures
        digits_value(s.take(k)) <= digits_value(s),
    decreases s.len(),
{
    if k == s.len() {
        assert(s.take(k) == s);
    } else {
        lemma_digits_value_prefix(s.drop_last(), k);
        assert(s.drop_last().take(k) == s.take(k));
    }
}

/// The characters of `s`, one by one.
pub fn chars_of(s: &str) -> (v: Vec<char>)
    ensures
        v@ == s@,
{
    let n: usize = s.unicode_len();
    let mut v: Vec<char> = Vec::new();
    let mut i: usize = 0;
    while i < n
        invariant
            n == s@.len(),
            i <= n,
            v@ == s@.take(i as int),
        decreases n - i,
    {
        v.push(s.get_char(i));
        i += 1;
        assert(v@ == s@.take(i as int));
    }
    assert(s@.take(n as int) == s@);
    v
}

/// Reads the window `[lo, hi)` of `text` as an unsigned whole number of at
/// most `max`.
pub fn parse_unsigned_in(text: &Vec<char>, lo: usize, hi: usize, max: u64) -> (r: Option<u64>)
    requires
        lo <= hi <= text.len(),
    ensures
        match r {
            Some(v) => parse_unsigned(text@.subrange(lo as int, hi as int), max as nat) == Some(
                v as nat,
            ),
            None => parse_unsigned(text@.subrange(lo as int, hi as int), max as nat) is None,
        },
{
    let ghost s = text@.subrange(lo as int, hi as int);
    let start: usize = if lo < hi && text[lo] == '+' {
        lo + 1
    } else {
        lo
    };
    let ghost body = text@.subrange(start as int, hi as int);
    assert(body == if s.len() > 0 && s[0] == '+' {
        s.skip(1)
    } else {
        s
    });
    if start == hi {
        return None;
    }
    let mut acc: u64 = 0;
    let mut i: usize = start;
    while i < hi
        invariant
            lo <= start <= i <= hi <= text.len(),
            s == text@.subrange(lo as int, hi as int),
            body == text@.subrange(start as int, hi as int),
            body == if s.len() > 0 && s[0] == '+' {
                s.skip(1)
            } else {
                s
            },
            all_digits(body.take(i - start)),
            acc == digits_value(body.take(i - start)),
            acc <= max,
        decreases hi - i,
    {
        let c: char = text[i];
        assert(body[i - start] == c);
        if !(c >= '0' && c <= '9') {
            assert(!is_digit(body[i - start]));
            return None;
        }
        let d: u64 = (c as u32 - '0' as u32) as u64;
        proof {
            lemma_digits_value_step(body, i - start);
            lemma_digits_value_prefix(body, i - start + 1);
        }
        if d > max || acc > (max - d) / 10 {
            assert(10 * acc + d > max);
            return None;
        }
        acc = acc * 10 + d;
        i += 1;
        assert forall|j: int| 0 <= j < body.take(i - start).len() implies is_digit(
            #[trigger] body.take(i - start)[j],
        ) by {
            if j < i - start - 1 {
                assert(body.take(i - start - 1)[j] == body[j]);
            }
        }
    }
    assert(body.take(hi - start) == body);
    Some(acc)
}

/// `i` is the first place in `s` at which `c` stands, or the length of `s`
/// where `c` does not occur.
pub open spec fn is_first_index(s: Seq<char>, c: char, i: int) -> bool {
    &&& 0 <= i <= s.len()
    &&& forall|j: int| 0 <= j < i ==> #[trigger] s[j] != c
    &&& i < s.len() ==> s[i] == c
}

/// The first place in `s` at which `c` stands, or the length of `s`.
pub open spec fn first_index(s: Seq<char>, c: char) -> int {
    choose|i: int| is_first_index(s, c, i)
}

pub proof fn lemma_first_index(s: Seq<char>, c: char, i: int)
    requires
        is_first_index(s, c, i),
    ensures
        first_index(s, c) == i,
{
    let k = first_index(s, c);
    assert(is_first_index(s, c, k));
    if k < i {
        assert(s[k] != c);
    } else if i < k {
        assert(s[i] != c);
    }
}

/// `c` stands at `j` and again right behind it.
pub open spec fn pair_at(s: Seq<char>, c: char, j: int) -> bool {
    0 <= j && j + 1 < s.len() && s[j] == c && s[j + 1] == c
}

/// `i` is the first place in `s` at which `c` stands twice in a row, or the
/// length of `s` where it never does.
pub open spec fn is_first_pair(s: Seq<char>, c: char, i: int) -> bool {
    &&& 0 <= i <= s.len()
    &&& forall|j: int| 0 <= j < i ==> !#[trigger] pair_at(s, c, j)
    &&& i < s.len() ==> pair_at(s, c, i)
}

/// The first place in `s` at which `c` stands twice in a row, or the length
/// of `s`.
pub open spec fn first_pair(s: Seq<char>, c: char) -> int {
    choose|i: int| is_first_pair(s, c, i)
}

pub proof fn lemma_first_pair(s: Seq<char>, c: char, i: int)
    requires
        is_first_pair(s, c, i),
    ensures
        first_pair(s, c) == i,
{
    let k = first_pair(s, c);
    assert(is_first_pair(s, c, k));
    if k < i {
        assert(!pair_at(s, c, k));
    } else if i < k {
        assert(!pair_at(s, c, i));
    }
}

/// The characters that count as blank space: tab to carriage return, the
/// space, next line, the no-break spaces, the Ogham space mark, the spaces of
/// fixed width, line and paragraph separator, and the ideographic space.
pub open spec fn is_whitespace(c: char) -> bool {
    let u = c as u32;
    ||| 0x09 <= u <= 0x0D
    ||| u == 0x20
    ||| u == 0x85
    ||| u == 0xA0
    ||| u == 0x1680
    ||| 0x2000 <= u <= 0x200A
    ||| u == 0x2028
    ||| u == 0x2029
    ||| u == 0x202F
    ||| u == 0x205F
    ||| u == 0x3000
}

pub fn whitespace(c: char) -> (b: bool)
    ensures
        b == is_whitespace(c),
{
    let u: u32 = c as u32;
    (0x09 <= u && u <= 0x0D) || u == 0x20 || u == 0x85 || u == 0xA0 || u == 0x1680 || (0x2000 <= u
        && u <= 0x200A) || u == 0x2028 || u == 0x2029 || u == 0x202F || u == 0x205F || u == 0x3000
}

/// `[b, e)` is what is left of `s` when the blank space at both ends is taken
/// away.
pub open spec fn trim_bounds(s: Seq<char>, b: int, e: int) -> bool {
    &&& 0 <= b <= e <= s.len()
    &&& forall|j: int| 0 <= j < b ==> is_whitespace(#[trigger] s[j])
    &&& forall|j: int| e <= j < s.len() ==> is_whitespace(#[trigger] s[j])
    &&& b < e ==> !is_whitespace(s[b]) && !is_whitespace(s[e - 1])
}

/// `s` without the blank space at its two ends.
pub open spec fn trimmed(s: Seq<char>) -> Seq<char> {
    let p = choose|p: (int, int)| trim_bounds(s, p.0, p.1);
    s.subrange(p.0, p.1)
}

pub proof fn lemma_trimmed(s: Seq<char>, b: int, e: int)
    requires
        trim_bounds(s, b, e),
    ensures
        trimmed(s) == s.subrange(b, e),
{
    let p = choose|p: (int, int)| trim_bounds(s, p.0, p.1);
    assert(trim_bounds(s, (b, e).0, (b, e).1));
    assert(trim_bounds(s, p.0, p.1));
    if b < e {
        assert(!is_whitespace(s[b]));
        assert(!is_whitespace(s[e - 1]));
        if p.0 < p.1 {
            assert(!is_whitespace(s[p.0]));
            assert(!is_whitespace(s[p.1 - 1]));
        }
        assert(p.0 == b);
        assert(p.1 == e);
    } else {
        if p.0 < p.1 {
            assert(!is_whitespace(s[p.0]));
        }
        assert(s.subrange(p.0, p.1) == s.subrange(b, e));
    }
}

/// Finds the first `c` in the window `[lo, hi)` of `text`; `hi` if there is
/// none.
pub fn find_char(text: &Vec<char>, lo: usize, hi: usize, c: char) -> (i: usize)
    requires
        lo <= hi <= text.len(),
    ensures
        lo <= i <= hi,
        i - lo == first_index(text@.subrange(lo as int, hi as int), c),
        is_first_index(text@.subrange(lo as int, hi as int), c, i - lo),
{
    let ghost s = text@.subrange(lo as int, hi as int);
    let mut i: usize = lo;
    while i < hi && text[i] != c
        invariant
            lo <= i <= hi <= text.len(),
            s == text@.subrange(lo as int, hi as int),
            forall|j: int| 0 <= j < i - lo ==> #[trigger] s[j] != c,
        decreases hi - i,
    {
        assert(s[i - lo] == text@[i as int]);
        i += 1;
    }
    proof {
        if i < hi {
            assert(s[i - lo] == text@[i as int]);
        }
        lemma_first_index(s, c, i - lo);
    }
    i
}

/// Finds the first place in the window `[lo, hi)` of `text` at which `c`
/// stands twice in a row; `hi` if there is none.
pub fn find_pair(text: &Vec<char>, lo: usize, hi: usize, c: char) -> (i: usize)
    requires
        lo <= hi <= text.len(),
    ensures
        lo <= i <= hi,
        i - lo == first_pair(text@.subrange(lo as int, hi as int), c),
        is_first_pair(text@.subrange(lo as int, hi as int), c, i - lo),
{
    let ghost s = text@.subrange(lo as int, hi as int);
    let mut i: usize = lo;
    while i < hi
        invariant
            lo <= i <= hi <= text.len(),
            s == text@.subrange(lo as int, hi as int),
            forall|j: int| 0 <= j < i - lo ==> !#[trigger] pair_at(s, c, j),
        decreases hi - i,
    {
        if i + 1 < hi && text[i] == c && text[i + 1] == c {
            proof {
                assert(s[i - lo] == text@[i as int]);
                assert(s[i - lo + 1] == text@[i + 1]);
                lemma_first_pair(s, c, i - lo);
            }
            return i;
        }
        proof {
            if i + 1 < hi {
                assert(s[i - lo] == text@[i as int]);
                assert(s[i - lo + 1] == text@[i + 1]);
            }
            assert(!pair_at(s, c, i - lo));
        }
        i += 1;
    }
    proof {
        lemma_first_pair(s, c, hi - lo);
    }
    hi
}

/// Narrows the window `[lo, hi)` of `text` to what is left without the blank
/// space at both ends.
pub fn trim_in(text: &Vec<char>, lo: usize, hi: usize) -> (r: (usize, usize))
    requires
        lo <= hi <= text.len(),
    ensures
        lo <= r.0 <= r.1 <= hi,
        text@.subrange(r.0 as int, r.1 as int) == trimmed(text@.subrange(lo as int, hi as int)),
{
    let ghost s = text@.subrange(lo as int, hi as int);
    let mut b: usize = lo;
    while b < hi && whitespace(text[b])
        invariant
            lo <= b <= hi <= text.len(),
            s == text@.subrange(lo as int, hi as int),
            forall|j: int| 0 <= j < b - lo ==> is_whitespace(#[trigger] s[j]),
        decreases hi - b,
    {
        assert(s[b - lo] == text@[b as int]);
        b += 1;
    }
    let mut e: usize = hi;
    while e > b && whitespace(text[e - 1])
        invariant
            lo <= b <= e <= hi <= text.len(),
            s == text@.subrange(lo as int, hi as int),
            forall|j: int| e - lo <= j < s.len() ==> is_whitespace(#[trigger] s[j]),
        decreases e - b,
    {
        assert(s[e - 1 - lo] == text@[e - 1]);
        e -= 1;
    }
    proof {
        if b < e {
            assert(s[b - lo] == text@[b as int]);
            assert(s[e - 1 - lo] == text@[e - 1]);
        }
        lemma_trimmed(s, b - lo, e - lo);
        assert(s.subrange(b - lo, e - lo) == text@.subrange(b as int, e as int));
    }
    (b, e)
}

/// Ten to the power of `n`.
pub open spec fn pow10(n: nat) -> nat
    decreases n,
{
    if n == 0 {
        1
    } else {
        10 * pow10((n - 1) as nat)
    }
}

/// `v`, held at the largest value a `u64` can take.
pub open spec fn saturated(v: int) -> u64 {
    if v > u64::MAX {
        u64::MAX
    } else if v < 0 {
        0
    } else {
        v as u64
    }
}

/// `c` is the letter written `lower` in small and `upper` in capital.
pub open spec fn is_letter(c: char, lower: char, upper: char) -> bool {
    c == lower || c == upper
}

/// The word `nan`, in small or capital letters.
pub open spec fn is_nan_word(s: Seq<char>) -> bool {
    &&& s.len() == 3
    &&& is_letter(s[0], 'n', 'N')
    &&& is_letter(s[1], 'a', 'A')
    &&& is_letter(s[2], 'n', 'N')
}

/// The word `inf` or the word `infinity`, in small or capital letters.
pub open spec fn is_inf_word(s: Seq<char>) -> bool {
    &&& s.len() == 3 || s.len() == 8
    &&& is_letter(s[0], 'i', 'I')
    &&& is_letter(s[1], 'n', 'N')
    &&& is_letter(s[2], 'f', 'F')
    &&& s.len() == 8 ==> {
        &&& is_letter(s[3], 'i', 'I')
        &&& is_letter(s[4], 'n', 'N')
        &&& is_letter(s[5], 'i', 'I')
        &&& is_letter(s[6], 't', 'T')
        &&& is_letter(s[7], 'y', 'Y')
    }
}

/// `i` is the first place in `s` at which the letter `e` stands, small or
/// capital, or the length of `s` where it does not occur.
pub open spec fn is_exponent_mark(s: Seq<char>, i: int) -> bool {
    &&& 0 <= i <= s.len()
    &&& forall|j: int| 0 <= j < i ==> !is_letter(#[trigger] s[j], 'e', 'E')
    &&& i < s.len() ==> is_letter(s[i], 'e', 'E')
}

/// The first place in `s` at which the letter `e` stands, or the length of
/// `s`.
pub open spec fn exponent_mark(s: Seq<char>) -> int {
    choose|i: int| is_exponent_mark(s, i)
}

pub proof fn lemma_exponent_mark(s: Seq<char>, i: int)
    requires
        is_exponent_mark(s, i),
    ensures
        exponent_mark(s) == i,
{
    let k = exponent_mark(s);
    assert(is_exponent_mark(s, k));
    if k < i {
        assert(!is_letter(s[k], 'e', 'E'));
    } else if i < k {
        assert(!is_letter(s[i], 'e', 'E'));
    }
}

/// The exponent written by `s`: an optional sign, `+` or `-`, and then one or
/// more digits.
pub open spec fn exponent_of(s: Seq<char>) -> Option<int> {
    let signed = s.len() > 0 && (s[0] == '+' || s[0] == '-');
    let digits = if signed {
        s.skip(1)
    } else {
        s
    };
    if digits.len() > 0 && all_digits(digits) {
        Some(
            if s[0] == '-' {
                -(digits_value(digits) as int)
            } else {
                digits_value(digits) as int
            },
        )
    } else {
        None
    }
}

/// The digits before the point and the digits behind it in `s`: digits with
/// at most one point among them, before, between or behind the digits, with
/// one digit at least.
pub open spec fn mantissa_parts(s: Seq<char>) -> Option<(Seq<char>, Seq<char>)> {
    let point = first_index(s, '.');
    let whole = s.take(point);
    let fraction = if point < s.len() {
        s.skip(point + 1)
    } else {
        Seq::<char>::empty()
    };
    if all_digits(whole) && all_digits(fraction) && whole.len() + fraction.len() >= 1 {
        Some((whole, fraction))
    } else {
        None
    }
}

/// The parts of an unsigned decimal number: the digits before the point, the
/// digits behind it, and the exponent of ten. Behind the digits may stand the
/// letter `e`, small or capital, and an exponent; a number without that has
/// the exponent zero.
pub open spec fn number_parts(s: Seq<char>) -> Option<(Seq<char>, Seq<char>, int)> {
    let mark = exponent_mark(s);
    let exponent = if mark < s.len() {
        exponent_of(s.skip(mark + 1))
    } else {
        Some(0int)
    };
    match (mantissa_parts(s.take(mark)), exponent) {
        (Some((whole, fraction)), Some(e)) => Some((whole, fraction, e)),
        _ => None,
    }
}

/// `value` times ten to the power of `shift`, with what is left beyond a
/// whole unit dropped.
pub open spec fn shifted(value: int, shift: int) -> int {
    if shift >= 0 {
        value * pow10(shift as nat)
    } else {
        value / (pow10((-shift) as nat) as int)
    }
}

/// The signed decimal number `s` times `scale`, with what is left beyond a
/// whole unit dropped, as a `u64`. `s` is an optional sign, `+` or `-`, and
/// then a decimal number with or without an exponent, or one of the words
/// `inf`, `infinity` and `nan`. The value is exact: the digits before and
/// behind the point, read as one whole number, times `scale`, times ten to
/// the exponent less the number of digits behind the point. A value below
/// zero gives zero, one too large gives the largest `u64`; `nan` gives zero,
/// and `inf` the largest `u64` unless it has a minus sign or `scale` is zero.
pub open spec fn scaled_decimal(s: Seq<char>, scale: nat) -> Option<u64> {
    let signed = s.len() > 0 && (s[0] == '+' || s[0] == '-');
    let negative = s.len() > 0 && s[0] == '-';
    let body = if signed {
        s.skip(1)
    } else {
        s
    };
    if is_nan_word(body) {
        Some(0u64)
    } else if is_inf_word(body) {
        Some(
            if negative || scale == 0 {
                0u64
            } else {
                u64::MAX
            },
        )
    } else {
        match number_parts(body) {
            None => None,
            Some((whole, fraction, exponent)) => Some(
                if negative {
                    0u64
                } else {
                    saturated(
                        shifted(
                            (digits_value(whole + fraction) * scale) as int,
                            exponent - fraction.len(),
                        ),
                    )
                },
            ),
        }
    }
}

pub proof fn lemma_pow10_positive(n: nat)
    ensures
        pow10(n) > 0,
    decreases n,
{
    if n > 0 {
        lemma_pow10_positive((n - 1) as nat);
    }
}

/// Digits written behind other digits: the first run moves up by as many
/// places as the second is long.
pub proof fn lemma_digits_value_concat(a: Seq<char>, b: Seq<char>)
    ensures
        digits_value(a + b) == digits_value(a) * pow10(b.len()) + digits_value(b),
    decreases b.len(),
{
    if b.len() == 0 {
        assert(a + b == a);
        assert(pow10(0) == 1);
        assert(digits_value(a) * 1 == digits_value(a));
    } else {
        let front = b.drop_last();
        lemma_digits_value_concat(a, front);
        assert((a + b).drop_last() == a + front);
        assert((a + b).last() == b.last());
        assert(pow10(b.len()) == 10 * pow10(front.len()));
        let va = digits_value(a) as int;
        let vf = digits_value(front) as int;
        let pf = pow10(front.len()) as int;
        assert(10 * (va * pf + vf) == va * (10 * pf) + 10 * vf) by (nonlinear_arith);
        assert(digits_value(a + front) == va * pf + vf);
        assert(digits_value(a + b) == 10 * digits_value(a + front) + digit_value(b.last()));
        assert(digits_value(b) == 10 * vf + digit_value(b.last()));
    }
}

/// One step of multiplying a fraction by `scale` from its last digit to its
/// first: the whole part of `scale` times the fraction with one more digit in
/// front comes from the digit and the whole part so far.
proof fn lemma_fraction_step(scale: int, digit: int, rest: int, places: nat)
    requires
        0 <= scale,
        0 <= digit,
        0 <= rest,
    ensures
        (scale * (digit * pow10(places) + rest)) / (pow10(places + 1) as int) == (scale * digit
            + (scale * rest) / (pow10(places) as int)) / 10,
{
    let p = pow10(places) as int;
    lemma_pow10_positive(places);
    let m = scale * digit;
    let y = scale * rest;
    assert(0 <= m && 0 <= y) by (nonlinear_arith)
        requires
            m == scale * digit,
            y == scale * rest,
            0 <= scale,
            0 <= digit,
            0 <= rest,
    ;
    assert(scale * (digit * p + rest) == y + m * p) by (nonlinear_arith)
        requires
            m == scale * digit,
            y == scale * rest,
    ;
    lemma_hoist_over_denominator(y, m, p as nat);
    assert(0 <= m * p) by (nonlinear_arith)
        requires
            0 <= m,
            0 < p,
    ;
    lemma_div_denominator(y + m * p, p, 10);
    assert(pow10(places + 1) == p * 10);
}

pub proof fn lemma_pow10_adds(a: nat, b: nat)
    ensures
        pow10(a + b) == pow10(a) * pow10(b),
    decreases b,
{
    if b == 0 {
        assert(pow10(a) * 1 == pow10(a));
    } else {
        lemma_pow10_adds(a, (b - 1) as nat);
        let pa = pow10(a) as int;
        let pb = pow10((b - 1) as nat) as int;
        assert(pow10(a + b) == 10 * pow10((a + b - 1) as nat));
        assert(10 * (pa * pb) == pa * (10 * pb)) by (nonlinear_arith);
    }
}

pub proof fn lemma_pow10_ordered(a: nat, b: nat)
    requires
        a <= b,
    ensures
        pow10(a) <= pow10(b),
{
    lemma_pow10_adds(a, (b - a) as nat);
    lemma_pow10_positive((b - a) as nat);
    lemma_pow10_positive(a);
    let pa = pow10(a) as int;
    let pd = pow10((b - a) as nat) as int;
    assert(pa <= pa * pd) by (nonlinear_arith)
        requires
            pa > 0,
            pd >= 1,
    ;
}

/// Ten to the power of twenty is more than a `u64` holds.
pub proof fn lemma_pow10_of_twenty()
    ensures
        pow10(20) == 100_000_000_000_000_000_000,
        pow10(20) > u64::MAX,
{
    reveal_with_fuel(pow10, 21);
}

/// A run of digits stands for less than ten to the power of its length.
pub proof fn lemma_digits_value_bound(s: Seq<char>)
    requires
        all_digits(s),
    ensures
        digits_value(s) < pow10(s.len()),
    decreases s.len(),
{
    if s.len() > 0 {
        let front = s.drop_last();
        assert forall|i: int| 0 <= i < front.len() implies is_digit(#[trigger] front[i]) by {
            assert(front[i] == s[i]);
        }
        lemma_digits_value_bound(front);
        assert(is_digit(s[s.len() - 1]));
        assert(pow10(s.len()) == 10 * pow10(front.len()));
    }
}

/// The largest exponent that is told apart from the still larger ones.
pub open spec fn exponent_cap() -> int {
    0x10_0000_0000_0000_0000_0000_0000
}

/// `v`, held at the exponent cap.
pub open spec fn capped(v: int) -> int {
    if v > exponent_cap() {
        exponent_cap()
    } else {
        v
    }
}

/// The number that the digits in the window `[lo, hi)` stand for, where a
/// `u64` holds it.
fn digits_value_in(digits: &Vec<char>, lo: usize, hi: usize) -> (r: Option<u64>)
    requires
        lo <= hi <= digits.len(),
        all_digits(digits@.subrange(lo as int, hi as int)),
    ensures
        match r {
            Some(v) => v == digits_value(digits@.subrange(lo as int, hi as int)),
            None => digits_value(digits@.subrange(lo as int, hi as int)) > u64::MAX,
        },
{
    let ghost s = digits@.subrange(lo as int, hi as int);
    let mut acc: u64 = 0;
    let mut i: usize = lo;
    while i < hi
        invariant
            lo <= i <= hi <= digits.len(),
            s == digits@.subrange(lo as int, hi as int),
            all_digits(s),
            acc == digits_value(s.take(i - lo)),
        decreases hi - i,
    {
        let c: char = digits[i];
        assert(s[i - lo] == c);
        assert(is_digit(s[i - lo]));
        let d: u64 = (c as u32 - '0' as u32) as u64;
        proof {
            lemma_digits_value_step(s, i - lo);
            lemma_digits_value_prefix(s, i - lo + 1);
        }
        if acc > (u64::MAX - d) / 10 {
            return None;
        }
        acc = acc * 10 + d;
        i += 1;
    }
    assert(s.take(hi - lo) == s);
    Some(acc)
}

/// What the digits in the window `[lo, hi)`, read as a fraction behind the
/// point, carry into the whole units when multiplied by `scale`.
fn fraction_carry(digits: &Vec<char>, lo: usize, hi: usize, scale: u64) -> (carry: u64)
    requires
        lo <= hi <= digits.len(),
        all_digits(digits@.subrange(lo as int, hi as int)),
    ensures
        carry == (scale * digits_value(digits@.subrange(lo as int, hi as int))) / (pow10(
            (hi - lo) as nat,
        ) as int),
        carry <= scale,
{
    let ghost s = digits@.subrange(lo as int, hi as int);
    let mut carry: u64 = 0;
    let mut j: usize = hi;
    proof {
        assert(s.skip(s.len() as int).len() == 0);
        assert(digits_value(s.skip(hi - lo)) == 0);
        assert(scale * 0 == 0);
        assert(pow10(0) == 1);
    }
    while j > lo
        invariant
            lo <= j <= hi <= digits.len(),
            s == digits@.subrange(lo as int, hi as int),
            all_digits(s),
            carry == (scale * digits_value(s.skip(j - lo))) / (pow10((hi - j) as nat) as int),
            carry <= scale,
        decreases j,
    {
        let c: char = digits[j - 1];
        let ghost k = j - 1 - lo;
        assert(s[k] == c);
        assert(is_digit(s[k]));
        let d: u64 = (c as u32 - '0' as u32) as u64;
        proof {
            let rest = s.skip(k + 1);
            let one = seq![c];
            assert(s.skip(k) == one + rest);
            lemma_digits_value_concat(one, rest);
            assert(one.drop_last() == Seq::<char>::empty());
            assert(digits_value(one) == 10 * digits_value(one.drop_last()) + digit_value(
                one.last(),
            ));
            assert(digits_value(one) == d);
            assert(rest.len() == hi - j);
            lemma_fraction_step(
                scale as int,
                d as int,
                digits_value(rest) as int,
                (hi - j) as nat,
            );
        }
        assert(scale * d <= 9 * scale <= 9 * 0xffff_ffff_ffff_ffff) by (nonlinear_arith)
            requires
                scale <= 0xffff_ffff_ffff_ffff,
                d <= 9,
        ;
        let next: u128 = (scale as u128 * d as u128 + carry as u128) / 10;
        carry = next as u64;
        j -= 1;
    }
    assert(s.skip(0) == s);
    carry
}

/// Reads the window `[lo, hi)` of `text` as an exponent: whether it has a
/// minus sign, and how large it is, as far as the cap.
fn exponent_in(text: &Vec<char>, lo: usize, hi: usize) -> (r: Option<(bool, u128)>)
    requires
        lo <= hi <= text.len(),
    ensures
        match exponent_of(text@.subrange(lo as int, hi as int)) {
            None => r is None,
            Some(e) => r matches Some((minus, size)) && (minus ==> e <= 0) && (!minus ==> e >= 0)
                && size == capped(if e < 0 {
                -e
            } else {
                e
            }),
        },
{
    let ghost s = text@.subrange(lo as int, hi as int);
    let signed: bool = lo < hi && (text[lo] == '+' || text[lo] == '-');
    let minus: bool = lo < hi && text[lo] == '-';
    let start: usize = if signed {
        lo + 1
    } else {
        lo
    };
    let ghost body = text@.subrange(start as int, hi as int);
    assert(body == if s.len() > 0 && (s[0] == '+' || s[0] == '-') {
        s.skip(1)
    } else {
        s
    });
    if start == hi {
        return None;
    }
    let mut size: u128 = 0;
    let mut i: usize = start;
    while i < hi
        invariant
            lo <= start <= i <= hi <= text.len(),
            s == text@.subrange(lo as int, hi as int),
            body == text@.subrange(start as int, hi as int),
            body == if s.len() > 0 && (s[0] == '+' || s[0] == '-') {
                s.skip(1)
            } else {
                s
            },
            all_digits(body.take(i - start)),
            size == capped(digits_value(body.take(i - start)) as int),
        decreases hi - i,
    {
        let c: char = text[i];
        assert(body[i - start] == c);
        if !(c >= '0' && c <= '9') {
            assert(!is_digit(body[i - start]));
            return None;
        }
        let d: u128 = (c as u32 - '0' as u32) as u128;
        proof {
            lemma_digits_value_step(body, i - start);
        }
        size = size * 10 + d;
        if size > 0x10_0000_0000_0000_0000_0000_0000 {
            size = 0x10_0000_0000_0000_0000_0000_0000;
        }
        i += 1;
        assert forall|j: int| 0 <= j < body.take(i - start).len() implies is_digit(
            #[trigger] body.take(i - start)[j],
        ) by {
            if j < i - start - 1 {
                assert(body.take(i - start - 1)[j] == body[j]);
            }
        }
    }
    assert(body.take(hi - start) == body);
    Some((minus, size))
}

fn letter(c: char, lower: char, upper: char) -> (b: bool)
    ensures
        b == is_letter(c, lower, upper),
{
    c == lower || c == upper
}

fn nan_word_in(text: &Vec<char>, lo: usize, hi: usize) -> (b: bool)
    requires
        lo <= hi <= text.len(),
    ensures
        b == is_nan_word(text@.subrange(lo as int, hi as int)),
{
    hi - lo == 3 && letter(text[lo], 'n', 'N') && letter(text[lo + 1], 'a', 'A') && letter(
        text[lo + 2],
        'n',
        'N',
    )
}

fn inf_word_in(text: &Vec<char>, lo: usize, hi: usize) -> (b: bool)
    requires
        lo <= hi <= text.len(),
    ensures
        b == is_inf_word(text@.subrange(lo as int, hi as int)),
{
    let n: usize = hi - lo;
    if n != 3 && n != 8 {
        return false;
    }
    let short: bool = letter(text[lo], 'i', 'I') && letter(text[lo + 1], 'n', 'N') && letter(
        text[lo + 2],
        'f',
        'F',
    );
    if n == 3 {
        short
    } else {
        short && letter(text[lo + 3], 'i', 'I') && letter(text[lo + 4], 'n', 'N') && letter(
            text[lo + 5],
            'i',
            'I',
        ) && letter(text[lo + 6], 't', 'T') && letter(text[lo + 7], 'y', 'Y')
    }
}

/// Finds the first letter `e`, small or capital, in the window `[lo, hi)` of
/// `text`; `hi` if there is none.
fn find_exponent_mark(text: &Vec<char>, lo: usize, hi: usize) -> (i: usize)
    requires
        lo <= hi <= text.len(),
    ensures
        lo <= i <= hi,
        i - lo == exponent_mark(text@.subrange(lo as int, hi as int)),
        is_exponent_mark(text@.subrange(lo as int, hi as int), i - lo),
{
    let ghost s = text@.subrange(lo as int, hi as int);
    let mut i: usize = lo;
    while i < hi && !letter(text[i], 'e', 'E')
        invariant
            lo <= i <= hi <= text.len(),
            s == text@.subrange(lo as int, hi as int),
            forall|j: int| 0 <= j < i - lo ==> !is_letter(#[trigger] s[j], 'e', 'E'),
        decreases hi - i,
    {
        assert(s[i - lo] == text@[i as int]);
        i += 1;
    }
    proof {
        if i < hi {
            assert(s[i - lo] == text@[i as int]);
        }
        lemma_exponent_mark(s, i - lo);
    }
    i
}

/// The digits of `digits`, read as one whole number, times `scale`, times ten
/// to the power of the exponent less `fraction_len`, rounded down and held
/// within a `u64`. The exponent is given by its sign and its size as far as
/// the cap; beyond the cap every exponent gives the same.
fn scale_digits(
    digits: &Vec<char>,
    fraction_len: usize,
    minus: bool,
    size: u128,
    scale: u64,
    Ghost(exponent): Ghost<int>,
) -> (r: u64)
    requires
        all_digits(digits@),
        fraction_len <= digits.len(),
        minus ==> exponent <= 0,
        !minus ==> exponent >= 0,
        size == capped(
            if exponent < 0 {
                -exponent
            } else {
                exponent
            },
        ),
    ensures
        r == saturated(shifted(digits_value(digits@) * scale, exponent - fraction_len)),
{
    let n: usize = digits.len();
    let ghost value = digits_value(digits@) as int;
    let ghost shift = exponent - fraction_len;
    let ghost product = value * scale;
    proof {
        lemma_mul_nonnegative(value, scale as int);
        assert(digits@.subrange(0, n as int) == digits@);
    }
    if scale == 0 {
        proof {
            assert(product == 0) by (nonlinear_arith)
                requires
                    product == value * scale,
                    scale == 0,
            ;
            if shift >= 0 {
                assert(0 * pow10(shift as nat) == 0);
            } else {
                lemma_pow10_positive((-shift) as nat);
                lemma_basic_div(0, pow10((-shift) as nat) as int);
            }
        }
        return 0;
    }
    let places: u128 = fraction_len as u128;
    let up: bool = if minus {
        size + places == 0
    } else {
        size >= places
    };
    let amount: u128 = if minus {
        size + places
    } else if size >= places {
        size - places
    } else {
        places - size
    };
    let ghost distance = if shift < 0 {
        -shift
    } else {
        shift
    };
    assert(up == (shift >= 0));
    assert(amount == distance || (amount >= 0x8_0000_0000_0000_0000_0000_0000 && distance
        > amount));
    if up {
        proof {
            lemma_pow10_positive(shift as nat);
        }
        match digits_value_in(digits, 0, n) {
            None => {
                proof {
                    let p = pow10(shift as nat) as int;
                    assert(value * scale * p >= value) by (nonlinear_arith)
                        requires
                            value >= 0,
                            scale >= 1,
                            p >= 1,
                    ;
                }
                u64::MAX
            },
            Some(d) => {
                assert(d * scale <= 0xffff_ffff_ffff_ffff * 0xffff_ffff_ffff_ffff)
                    by (nonlinear_arith)
                    requires
                        d <= 0xffff_ffff_ffff_ffff,
                        scale <= 0xffff_ffff_ffff_ffff,
                ;
                let mut v: u128 = d as u128 * scale as u128;
                if v == 0 {
                    assert(0 * pow10(shift as nat) == 0);
                    return 0;
                }
                if amount >= 20 {
                    proof {
                        lemma_pow10_of_twenty();
                        lemma_pow10_ordered(20, shift as nat);
                        let p = pow10(shift as nat) as int;
                        assert(product * p >= p) by (nonlinear_arith)
                            requires
                                product >= 1,
                                p >= 1,
                        ;
                    }
                    return u64::MAX;
                }
                if v > u64::MAX as u128 {
                    proof {
                        let p = pow10(shift as nat) as int;
                        assert(product * p >= product) by (nonlinear_arith)
                            requires
                                product >= 1,
                                p >= 1,
                        ;
                    }
                    return u64::MAX;
                }
                let mut i: u128 = 0;
                assert(product * pow10(0) == product) by (nonlinear_arith)
                    requires
                        pow10(0) == 1,
                ;
                while i < amount
                    invariant
                        i <= amount < 20,
                        amount == shift,
                        shift == exponent - fraction_len,
                        product == digits_value(digits@) * scale,
                        product >= 1,
                        v == product * pow10(i as nat),
                        v <= u64::MAX,
                    decreases amount - i,
                {
                    proof {
                        let p = pow10(i as nat) as int;
                        assert(pow10((i + 1) as nat) == 10 * p);
                        assert(product * (10 * p) == (product * p) * 10) by (nonlinear_arith);
                    }
                    let next: u128 = v * 10;
                    if next > u64::MAX as u128 {
                        proof {
                            lemma_pow10_ordered((i + 1) as nat, shift as nat);
                            let p1 = pow10((i + 1) as nat) as int;
                            let p2 = pow10(shift as nat) as int;
                            assert(product * p1 <= product * p2) by (nonlinear_arith)
                                requires
                                    product >= 1,
                                    p1 <= p2,
                            ;
                        }
                        return u64::MAX;
                    }
                    v = next;
                    i += 1;
                }
                v as u64
            },
        }
    } else {
        let length: u128 = n as u128;
        if amount >= length + 20 {
            proof {
                lemma_digits_value_bound(digits@);
                lemma_pow10_of_twenty();
                lemma_pow10_adds(n as nat, 20);
                lemma_pow10_ordered((n + 20) as nat, distance as nat);
                lemma_pow10_positive(n as nat);
                let pn = pow10(n as nat) as int;
                let pd = pow10(distance as nat) as int;
                assert(product < pn * 100_000_000_000_000_000_000) by (nonlinear_arith)
                    requires
                        product == value * scale,
                        0 <= value < pn,
                        1 <= scale < 100_000_000_000_000_000_000,
                ;
                lemma_basic_div(product, pd);
            }
            return 0;
        }
        let kept: usize = if amount >= length {
            n
        } else {
            amount as usize
        };
        let split: usize = n - kept;
        let ghost head = digits@.subrange(0, split as int);
        let ghost tail = digits@.subrange(split as int, n as int);
        proof {
            assert(digits@ == head + tail);
            assert forall|i: int| 0 <= i < head.len() implies is_digit(#[trigger] head[i]) by {
                assert(head[i] == digits@[i]);
            }
            assert forall|i: int| 0 <= i < tail.len() implies is_digit(#[trigger] tail[i]) by {
                assert(tail[i] == digits@[split + i]);
            }
            lemma_digits_value_concat(head, tail);
            lemma_pow10_positive(kept as nat);
            lemma_mul_is_commutative(scale as int, digits_value(tail) as int);
        }
        let carry: u64 = fraction_carry(digits, split, n, scale);
        if amount > length {
            let extra: u128 = amount - length;
            let mut c: u64 = carry;
            let mut i: u128 = 0;
            proof {
                lemma_div_basics(carry as int);
                assert(pow10(0) == 1);
            }
            while i < extra
                invariant
                    i <= extra < 20,
                    c == carry as int / (pow10(i as nat) as int),
                decreases extra - i,
            {
                proof {
                    lemma_pow10_positive(i as nat);
                    lemma_div_denominator(carry as int, pow10(i as nat) as int, 10);
                    assert(pow10((i + 1) as nat) == pow10(i as nat) * 10);
                }
                c = c / 10;
                i += 1;
            }
            proof {
                assert(head.len() == 0);
                assert(tail == digits@);
                lemma_pow10_positive(extra as nat);
                lemma_pow10_adds(n as nat, extra as nat);
                lemma_mul_is_commutative(scale as int, value);
                lemma_div_denominator(product, pow10(n as nat) as int, pow10(extra as nat) as int);
            }
            c
        } else {
            proof {
                let h = digits_value(head) as int;
                let t = digits_value(tail) as int;
                let p = pow10(kept as nat) as int;
                assert((h * p + t) * scale == t * scale + (h * scale) * p) by (nonlinear_arith);
                lemma_hoist_over_denominator(t * scale, h * scale, p as nat);
                assert(product / p == carry + h * scale);
                assert(h * scale >= h) by (nonlinear_arith)
                    requires
                        h >= 0,
                        scale >= 1,
                ;
            }
            match digits_value_in(digits, 0, split) {
                None => u64::MAX,
                Some(h) => {
                    assert(h * scale <= 0xffff_ffff_ffff_ffff * 0xffff_ffff_ffff_ffff)
                        by (nonlinear_arith)
                        requires
                            h <= 0xffff_ffff_ffff_ffff,
                            scale <= 0xffff_ffff_ffff_ffff,
                    ;
                    let total: u128 = h as u128 * scale as u128 + carry as u128;
                    if total > u64::MAX as u128 {
                        u64::MAX
                    } else {
                        total as u64
                    }
                },
            }
        }
    }
}

/// Reads the window `[lo, hi)` of `text` as digits with at most one point
/// among them and gives the digits, those before the point and then those
/// behind it, and how many stand behind it.
fn mantissa_in(text: &Vec<char>, lo: usize, hi: usize) -> (r: Option<(Vec<char>, usize)>)
    requires
        lo <= hi <= text.len(),
    ensures
        match mantissa_parts(text@.subrange(lo as int, hi as int)) {
            None => r is None,
            Some((whole, fraction)) => r matches Some((digits, places)) && digits@ == whole
                + fraction && places == fraction.len() && all_digits(digits@),
        },
{
    let ghost s = text@.subrange(lo as int, hi as int);
    let point: usize = find_char(text, lo, hi, '.');
    let ghost whole = s.take(point - lo);
    let ghost fraction = if point < hi {
        s.skip(point - lo + 1)
    } else {
        Seq::<char>::empty()
    };
    let fraction_start: usize = if point < hi {
        point + 1
    } else {
        hi
    };
    assert(whole == text@.subrange(lo as int, point as int));
    assert(fraction == text@.subrange(fraction_start as int, hi as int));
    let mut digits: Vec<char> = Vec::new();
    let mut i: usize = lo;
    while i < point
        invariant
            lo <= i <= point <= hi <= text.len(),
            s == text@.subrange(lo as int, hi as int),
            whole == text@.subrange(lo as int, point as int),
            digits@ == whole.take(i - lo),
            all_digits(digits@),
            mantissa_parts(s) is Some ==> all_digits(whole),
        decreases point - i,
    {
        let c: char = text[i];
        assert(whole[i - lo] == c);
        if !(c >= '0' && c <= '9') {
            assert(!is_digit(whole[i - lo]));
            return None;
        }
        digits.push(c);
        i += 1;
        assert(digits@ == whole.take(i - lo));
    }
    assert(whole.take(point - lo) == whole);
    let mut j: usize = fraction_start;
    while j < hi
        invariant
            lo <= fraction_start <= j <= hi <= text.len(),
            s == text@.subrange(lo as int, hi as int),
            fraction == text@.subrange(fraction_start as int, hi as int),
            digits@ == whole + fraction.take(j - fraction_start),
            all_digits(digits@),
            all_digits(whole),
            mantissa_parts(s) is Some ==> all_digits(fraction),
        decreases hi - j,
    {
        let c: char = text[j];
        assert(fraction[j - fraction_start] == c);
        if !(c >= '0' && c <= '9') {
            assert(!is_digit(fraction[j - fraction_start]));
            return None;
        }
        digits.push(c);
        j += 1;
        assert(digits@ == whole + fraction.take(j - fraction_start));
    }
    assert(fraction.take(hi - fraction_start) == fraction);
    assert forall|k: int| 0 <= k < fraction.len() implies is_digit(#[trigger] fraction[k]) by {
        assert(fraction[k] == digits@[whole.len() + k]);
    }
    if digits.len() == 0 {
        return None;
    }
    Some((digits, hi - fraction_start))
}

/// Reads the window `[lo, hi)` of `text` as a signed decimal number and gives
/// it times `scale`, rounded down and held within a `u64`.
pub fn scaled_decimal_in(text: &Vec<char>, lo: usize, hi: usize, scale: u64) -> (r: Option<u64>)
    requires
        lo <= hi <= text.len(),
    ensures
        r == scaled_decimal(text@.subrange(lo as int, hi as int), scale as nat),
{
    let ghost s = text@.subrange(lo as int, hi as int);
    let signed: bool = lo < hi && (text[lo] == '+' || text[lo] == '-');
    let negative: bool = lo < hi && text[lo] == '-';
    let start: usize = if signed {
        lo + 1
    } else {
        lo
    };
    let ghost body = text@.subrange(start as int, hi as int);
    assert(body == if s.len() > 0 && (s[0] == '+' || s[0] == '-') {
        s.skip(1)
    } else {
        s
    });
    if nan_word_in(text, start, hi) {
        return Some(0);
    }
    if inf_word_in(text, start, hi) {
        return Some(
            if negative || scale == 0 {
                0
            } else {
                u64::MAX
            },
        );
    }
    let mark: usize = find_exponent_mark(text, start, hi);
    assert(text@.subrange(start as int, mark as int) == body.take(mark - start));
    let (digits, places) = match mantissa_in(text, start, mark) {
        Some(found) => found,
        None => {
            return None;
        },
    };
    let mut minus: bool = false;
    let mut size: u128 = 0;
    let ghost mut exponent: int = 0;
    if mark < hi {
        assert(text@.subrange(mark + 1, hi as int) == body.skip(mark - start + 1));
        match exponent_in(text, mark + 1, hi) {
            None => {
                return None;
            },
            Some(found) => {
                minus = found.0;
                size = found.1;
                proof {
                    exponent = exponent_of(body.skip(mark - start + 1))->0;
                }
            },
        }
    }
    if negative {
        return Some(0);
    }
    Some(scale_digits(&digits, places, minus, size, scale, Ghost(exponent)))
}

/// The character that stands for the digit `d`.
pub open spec fn digit_char(d: nat) -> char {
    if d == 0 {
        '0'
    } else if d == 1 {
        '1'
    } else if d == 2 {
        '2'
    } else if d == 3 {
        '3'
    } else if d == 4 {
        '4'
    } else if d == 5 {
        '5'
    } else if d == 6 {
        '6'
    } else if d == 7 {
        '7'
    } else if d == 8 {
        '8'
    } else {
        '9'
    }
}

/// A number written in decimal digits, without a sign and without zeros in
/// front.
pub open spec fn decimal_text(n: nat) -> Seq<char>
    decreases n,
{
    if n < 10 {
        seq![digit_char(n)]
    } else {
        decimal_text(n / 10).push(digit_char(n % 10))
    }
}

/// What is written by `decimal_text` reads back as the number it was written
/// from.
pub proof fn lemma_decimal_text_reads_back(n: nat)
    ensures
        decimal_text(n).len() >= 1,
        all_digits(decimal_text(n)),
        digits_value(decimal_text(n)) == n,
        unsigned_digits(decimal_text(n)) == Some(decimal_text(n)),
    decreases n,
{
    let t = decimal_text(n);
    if n < 10 {
        assert(t.drop_last() == Seq::<char>::empty());
        assert(digits_value(t) == 10 * digits_value(t.drop_last()) + digit_value(t.last()));
    } else {
        let front = decimal_text(n / 10);
        lemma_decimal_text_reads_back(n / 10);
        assert(t.drop_last() == front);
        assert(t.last() == digit_char(n % 10));
        assert forall|i: int| 0 <= i < t.len() implies is_digit(#[trigger] t[i]) by {
            if i < front.len() {
                assert(t[i] == front[i]);
            }
        }
        assert(t[0] == front[0]);
    }
    assert(is_digit(t[0]));
}

/// The text of one decimal digit.
fn digit_text(d: u64) -> (t: &'static str)
    requires
        d < 10,
    ensures
        t@ == seq![digit_char(d as nat)],
{
    proof {
        reveal_strlit("0");
        reveal_strlit("1");
        reveal_strlit("2");
        reveal_strlit("3");
        reveal_strlit("4");
        reveal_strlit("5");
        reveal_strlit("6");
        reveal_strlit("7");
        reveal_strlit("8");
        reveal_strlit("9");
    }
    let t: &'static str = if d == 0 {
        "0"
    } else if d == 1 {
        "1"
    } else if d == 2 {
        "2"
    } else if d == 3 {
        "3"
    } else if d == 4 {
        "4"
    } else if d == 5 {
        "5"
    } else if d == 6 {
        "6"
    } else if d == 7 {
        "7"
    } else if d == 8 {
        "8"
    } else {
        "9"
    };
    assert(t@ =~= seq![digit_char(d as nat)]);
    t
}

/// Writes `n` in decimal digits.
pub fn decimal_string(n: u64) -> (text: String)
    ensures
        text@ == decimal_text(n as nat),
    decreases n,
{
    if n < 10 {
        String::from_str(digit_text(n))
    } else {
        let front: String = decimal_string(n / 10);
        let text: String = front.concat(digit_text(n % 10));
        assert(text@ =~= decimal_text((n / 10) as nat).push(digit_char((n % 10) as nat)));
        text
    }
}

} // verus!
