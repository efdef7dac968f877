//! Numbers of the interpreted language.
//!
//! A number is an IEEE-754 binary64 value, held as its 64-bit pattern: one
//! sign bit, eleven bits of biased exponent and fifty-two bits of fraction.
//! Classification, ordering and the conversions between integers and numbers
//! are done on the pattern and proved here.  Rounded arithmetic is done by the
//! software floating point of `rustc_apfloat`, reached through the trusted
//! functions at the end of this file.

use vstd::prelude::*;
use vstd::arithmetic::power2::*;
use vstd::arithmetic::div_mod::*;
use rustc_apfloat::ieee::Double;
use rustc_apfloat::Float;

verus! {

/// The sign bit of a pattern.
pub const SIGN_BIT: u64 = 0x8000_0000_0000_0000;

/// Two to the power fifty-two: the weight of the exponent field.
pub const FRACTION_SPAN: u64 = 0x0010_0000_0000_0000;

/// Two to the power fifty-three: integers below it are held exactly.
pub const SAFE_LIMIT: u64 = 0x0020_0000_0000_0000;

/// Positive infinity.
pub const INFINITY: u64 = 0x7FF0_0000_0000_0000;

/// Negative infinity.
pub const NEG_INFINITY: u64 = 0xFFF0_0000_0000_0000;

/// The quiet not-a-number that the library produces.
pub const NAN: u64 = 0x7FF8_0000_0000_0000;

/// Positive zero.
pub const ZERO: u64 = 0;

/// The number one.
pub const ONE: u64 = 0x3FF0_0000_0000_0000;

/// The biased exponent of numbers in `[2^52, 2^53)`, whose fraction counts units.
pub const UNIT_EXPONENT: u64 = 1075;

/// The biased exponent of numbers in `[1, 2)`.
pub const BIAS: u64 = 1023;

/// The pattern without its sign bit.
pub open spec fn magnitude(bits: u64) -> u64 {
    if bits >= SIGN_BIT {
        (bits - SIGN_BIT) as u64
    } else {
        bits
    }
}

/// Whether the sign bit is set.
pub open spec fn spec_is_negative(bits: u64) -> bool {
    bits >= SIGN_BIT
}

/// Whether the pattern is a not-a-number.
pub open spec fn spec_is_nan(bits: u64) -> bool {
    magnitude(bits) > INFINITY
}

/// Whether the pattern is an infinity.
pub open spec fn spec_is_infinite(bits: u64) -> bool {
    magnitude(bits) == INFINITY
}

/// Whether the pattern is a zero of either sign.
pub open spec fn spec_is_zero(bits: u64) -> bool {
    magnitude(bits) == 0
}

/// Whether the pattern is neither a not-a-number nor an infinity.
pub open spec fn spec_is_finite(bits: u64) -> bool {
    magnitude(bits) < INFINITY
}

/// The place of a number that is not a not-a-number on the number line:
/// numbers compare as these keys do, and the two zeros share the key zero.
pub open spec fn order_key(bits: u64) -> int {
    if spec_is_negative(bits) {
        -(magnitude(bits) as int)
    } else {
        magnitude(bits) as int
    }
}

/// IEEE equality: false when either side is a not-a-number, and the zeros are equal.
pub open spec fn spec_equal(a: u64, b: u64) -> bool {
    !spec_is_nan(a) && !spec_is_nan(b) && order_key(a) == order_key(b)
}

/// IEEE less-than: false when either side is a not-a-number.
pub open spec fn spec_less(a: u64, b: u64) -> bool {
    !spec_is_nan(a) && !spec_is_nan(b) && order_key(a) < order_key(b)
}

/// The natural number that a pattern without sign denotes, where it denotes one.
///
/// A normal number is `(2^52 + fraction) * 2^(exponent - 1075)`; it is a
/// natural number when that product is whole.  Zero denotes zero;
/// subnormals, infinities and not-a-numbers denote none.
pub open spec fn natural_value(mag: u64) -> Option<int> {
    let e = mag as int / FRACTION_SPAN as int;
    let m = FRACTION_SPAN as int + mag as int % FRACTION_SPAN as int;
    if mag == 0 {
        Some(0int)
    } else if e >= 2047 || e < BIAS as int {
        None
    } else if e >= UNIT_EXPONENT as int {
        Some(m * pow2((e - UNIT_EXPONENT as int) as nat))
    } else if m % (pow2((UNIT_EXPONENT as int - e) as nat) as int) == 0 {
        Some(m / (pow2((UNIT_EXPONENT as int - e) as nat) as int))
    } else {
        None
    }
}

/// The integer that a pattern denotes, where it denotes one: the natural
/// number of its magnitude, negated where the sign bit is set.
pub open spec fn integer_value(bits: u64) -> Option<int> {
    match natural_value(magnitude(bits)) {
        Some(n) => Some(if spec_is_negative(bits) { -n } else { n }),
        None => None,
    }
}

/// The integer that a pattern denotes, where its absolute value is below `2^53`.
pub open spec fn safe_integer_value(bits: u64) -> Option<int> {
    match integer_value(bits) {
        Some(n) => if -(SAFE_LIMIT as int) < n < SAFE_LIMIT as int {
            Some(n)
        } else {
            None
        },
        None => None,
    }
}

/// Whether the sign bit of a pattern is set.
#[verifier::when_used_as_spec(spec_is_negative)]
pub fn is_negative(bits: u64) -> (r: bool)
    ensures
        r == spec_is_negative(bits),
{
    bits >= SIGN_BIT
}

/// The pattern with its sign bit cleared.
pub fn absolute(bits: u64) -> (r: u64)
    ensures
        r == magnitude(bits),
{
    if bits >= SIGN_BIT {
        bits - SIGN_BIT
    } else {
        bits
    }
}

/// Whether a pattern is a not-a-number.
#[verifier::when_used_as_spec(spec_is_nan)]
pub fn is_nan(bits: u64) -> (r: bool)
    ensures
        r == spec_is_nan(bits),
{
    absolute(bits) > INFINITY
}

/// Whether a pattern is an infinity.
#[verifier::when_used_as_spec(spec_is_infinite)]
pub fn is_infinite(bits: u64) -> (r: bool)
    ensures
        r == spec_is_infinite(bits),
{
    absolute(bits) == INFINITY
}

/// Whether a pattern is a zero of either sign.
#[verifier::when_used_as_spec(spec_is_zero)]
pub fn is_zero(bits: u64) -> (r: bool)
    ensures
        r == spec_is_zero(bits),
{
    absolute(bits) == 0
}

/// Whether a pattern is neither a not-a-number nor an infinity.
#[verifier::when_used_as_spec(spec_is_finite)]
pub fn is_finite(bits: u64) -> (r: bool)
    ensures
        r == spec_is_finite(bits),
{
    absolute(bits) < INFINITY
}

/// The pattern with the opposite sign; a not-a-number stays one.
pub open spec fn spec_negate(bits: u64) -> u64 {
    if bits >= SIGN_BIT {
        (bits - SIGN_BIT) as u64
    } else {
        (bits + SIGN_BIT) as u64
    }
}

/// The pattern with the opposite sign.
#[verifier::when_used_as_spec(spec_negate)]
pub fn negate(bits: u64) -> (r: u64)
    ensures
        r == spec_negate(bits),
{
    if bits >= SIGN_BIT {
        bits - SIGN_BIT
    } else {
        bits + SIGN_BIT
    }
}

/// Whether two numbers are equal as IEEE-754 has it.
#[verifier::when_used_as_spec(spec_equal)]
pub fn equal(a: u64, b: u64) -> (r: bool)
    ensures
        r == spec_equal(a, b),
{
    if is_nan(a) || is_nan(b) {
        false
    } else if absolute(a) == 0 && absolute(b) == 0 {
        true
    } else {
        a == b
    }
}

/// Whether `a` is less than `b` as IEEE-754 has it.
#[verifier::when_used_as_spec(spec_less)]
pub fn less(a: u64, b: u64) -> (r: bool)
    ensures
        r == spec_less(a, b),
{
    if is_nan(a) || is_nan(b) {
        false
    } else if is_negative(a) {
        if is_negative(b) {
            absolute(a) > absolute(b)
        } else {
            absolute(a) > 0 || absolute(b) > 0
        }
    } else {
        if is_negative(b) {
            false
        } else {
            a < b
        }
    }
}

/// The pattern with fraction `m - 2^52` and biased exponent `e`, once `m`
/// has been doubled, and `e` lowered, until `m` has reached `2^52`.
pub open spec fn normalized(m: nat, e: nat) -> u64
    decreases e,
{
    if m >= FRACTION_SPAN || e == 0 {
        (e * FRACTION_SPAN + (m - FRACTION_SPAN)) as u64
    } else {
        normalized(2 * m, (e - 1) as nat)
    }
}

/// The number that holds the natural number `n`, for `n` below `2^53`.
pub open spec fn number_of_natural(n: nat) -> u64 {
    if n == 0 {
        ZERO
    } else {
        normalized(n, UNIT_EXPONENT as nat)
    }
}

/// The number that holds the integer `n`, for `n` of absolute value below `2^53`.
pub open spec fn number_of_integer(n: int) -> u64 {
    if n < 0 {
        (number_of_natural((-n) as nat) + SIGN_BIT) as u64
    } else {
        number_of_natural(n as nat)
    }
}

/// The number that holds a natural number below `2^53`.
pub fn from_natural(n: u64) -> (r: u64)
    requires
        n < SAFE_LIMIT,
    ensures
        r == number_of_natural(n as nat),
        integer_value(r) == Some(n as int),
        r < (UNIT_EXPONENT + 1) * FRACTION_SPAN,
        n > 0 ==> r >= ONE,
{
    if n == 0 {
        return ZERO;
    }
    let mut m: u64 = n;
    let mut e: u64 = UNIT_EXPONENT;
    proof {
        lemma2_to64();
    }
    while m < FRACTION_SPAN
        invariant
            1 <= n < SAFE_LIMIT,
            BIAS <= e <= UNIT_EXPONENT,
            1 <= m < SAFE_LIMIT,
            m == n * pow2((UNIT_EXPONENT - e) as nat),
            normalized(m as nat, e as nat) == normalized(n as nat, UNIT_EXPONENT as nat),
        decreases e,
    {
        proof {
            let k = (UNIT_EXPONENT - e) as nat;
            lemma_pow2_unfold(k + 1);
            lemma_pow2_pos(k);
            assert(pow2(k) <= m) by (nonlinear_arith)
                requires
                    m == n * pow2(k),
                    n >= 1,
                    pow2(k) > 0,
            ;
            if k >= 52 {
                lemma2_to64_rest();
                if k > 52 {
                    lemma_pow2_strictly_increases(52, k);
                }
                assert(pow2(k) >= FRACTION_SPAN);
            }
            assert(k < 52);
            assert(n * (2 * pow2(k)) == 2 * (n * pow2(k))) by (nonlinear_arith);
        }
        m = m * 2;
        e = e - 1;
    }
    let r: u64 = e * FRACTION_SPAN + (m - FRACTION_SPAN);
    proof {
        let k = (UNIT_EXPONENT - e) as nat;
        let d = pow2(k) as int;
        lemma_pow2_pos(k);
        assert(magnitude(r) == r);
        assert(r as int / FRACTION_SPAN as int == e as int && r as int % FRACTION_SPAN as int == m
            - FRACTION_SPAN) by {
            lemma_fundamental_div_mod_converse(
                r as int,
                FRACTION_SPAN as int,
                e as int,
                (m - FRACTION_SPAN) as int,
            );
        }
        assert(m as int == n * d);
        if e < UNIT_EXPONENT {
            lemma_mod_multiples_basic(n as int, d);
            lemma_div_by_multiple(n as int, d);
            assert((n * d) / d == n);
        } else {
            assert(d == 1);
            assert(n * 1 == n);
        }
    }
    r
}

/// The integer that a number denotes, where it is one of absolute value below `2^53`.
pub fn to_safe_integer(bits: u64) -> (r: Option<i64>)
    ensures
        match r {
            Some(n) => safe_integer_value(bits) == Some(n as int),
            None => safe_integer_value(bits).is_none(),
        },
{
    let mag: u64 = absolute(bits);
    if mag == 0 {
        return Some(0);
    }
    let e: u64 = mag / FRACTION_SPAN;
    let m: u64 = FRACTION_SPAN + mag % FRACTION_SPAN;
    if e >= 2047 || e < BIAS {
        return None;
    }
    proof {
        lemma2_to64();
        lemma2_to64_rest();
    }
    if e > UNIT_EXPONENT {
        proof {
            let k = (e - UNIT_EXPONENT) as nat;
            if k > 1 {
                lemma_pow2_strictly_increases(1, k);
            }
            assert(m * pow2(k) >= SAFE_LIMIT) by (nonlinear_arith)
                requires
                    m >= FRACTION_SPAN,
                    pow2(k) >= 2,
                    SAFE_LIMIT == 2 * FRACTION_SPAN,
            ;
            assert(natural_value(mag) == Some(m * pow2(k)));
        }
        return None;
    }
    let shift: u64 = UNIT_EXPONENT - e;
    let d: u64 = power_of_two(shift);
    if m % d != 0 {
        return None;
    }
    let q: u64 = m / d;
    proof {
        assert(q <= m) by (nonlinear_arith)
            requires
                q == m / d,
                d >= 1,
        ;
        assert(pow2(0) == 1);
        assert(mag as int / FRACTION_SPAN as int == e);
        assert(d == pow2(shift as nat));
        if shift == 0 {
            assert(m * pow2(0) == m) by (nonlinear_arith)
                requires
                    pow2(0) == 1,
            ;
            assert(d == 1);
            assert(q == m) by (nonlinear_arith)
                requires
                    q == m / d,
                    d == 1,
            ;
        }
        assert(natural_value(mag) == Some(q as int));
    }
    if bits >= SIGN_BIT {
        Some(-(q as i64))
    } else {
        Some(q as i64)
    }
}

/// The number that holds an integer of absolute value below `2^53`.
pub fn from_integer(n: i64) -> (r: u64)
    requires
        -(SAFE_LIMIT as int) < n < SAFE_LIMIT as int,
    ensures
        r == number_of_integer(n as int),
        safe_integer_value(r) == Some(n as int),
        spec_is_finite(r),
        spec_is_negative(r) == (n < 0),
{
    if n < 0 {
        let p: u64 = from_natural((-n) as u64);
        assert(magnitude((p + SIGN_BIT) as u64) == p);
        p + SIGN_BIT
    } else {
        from_natural(n as u64)
    }
}

/// Two to the power thirty-two: the span of a word.
pub const WORD: u64 = 0x1_0000_0000;

/// The whole part of the number whose pattern without sign is `mag`; zero
/// for not-a-numbers and infinities.
pub open spec fn whole_magnitude(mag: u64) -> int {
    let e = mag as int / FRACTION_SPAN as int;
    let m = FRACTION_SPAN as int + mag as int % FRACTION_SPAN as int;
    if e >= 2047 || e < BIAS as int {
        0
    } else if e >= UNIT_EXPONENT as int {
        m * pow2((e - UNIT_EXPONENT as int) as nat)
    } else {
        m / (pow2((UNIT_EXPONENT as int - e) as nat) as int)
    }
}

/// The whole part of a number, toward zero; zero for not-a-numbers and infinities.
pub open spec fn truncated(bits: u64) -> int {
    if spec_is_negative(bits) {
        -whole_magnitude(magnitude(bits))
    } else {
        whole_magnitude(magnitude(bits))
    }
}

/// The word of a number: its whole part modulo `2^32`, from zero up to `2^32`.
pub open spec fn word_of(bits: u64) -> int {
    truncated(bits) % (WORD as int)
}

/// A word read as a signed integer, from `-2^31` up to `2^31`.
pub open spec fn signed_word(w: int) -> int {
    if w >= 0x8000_0000 {
        w - 0x1_0000_0000
    } else {
        w
    }
}

/// Two to the power `k`.
pub fn power_of_two(k: u64) -> (d: u64)
    requires
        k <= 62,
    ensures
        d == pow2(k as nat),
        1 <= d <= 0x4000_0000_0000_0000,
{
    let mut d: u64 = 1;
    let mut i: u64 = 0;
    proof {
        lemma2_to64();
    }
    while i < k
        invariant
            i <= k <= 62,
            d == pow2(i as nat),
            1 <= d <= 0x4000_0000_0000_0000,
        decreases k - i,
    {
        proof {
            lemma_pow2_unfold((i + 1) as nat);
            lemma2_to64_rest();
            if i + 1 < 62 {
                lemma_pow2_strictly_increases((i + 1) as nat, 62);
            }
        }
        d = d * 2;
        i = i + 1;
    }
    d
}

/// The word of a number.
pub fn to_word(bits: u64) -> (r: u32)
    ensures
        r == word_of(bits),
{
    let mag: u64 = absolute(bits);
    let e: u64 = mag / FRACTION_SPAN;
    let m: u64 = FRACTION_SPAN + mag % FRACTION_SPAN;
    if e >= 2047 || e < BIAS {
        return 0;
    }
    let ghost n = whole_magnitude(mag);
    let low: u64 = if e >= UNIT_EXPONENT {
        let k: u64 = e - UNIT_EXPONENT;
        if k >= 32 {
            proof {
                lemma2_to64();
                lemma_pow2_adds(32, (k - 32) as nat);
                let rest = pow2((k - 32) as nat) as int;
                assert(n == (m * rest) * WORD) by (nonlinear_arith)
                    requires
                        n == m * pow2(k as nat),
                        pow2(k as nat) == pow2(32) * pow2((k - 32) as nat),
                        rest == pow2((k - 32) as nat),
                        pow2(32) == WORD,
                ;
                lemma_mod_multiples_basic(m * rest, WORD as int);
            }
            0
        } else {
            let d: u64 = power_of_two(k);
            proof {
                lemma2_to64();
                if k < 31 {
                    lemma_pow2_strictly_increases(k as nat, 31);
                }
                lemma_mul_mod_noop_left(m as int, d as int, WORD as int);
                assert((m % WORD) * d < 0x8000_0000_0000_0000) by (nonlinear_arith)
                    requires
                        0 <= m % WORD < 0x1_0000_0000,
                        1 <= d <= 0x8000_0000,
                ;
            }
            ((m % WORD) * d) % WORD
        }
    } else {
        let d: u64 = power_of_two(UNIT_EXPONENT - e);
        (m / d) % WORD
    };
    assert(low == n % (WORD as int));
    if bits >= SIGN_BIT && low != 0 {
        proof {
            lemma_fundamental_div_mod(n, WORD as int);
            let q = n / (WORD as int);
            assert(-n == (WORD as int) * (-q - 1) + (WORD - low)) by (nonlinear_arith)
                requires
                    n == (WORD as int) * q + low,
            ;
            lemma_fundamental_div_mod_converse(-n, WORD as int, -q - 1, (WORD - low) as int);
        }
        (WORD - low) as u32
    } else {
        proof {
            if bits >= SIGN_BIT {
                lemma_fundamental_div_mod(n, WORD as int);
                let q = n / (WORD as int);
                assert(-n == (WORD as int) * (-q) + 0) by (nonlinear_arith)
                    requires
                        n == (WORD as int) * q + low,
                        low == 0,
                ;
                lemma_fundamental_div_mod_converse(-n, WORD as int, -q, 0);
            }
        }
        low as u32
    }
}

/// The number that holds a word read as a signed integer.
pub fn from_word(w: u32) -> (r: u64)
    ensures
        r == number_of_integer(signed_word(w as int)),
{
    if w >= 0x8000_0000 {
        from_integer(w as i64 - 0x1_0000_0000)
    } else {
        from_integer(w as i64)
    }
}

/// The word of `a` shifted left by `s` places, as far as it stays in the word.
pub open spec fn shifted_left(a: int, s: int) -> int {
    (a * pow2((s % 32) as nat)) % (WORD as int)
}

/// The word `a`, read as a signed integer, shifted right by `s` places; the
/// sign is kept.
pub open spec fn shifted_right(a: int, s: int) -> int {
    (signed_word(a) / (pow2((s % 32) as nat) as int)) % (WORD as int)
}

/// Shifts a word left.
pub fn shift_left(a: u32, s: u32) -> (r: u32)
    ensures
        r == shifted_left(a as int, s as int),
{
    let d: u64 = power_of_two((s % 32) as u64);
    proof {
        lemma2_to64();
        if s % 32 < 31 {
            lemma_pow2_strictly_increases((s % 32) as nat, 31);
        }
        assert(a * d < 0x8000_0000_0000_0000) by (nonlinear_arith)
            requires
                0 <= a < 0x1_0000_0000,
                1 <= d <= 0x8000_0000,
        ;
    }
    ((a as u64 * d) % WORD) as u32
}

/// Shifts a word right, keeping its sign.
pub fn shift_right(a: u32, s: u32) -> (r: u32)
    ensures
        r == shifted_right(a as int, s as int),
{
    let d: u64 = power_of_two((s % 32) as u64);
    proof {
        lemma2_to64();
        if s % 32 < 31 {
            lemma_pow2_strictly_increases((s % 32) as nat, 31);
        }
    }
    if a >= 0x8000_0000 {
        // A negative word `a - 2^32`: its quotient is `-c`, with `c` the
        // quotient of its absolute value rounded up.
        let up: u64 = WORD - a as u64;
        let c: u64 = (up + d - 1) / d;
        proof {
            lemma_fundamental_div_mod((up + d - 1) as int, d as int);
            let rem = (up + d - 1) as int % (d as int);
            assert(-(up as int) == (d as int) * (-(c as int)) + (d - 1 - rem)) by (nonlinear_arith)
                requires
                    up + d - 1 == (d as int) * (c as int) + rem,
            ;
            lemma_fundamental_div_mod_converse(-(up as int), d as int, -(c as int), d - 1 - rem);
            assert(c <= up) by (nonlinear_arith)
                requires
                    up + d - 1 == (d as int) * (c as int) + rem,
                    0 <= rem,
                    d >= 1,
                    up >= 1,
                    c >= 0,
            ;
            assert(c >= 1) by (nonlinear_arith)
                requires
                    up + d - 1 == (d as int) * (c as int) + rem,
                    rem < d,
                    up >= 1,
            ;
            lemma_fundamental_div_mod_converse(-(c as int), WORD as int, -1, WORD - c);
        }
        (WORD - c) as u32
    } else {
        proof {
            assert(a as u64 / d <= a) by (nonlinear_arith)
                requires
                    d >= 1,
            ;
            lemma_small_mod((a as u64 / d) as nat, WORD as nat);
        }
        (a as u64 / d) as u32
    }
}

/// Whether a number is whole already, or cannot be rounded: a zero, an
/// infinity, a not-a-number, or a number of absolute value from `2^52` on.
pub open spec fn is_settled(x: u64) -> bool {
    magnitude(x) == 0 || magnitude(x) >= UNIT_EXPONENT * FRACTION_SPAN
}

/// Whether a number that is not settled is a whole number.
pub open spec fn is_whole(x: u64) -> bool {
    natural_value(magnitude(x)) is Some
}

/// How a number that is neither settled nor whole is rounded to one of the
/// two whole numbers next to it.
#[derive(Clone, Copy, Debug, PartialEq, Eq, Structural)]
pub enum Rounding {
    /// Toward negative infinity.
    Down,
    /// Toward positive infinity.
    Up,
    /// To the nearer one, and toward positive infinity from the middle.
    Nearest,
}

/// Whether rounding takes the whole number that is farther from zero: the
/// one beyond `whole_magnitude`.  For the nearest, that is decided by the
/// rest beyond the whole part, which is compared with a half.
pub open spec fn rounds_away(x: u64, rounding: Rounding) -> bool {
    let mag = magnitude(x);
    let e = mag as int / FRACTION_SPAN as int;
    let m = FRACTION_SPAN as int + mag as int % FRACTION_SPAN as int;
    let negative = spec_is_negative(x);
    match rounding {
        Rounding::Down => negative,
        Rounding::Up => !negative,
        Rounding::Nearest => if e < BIAS as int - 1 {
            // Less than a half.
            false
        } else if e == BIAS as int - 1 {
            // From a half up to one: a half itself goes up, so away from
            // zero only where the number is positive.
            !negative || m > FRACTION_SPAN
        } else {
            let d = pow2((UNIT_EXPONENT as int - e) as nat) as int;
            if negative {
                2 * (m % d) > d
            } else {
                2 * (m % d) >= d
            }
        },
    }
}

/// A number rounded to a whole number.  A settled number and a whole number
/// are themselves.  Any other number becomes one of the two whole numbers
/// next to it, with its own sign: the one of its whole part, or the one
/// beyond.
pub open spec fn round_bits(x: u64, rounding: Rounding) -> u64 {
    if is_settled(x) || is_whole(x) {
        x
    } else {
        let q = whole_magnitude(magnitude(x));
        let n = if rounds_away(x, rounding) { q + 1 } else { q };
        if spec_is_negative(x) {
            spec_negate(number_of_natural(n as nat))
        } else {
            number_of_natural(n as nat)
        }
    }
}

/// A number rounded to a whole number.
pub fn round(x: u64, rounding: Rounding) -> (r: u64)
    ensures
        r == round_bits(x, rounding),
{
    let mag: u64 = absolute(x);
    if mag == 0 || mag >= UNIT_EXPONENT * FRACTION_SPAN {
        return x;
    }
    let negative: bool = x >= SIGN_BIT;
    let e: u64 = mag / FRACTION_SPAN;
    let m: u64 = FRACTION_SPAN + mag % FRACTION_SPAN;
    let (q, away): (u64, bool) = if e < BIAS {
        let away: bool = match rounding {
            Rounding::Down => negative,
            Rounding::Up => !negative,
            Rounding::Nearest => e == BIAS - 1 && (!negative || m > FRACTION_SPAN),
        };
        (0, away)
    } else {
        let d: u64 = power_of_two(UNIT_EXPONENT - e);
        let rest: u64 = m % d;
        if rest == 0 {
            proof {
                assert(natural_value(mag) is Some);
            }
            return x;
        }
        let away: bool = match rounding {
            Rounding::Down => negative,
            Rounding::Up => !negative,
            Rounding::Nearest => if negative {
                2 * rest > d
            } else {
                2 * rest >= d
            },
        };
        proof {
            lemma2_to64();
            if UNIT_EXPONENT - e > 1 {
                lemma_pow2_strictly_increases(1, (UNIT_EXPONENT - e) as nat);
            }
            assert(m / d < FRACTION_SPAN) by (nonlinear_arith)
                requires
                    d >= 2,
                    m < 2 * FRACTION_SPAN,
            ;
        }
        (m / d, away)
    };
    let n: u64 = if away { q + 1 } else { q };
    let r: u64 = from_natural(n);
    if negative {
        negate(r)
    } else {
        r
    }
}

/// Whether `r` is the whole part of the square root of `n`.
pub open spec fn is_root_floor(n: int, r: int) -> bool {
    0 <= r && r * r <= n < (r + 1) * (r + 1)
}

/// The whole part of the square root of `n`.
pub open spec fn root_floor(n: int) -> int {
    choose|r: int| is_root_floor(n, r)
}

/// A natural number has one whole square root.
pub proof fn lemma_root_floor_is_unique(n: int, a: int, b: int)
    requires
        is_root_floor(n, a),
        is_root_floor(n, b),
    ensures
        a == b,
{
    if a < b {
        assert((a + 1) * (a + 1) <= b * b) by (nonlinear_arith)
            requires
                0 <= a + 1 <= b,
        ;
    }
    if b < a {
        assert((b + 1) * (b + 1) <= a * a) by (nonlinear_arith)
            requires
                0 <= b + 1 <= a,
        ;
    }
}

/// The whole part of the square root of a natural number.
pub fn integer_root(n: u128) -> (r: u64)
    ensures
        is_root_floor(n as int, r as int),
        r as int == root_floor(n as int),
{
    let mut r: u128 = 0;
    let mut step: u128 = 0x1_0000_0000_0000_0000;
    let mut k: u64 = 64;
    proof {
        lemma2_to64();
        assert(n < 0x1_0000_0000_0000_0000 * 0x1_0000_0000_0000_0000);
    }
    while step > 1
        invariant
            k <= 64,
            step == pow2(k as nat),
            1 <= step <= 0x1_0000_0000_0000_0000,
            r + step <= 0x1_0000_0000_0000_0000,
            r * r <= n < (r + step) * (r + step),
        decreases step,
    {
        proof {
            lemma2_to64();
            if k == 0 {
                assert(step == 1);
            }
            lemma_pow2_unfold(k as nat);
        }
        let half: u128 = step / 2;
        let c: u128 = r + half;
        assert(c * c <= 0xFFFF_FFFF_FFFF_FFFF * 0xFFFF_FFFF_FFFF_FFFF) by (nonlinear_arith)
            requires
                0 <= c <= 0xFFFF_FFFF_FFFF_FFFF,
        ;
        if c * c <= n {
            r = c;
        }
        step = half;
        k = k - 1;
    }
    proof {
        lemma_root_floor_is_unique(n as int, r as int, root_floor(n as int));
    }
    r as u64
}

/// The significand `m` and the exponent field `e` of a number that is
/// neither zero nor an infinity nor a not-a-number, with `m` doubled and
/// `e` lowered until `m` has reached `2^52`: the number is `m * 2^(e - 1075)`.
pub open spec fn scaled_parts(m: int, e: int) -> (int, int)
    decreases (if m < FRACTION_SPAN { FRACTION_SPAN - m } else { 0 }),
{
    if m >= FRACTION_SPAN || m <= 0 {
        (m, e)
    } else {
        scaled_parts(2 * m, e - 1)
    }
}

/// The significand and exponent of a finite number that is not zero.
pub open spec fn parts(mag: u64) -> (int, int) {
    let e = mag as int / FRACTION_SPAN as int;
    let f = mag as int % FRACTION_SPAN as int;
    if e == 0 {
        scaled_parts(f, 1)
    } else {
        (FRACTION_SPAN + f, e)
    }
}

/// The square root of a number, rounded to nearest with ties to even: a
/// not-a-number for not-a-numbers and for negative numbers, the number
/// itself for zeros and for positive infinity.  For any other number
/// `m * 2^(e - 1075)`, `m` is scaled by `2^56` or `2^57`, so that the rest
/// of the exponent is even; the whole root of the scaled `m` has fifty-five
/// bits, of which the lowest two, and whether the root is exact, decide the
/// rounding.
pub open spec fn sqrt_bits(x: u64) -> u64 {
    if spec_is_nan(x) || (spec_is_negative(x) && !spec_is_zero(x)) {
        NAN
    } else if spec_is_zero(x) || x == INFINITY {
        x
    } else {
        let (m, e) = parts(x);
        let s: int = if (e - 1075) % 2 == 0 { 56 } else { 57 };
        let n = m * pow2(s as nat);
        let r = root_floor(n);
        let up = r % 4 == 3 || (r % 4 == 2 && (r * r != n || (r / 4) % 2 == 1));
        let t = (e - 1075 - s) / 2;
        ((1077 + t) * FRACTION_SPAN + (r / 4 - FRACTION_SPAN) + (if up { 1int } else { 0int })) as u64
    }
}

/// The square root of a number.
pub fn sqrt(x: u64) -> (r: u64)
    ensures
        r == sqrt_bits(x),
{
    if is_nan(x) || (x >= SIGN_BIT && !is_zero(x)) {
        return NAN;
    }
    if is_zero(x) || x == INFINITY {
        return x;
    }
    let field: u64 = x / FRACTION_SPAN;
    let fraction: u64 = x % FRACTION_SPAN;
    // `e` is the exponent field plus 64, so that it stays positive while a
    // subnormal is scaled.
    let mut m: u64 = if field == 0 { fraction } else { FRACTION_SPAN + fraction };
    let mut e: u64 = if field == 0 { 65 } else { field + 64 };
    proof {
        lemma2_to64();
        assert(fraction * pow2(0) == fraction) by (nonlinear_arith)
            requires
                pow2(0) == 1,
        ;
    }
    while m < FRACTION_SPAN
        invariant
            1 <= m < SAFE_LIMIT,
            13 <= e <= 2046 + 64,
            m < FRACTION_SPAN ==> e <= 65 && m == fraction * pow2((65 - e) as nat) && fraction >= 1,
            scaled_parts(m as int, e - 64) == parts(x),
        decreases e,
    {
        proof {
            let k = (65 - e) as nat;
            lemma_pow2_unfold(k + 1);
            lemma_pow2_pos(k);
            assert(pow2(k) <= m) by (nonlinear_arith)
                requires
                    m == fraction * pow2(k),
                    fraction >= 1,
                    pow2(k) > 0,
            ;
            if k >= 52 {
                lemma2_to64_rest();
                if k > 52 {
                    lemma_pow2_strictly_increases(52, k);
                }
                assert(pow2(k) >= FRACTION_SPAN);
            }
            assert(fraction * (2 * pow2(k)) == 2 * (fraction * pow2(k))) by (nonlinear_arith);
        }
        m = m * 2;
        e = e - 1;
    }
    // The number is `m * 2^(e - 64 - 1075)`, and `e - 64 - 1075` is even
    // exactly where `e` is odd.
    let s: u64 = if e % 2 == 1 { 56 } else { 57 };
    let d: u64 = power_of_two(s);
    proof {
        lemma2_to64_rest();
        assert(m * d < 0x4000_0000_0000_0000_0000_0000_0000) by (nonlinear_arith)
            requires
                m < 0x0020_0000_0000_0000,
                d <= 0x0200_0000_0000_0000,
        ;
        assert(m * d >= 0x1000_0000_0000_0000_0000_0000_0000) by (nonlinear_arith)
            requires
                m >= 0x0010_0000_0000_0000,
                d >= 0x0100_0000_0000_0000,
        ;
    }
    let n: u128 = m as u128 * d as u128;
    let root: u64 = integer_root(n);
    proof {
        assert(root >= 0x40_0000_0000_0000) by {
            if root < 0x40_0000_0000_0000 {
                assert((root + 1) * (root + 1) <= 0x1000_0000_0000_0000_0000_0000_0000)
                    by (nonlinear_arith)
                    requires
                        0 <= root + 1 <= 0x40_0000_0000_0000,
                ;
            }
        }
        assert(root < 0x80_0000_0000_0000) by {
            if root >= 0x80_0000_0000_0000 {
                assert(root * root >= 0x4000_0000_0000_0000_0000_0000_0000) by (nonlinear_arith)
                    requires
                        root >= 0x80_0000_0000_0000,
                ;
            }
        }
        assert(root as u128 * root as u128 <= n);
    }
    let exact: bool = root as u128 * root as u128 == n;
    let q: u64 = root / 4;
    let low: u64 = root % 4;
    let up: bool = low == 3 || (low == 2 && (!exact || q % 2 == 1));
    // Half of `e - 64 - 1075 - s`, which is even; `1077` and the sixty-four
    // are folded into the constant.
    let doubled: u64 = e + 1015 - s;
    let base: u64 = (doubled / 2) * FRACTION_SPAN + (q - FRACTION_SPAN);
    proof {
        let t = (e - 64 - 1075 - s) / 2;
        assert((e - 64 - 1075) % 2 == 0 <==> e % 2 == 1);
        assert((e - 64 - 1075 - s) % 2 == 0);
        assert(doubled as int == 2 * (1077 + t));
        assert(doubled / 2 == 1077 + t);
    }
    if up {
        base + 1
    } else {
        base
    }
}

/// The number `k / 2^53`, where `k` is `raw` without its eleven lowest
/// bits: a number from zero up to, and not reaching, one.
pub open spec fn unit_fraction(raw: u64) -> u64 {
    if raw / 2048 == 0 {
        ZERO
    } else {
        (number_of_natural((raw / 2048) as nat) - 53 * FRACTION_SPAN) as u64
    }
}

/// A number from zero up to, and not reaching, one, made of the fifty-three
/// highest bits of `raw`.
pub fn unit_interval(raw: u64) -> (r: u64)
    ensures
        r == unit_fraction(raw),
        r < ONE,
{
    let k: u64 = raw / 2048;
    if k == 0 {
        ZERO
    } else {
        from_natural(k) - 53 * FRACTION_SPAN
    }
}

/// The sum that IEEE-754 addition gives, rounded to nearest with ties to even.
pub uninterp spec fn ieee_sum(a: u64, b: u64) -> u64;

/// The difference that IEEE-754 subtraction gives, rounded to nearest with ties to even.
pub uninterp spec fn ieee_difference(a: u64, b: u64) -> u64;

/// The product that IEEE-754 multiplication gives, rounded to nearest with ties to even.
pub uninterp spec fn ieee_product(a: u64, b: u64) -> u64;

/// The quotient that IEEE-754 division gives, rounded to nearest with ties to even.
pub uninterp spec fn ieee_quotient(a: u64, b: u64) -> u64;

/// The remainder of the division whose quotient is cut toward zero; it has
/// the sign of the dividend.
pub uninterp spec fn ieee_remainder(a: u64, b: u64) -> u64;

/// `acc` multiplied by the `n`-th power of `base`, the power taken by
/// squaring: each factor is a rounded product.
pub open spec fn power_by_squaring(base: u64, n: nat, acc: u64) -> u64
    decreases n,
{
    if n == 0 {
        acc
    } else {
        power_by_squaring(
            ieee_product(base, base),
            n / 2,
            if n % 2 == 1 {
                ieee_product(acc, base)
            } else {
                acc
            },
        )
    }
}

/// `x` to the power `y`, where `y` is a whole number of absolute value
/// below `2^53`, a zero, an infinity or a not-a-number; nothing for any
/// other `y`.  A zero `y` gives one and a not-a-number on either side a
/// not-a-number.  An infinite `y` gives infinity or zero, as the absolute
/// value of `x` is above or below one and `y` positive or negative, and a
/// not-a-number where it is one.  A whole `y` gives the power by squaring,
/// and one divided by it where `y` is negative.
pub open spec fn pow_bits(x: u64, y: u64) -> Option<u64> {
    if spec_is_nan(y) {
        Some(NAN)
    } else if spec_is_zero(y) {
        Some(ONE)
    } else if spec_is_nan(x) {
        Some(NAN)
    } else if spec_is_infinite(y) {
        if magnitude(x) == ONE {
            Some(NAN)
        } else if (magnitude(x) > ONE) == !spec_is_negative(y) {
            Some(INFINITY)
        } else {
            Some(ZERO)
        }
    } else {
        match safe_integer_value(y) {
            Some(n) => if n < 0 {
                Some(ieee_quotient(ONE, power_by_squaring(x, (-n) as nat, ONE)))
            } else {
                Some(power_by_squaring(x, n as nat, ONE))
            },
            None => None,
        }
    }
}

/// `x` to the power `y`, where the library computes it.
pub fn pow(x: u64, y: u64) -> (r: Option<u64>)
    ensures
        r == pow_bits(x, y),
{
    if is_nan(y) {
        return Some(NAN);
    }
    if is_zero(y) {
        return Some(ONE);
    }
    if is_nan(x) {
        return Some(NAN);
    }
    if is_infinite(y) {
        let a: u64 = absolute(x);
        if a == ONE {
            return Some(NAN);
        }
        if (a > ONE) == !is_negative(y) {
            return Some(INFINITY);
        }
        return Some(ZERO);
    }
    let n: i64 = match to_safe_integer(y) {
        Some(n) => n,
        None => {
            return None;
        },
    };
    let mut left: u64 = if n < 0 { (-n) as u64 } else { n as u64 };
    let mut base: u64 = x;
    let mut acc: u64 = ONE;
    while left > 0
        invariant
            power_by_squaring(base, left as nat, acc) == power_by_squaring(
                x,
                (if n < 0 { -n } else { n as int }) as nat,
                ONE,
            ),
        decreases left,
    {
        if left % 2 == 1 {
            acc = ieee_multiply(acc, base);
        }
        base = ieee_multiply(base, base);
        left = left / 2;
    }
    if n < 0 {
        Some(ieee_divide(ONE, acc))
    } else {
        Some(acc)
    }
}

/// Calls `rustc_apfloat`'s `Add` for `ieee::Double`, which adds under the
/// default rounding, nearest with ties to even.  The contract only names the
/// pattern that comes back.
#[verifier::external_body]
pub(crate) fn ieee_add(a: u64, b: u64) -> (r: u64)
    ensures
        r == ieee_sum(a, b),
{
    (Double::from_bits(a as u128) + Double::from_bits(b as u128)).value.to_bits() as u64
}

/// Calls `rustc_apfloat`'s `Sub` for `ieee::Double`.  The contract only names
/// the pattern that comes back.
#[verifier::external_body]
pub(crate) fn ieee_subtract(a: u64, b: u64) -> (r: u64)
    ensures
        r == ieee_difference(a, b),
{
    (Double::from_bits(a as u128) - Double::from_bits(b as u128)).value.to_bits() as u64
}

/// Calls `rustc_apfloat`'s `Mul` for `ieee::Double`.  The contract only names
/// the pattern that comes back.
#[verifier::external_body]
pub(crate) fn ieee_multiply(a: u64, b: u64) -> (r: u64)
    ensures
        r == ieee_product(a, b),
{
    (Double::from_bits(a as u128) * Double::from_bits(b as u128)).value.to_bits() as u64
}

/// Calls `rustc_apfloat`'s `Div` for `ieee::Double`; a zero divisor gives an
/// infinity or a not-a-number, never a failure.  The contract only names the
/// pattern that comes back.
#[verifier::external_body]
pub(crate) fn ieee_divide(a: u64, b: u64) -> (r: u64)
    ensures
        r == ieee_quotient(a, b),
{
    (Double::from_bits(a as u128) / Double::from_bits(b as u128)).value.to_bits() as u64
}

/// Calls `rustc_apfloat`'s `Rem` for `ieee::Double`, which is C's `fmod`.
/// The contract only names the pattern that comes back.
#[verifier::external_body]
pub(crate) fn ieee_modulo(a: u64, b: u64) -> (r: u64)
    ensures
        r == ieee_remainder(a, b),
{
    (Double::from_bits(a as u128) % Double::from_bits(b as u128)).value.to_bits() as u64
}

/// Calls `rand`'s `random`, which draws sixty-four bits from the thread's
/// generator.  Nothing is claimed of what comes back.
#[verifier::external_body]
pub(crate) fn random_bits() -> (r: u64)
{
    rand::random::<u64>()
}

} // verus!
