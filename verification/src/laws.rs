//! Laws of the library: what holds of its values, numbers, objects and
//! runs, stated over the functions that its contracts speak of, and proved.

use vstd::prelude::*;
use vstd::arithmetic::div_mod::lemma_fundamental_div_mod;
use vstd::arithmetic::power2::{
    lemma2_to64, lemma2_to64_rest, lemma_pow2_pos, lemma_pow2_strictly_increases,
    lemma_pow2_unfold, pow2,
};
use crate::ast::Statement;
use vstd::arithmetic::div_mod::lemma_fundamental_div_mod_converse;
use crate::number::{
    is_root_floor, magnitude, natural_value, normalized, number_of_natural, parts, root_floor,
    safe_integer_value, scaled_parts, spec_equal, spec_is_finite, spec_is_nan,
    spec_is_negative, spec_is_zero, spec_negate, sqrt_bits, BIAS, FRACTION_SPAN, INFINITY,
    NEG_INFINITY, SAFE_LIMIT, SIGN_BIT, UNIT_EXPONENT,
};
use crate::text::{
    all_digits, decimal_digits, decimal_text, digit_char, digits_end, digits_value,
    integer_text, is_decimal_literal, is_digit, is_plain_natural, number_text, parse_number,
    positional, pow10, reads_back, shortest_text, text_number, DIGITS_LIMIT,
};
use crate::error::ErrorView;
use crate::exec::ran;
use crate::semantics::run_statement;
use crate::state::{is_object_of, State};
use crate::value::{
    distinct, field, find, find_from, get, has, put, truthy, with_field, Properties, ValueView,
};

verus! {

/// A search from `start` ends at the first place from there on that holds
/// `name`, or at the end.
pub proof fn lemma_find_from(props: Properties, name: Seq<char>, start: int)
    requires
        0 <= start <= props.len(),
    ensures
        start <= find_from(props, name, start) <= props.len(),
        find_from(props, name, start) < props.len() ==> props[find_from(props, name, start)].0
            == name,
        forall|j: int| start <= j < find_from(props, name, start) ==> (#[trigger] props[j]).0 != name,
    decreases props.len() - start,
{
    if start < props.len() && props[start].0 != name {
        lemma_find_from(props, name, start + 1);
    }
}

/// A search ends at `at` where `at` holds `name` and no place from `start`
/// up to `at` does.
pub proof fn lemma_find_from_is(props: Properties, name: Seq<char>, start: int, at: int)
    requires
        0 <= start <= at <= props.len(),
        at < props.len() ==> props[at].0 == name,
        forall|j: int| start <= j < at ==> (#[trigger] props[j]).0 != name,
    ensures
        find_from(props, name, start) == at,
    decreases at - start,
{
    if start < at {
        lemma_find_from_is(props, name, start + 1, at);
    }
}

/// The place of `name` after `value` was stored under it: its old place
/// where it was present, the old length where it was absent.
pub proof fn lemma_find_after_put(props: Properties, name: Seq<char>, value: ValueView)
    ensures
        find(put(props, name, value), name) == find(props, name),
        has(put(props, name, value), name),
{
    lemma_find_from(props, name, 0);
    let at = find(props, name);
    let after = put(props, name, value);
    assert forall|j: int| 0 <= j < at implies (#[trigger] after[j]).0 != name by {
        assert(after[j] == props[j]);
    }
    lemma_find_from_is(after, name, 0, at);
}

/// What was stored under a name is what is read from it.
pub proof fn law_get_after_put(props: Properties, name: Seq<char>, value: ValueView)
    ensures
        get(put(props, name, value), name) == value,
{
    lemma_find_after_put(props, name, value);
    lemma_find_from(props, name, 0);
}

/// Storing under one name changes nothing under another.
pub proof fn law_get_other_after_put(
    props: Properties,
    name: Seq<char>,
    value: ValueView,
    other: Seq<char>,
)
    requires
        other != name,
    ensures
        get(put(props, name, value), other) == get(props, other),
        has(put(props, name, value), other) == has(props, other),
{
    lemma_find_from(props, name, 0);
    lemma_find_from(props, other, 0);
    let at = find(props, other);
    let after = put(props, name, value);
    assert forall|j: int| 0 <= j < at implies (#[trigger] after[j]).0 != other by {
        if j == find(props, name) {
            assert(after[j].0 == name);
        } else {
            assert(after[j] == props[j]);
        }
    }
    if at < props.len() {
        assert(after[at] == props[at]);
        lemma_find_from_is(after, other, 0, at);
    } else {
        lemma_find_from_is(after, other, 0, after.len() as int);
    }
}

/// Storing keeps the names of an object distinct.
pub proof fn law_put_keeps_distinct(props: Properties, name: Seq<char>, value: ValueView)
    requires
        distinct(props),
    ensures
        distinct(put(props, name, value)),
{
    lemma_find_from(props, name, 0);
    let after = put(props, name, value);
    assert forall|i: int, j: int| 0 <= i < j < after.len() implies after[i].0 != after[j].0 by {
        if has(props, name) {
            assert(after[i].0 == props[i].0);
            assert(after[j].0 == props[j].0);
        } else if j == props.len() {
            assert(after[i] == props[i]);
        } else {
            assert(after[i] == props[i]);
            assert(after[j] == props[j]);
        }
    }
}

/// A declaration is mirrored: once `name` is bound to `value`, the global
/// object holds `value` under `name`, and so does the variable `name` as the
/// innermost scope reads it.
pub proof fn law_binding_is_mirrored(s: State, name: Seq<char>, value: ValueView)
    requires
        s.wf(),
    ensures
        field(s.bind(name, value).heap, s.global, name) == value,
        s.bind(name, value).lookup(name) == value,
        s.bind(name, value).wf(),
{
    let vars = s.current().vars;
    assert(is_object_of(s.heap, vars));
    let h1 = with_field(s.heap, vars, name, value);
    let h2 = with_field(h1, s.global, name, value);
    let v = vars->Object_0 as int;
    let g = s.global->Object_0 as int;
    law_get_after_put(s.heap[v], name, value);
    lemma_find_after_put(s.heap[v], name, value);
    law_get_after_put(h1[g], name, value);
    lemma_find_after_put(h1[g], name, value);
    assert(s.bind(name, value).heap == h2);
    assert(h2[g] == put(h1[g], name, value));
    if v != g {
        assert(h2[v] == h1[v]);
    }
    let after = s.bind(name, value);
    assert forall|i: int| 0 <= i < after.scopes.len() implies is_object_of(
        after.heap,
        #[trigger] after.scopes[i].vars,
    ) by {
        assert(is_object_of(s.heap, s.scopes[i].vars));
    }
}

/// `toBoolean` is stable: choosing a true value where a value is true, and a
/// false value where it is false, gives a value that is true exactly where
/// the first one was.
pub proof fn law_truthiness_is_stable(v: ValueView, when_true: ValueView, when_false: ValueView)
    requires
        truthy(when_true),
        !truthy(when_false),
    ensures
        truthy(if truthy(v) { when_true } else { when_false }) == truthy(v),
{
}

/// A run is deterministic: of two runs of one statement that start in equal
/// states with equal depth, either both draw a random number or neither
/// does; and where they draw none, they end in equal states with equal
/// results.
pub proof fn law_runs_are_deterministic(
    stmt: Statement,
    depth: nat,
    before: State,
    first: (State, Result<ValueView, ErrorView>),
    second: (State, Result<ValueView, ErrorView>),
)
    requires
        ran(before, first.0, first.1, run_statement(before, stmt, depth)),
        ran(before, second.0, second.1, run_statement(before, stmt, depth)),
    ensures
        first.0.random == second.0.random,
        !first.0.random ==> first == second,
{
}

/// The digits of a natural number are digits, at least one, and spell the number.
pub proof fn lemma_decimal_digits(k: nat)
    ensures
        decimal_digits(k).len() >= 1,
        all_digits(decimal_digits(k)),
        digits_value(decimal_digits(k)) == k,
    decreases k,
{
    if k < 10 {
        let s = decimal_digits(k);
        assert(s.len() == 1);
        assert(s[0] == digit_char(k));
        assert(s.drop_last() =~= Seq::<char>::empty());
        assert(digits_value(s.drop_last()) == 0);
    } else {
        lemma_decimal_digits(k / 10);
        let front = decimal_digits(k / 10);
        let s = decimal_digits(k);
        assert(s == front.push(digit_char(k % 10)));
        assert(s.drop_last() =~= front);
        assert(s.last() == digit_char(k % 10));
        assert forall|i: int| 0 <= i < s.len() implies is_digit(#[trigger] s[i]) by {
            if i < front.len() {
                assert(s[i] == front[i]);
            }
        }
    }
}

/// A natural number below the `j`-th power of ten has at most `j` digits.
pub proof fn lemma_digits_length(k: nat, j: nat)
    requires
        j >= 1,
        k < pow10(j),
    ensures
        decimal_digits(k).len() <= j,
    decreases k,
{
    if k >= 10 {
        reveal_with_fuel(pow10, 2);
        if j == 1 {
            assert(pow10(1) == 10);
        } else {
            lemma_digits_length(k / 10, (j - 1) as nat);
        }
    }
}

/// Doubling a significand `k` times, while it stays below `2^52`, does not
/// change the number that it is scaled to.
pub proof fn lemma_normalized_scaled(v: nat, k: nat)
    requires
        v >= 1,
        k <= 52,
        v * pow2(k) < SAFE_LIMIT,
        k > 0 ==> v * pow2((k - 1) as nat) < FRACTION_SPAN,
    ensures
        normalized(v, UNIT_EXPONENT as nat) == normalized(v * pow2(k), (UNIT_EXPONENT - k) as nat),
    decreases k,
{
    lemma2_to64();
    if k == 0 {
        assert(v * pow2(0) == v) by (nonlinear_arith)
            requires
                pow2(0) == 1,
        ;
    } else {
        let j = (k - 1) as nat;
        lemma_pow2_unfold(k);
        lemma_pow2_pos(j);
        assert(v * pow2(k) == 2 * (v * pow2(j))) by (nonlinear_arith)
            requires
                pow2(k) == 2 * pow2(j),
        ;
        if j > 0 {
            let i = (j - 1) as nat;
            lemma_pow2_unfold(j);
            lemma_pow2_pos(i);
            assert(v * pow2(i) < FRACTION_SPAN) by (nonlinear_arith)
                requires
                    v * pow2(j) < FRACTION_SPAN,
                    pow2(j) == 2 * pow2(i),
                    v >= 1,
                    pow2(i) > 0,
            ;
        }
        lemma_normalized_scaled(v, j);
    }
}

/// A pattern without sign that denotes a natural number from one up to
/// `2^53` is the number of that natural number: no other pattern denotes it.
pub proof fn lemma_natural_value_is_unique(mag: u64, v: int)
    requires
        mag < SIGN_BIT,
        natural_value(mag) == Some(v),
        1 <= v < SAFE_LIMIT,
    ensures
        mag == number_of_natural(v as nat),
{
    lemma2_to64();
    lemma2_to64_rest();
    let e = mag as int / FRACTION_SPAN as int;
    let f = mag as int % FRACTION_SPAN as int;
    let m = FRACTION_SPAN as int + f;
    lemma_fundamental_div_mod(mag as int, FRACTION_SPAN as int);
    assert(mag != 0);
    if e >= UNIT_EXPONENT as int {
        let k = (e - UNIT_EXPONENT as int) as nat;
        if k > 0 {
            if k > 1 {
                lemma_pow2_strictly_increases(1, k);
            }
            assert(m * pow2(k) >= SAFE_LIMIT) by (nonlinear_arith)
                requires
                    m >= FRACTION_SPAN,
                    pow2(k) >= 2,
                    SAFE_LIMIT == 2 * FRACTION_SPAN,
            ;
        }
        assert(k == 0);
        assert(m * pow2(0) == m) by (nonlinear_arith)
            requires
                pow2(0) == 1,
        ;
        assert(v == m);
    } else {
        let k = (UNIT_EXPONENT as int - e) as nat;
        let d = pow2(k) as int;
        lemma_pow2_pos(k);
        assert(1 <= k <= 52);
        lemma_fundamental_div_mod(m, d);
        assert(m == d * v);
        assert(v * pow2(k) == m) by (nonlinear_arith)
            requires
                m == d * v,
                d == pow2(k),
        ;
        let j = (k - 1) as nat;
        lemma_pow2_unfold(k);
        lemma_pow2_pos(j);
        assert(v * pow2(j) < FRACTION_SPAN) by (nonlinear_arith)
            requires
                v * pow2(k) < SAFE_LIMIT,
                pow2(k) == 2 * pow2(j),
                SAFE_LIMIT == 2 * FRACTION_SPAN,
        ;
        lemma_normalized_scaled(v as nat, k);
        assert(normalized(m as nat, e as nat) == mag);
    }
}

/// What the text of a whole number reads back as: the number of that whole number.
pub proof fn lemma_integer_text_reads_back(v: int)
    requires
        -(SAFE_LIMIT as int) < v < SAFE_LIMIT as int,
    ensures
        v >= 0 ==> parse_number(integer_text(v)) == Some(number_of_natural(v as nat)),
        v < 0 ==> parse_number(integer_text(v)) == Some(
            spec_negate(number_of_natural((-v) as nat)),
        ),
{
    reveal_strlit("Infinity");
    reveal_strlit("+Infinity");
    reveal_strlit("-Infinity");
    let k: nat = if v < 0 { (-v) as nat } else { v as nat };
    let digits = decimal_digits(k);
    lemma_decimal_digits(k);
    reveal_with_fuel(pow10, 17);
    lemma_digits_length(k, 16);
    assert(is_digit(digits[0]));
    assert(is_plain_natural(digits));
    let text = integer_text(v);
    if v >= 0 {
        assert(text == digits);
        assert(text[0] != 'I' && text[0] != '+' && text[0] != '-');
        assert("Infinity"@[0] == 'I');
        assert("+Infinity"@[0] == '+');
        assert("-Infinity"@[0] == '-');
    } else {
        assert(text == seq!['-'] + digits);
        assert(text[0] == '-');
        assert(text[1] == digits[0]);
        assert(text.drop_first() =~= digits);
        assert("Infinity"@[0] == 'I');
        assert("+Infinity"@[0] == '+');
        assert("-Infinity"@[1] == 'I');
        assert(!is_digit(text[0]));
        assert(!is_plain_natural(text));
    }
}

/// The text of a number that is neither a whole number below `2^53` nor an
/// infinity nor a not-a-number reads back as the number, unless it is the
/// text of seventeen digits.
pub proof fn lemma_shortest_text(bits: u64, digits: nat)
    requires
        1 <= digits <= DIGITS_LIMIT,
    ensures
        reads_back(shortest_text(bits, digits), bits) || shortest_text(bits, digits) == positional(
            decimal_text(bits, DIGITS_LIMIT as nat),
        ),
    decreases DIGITS_LIMIT - digits,
{
    if digits < DIGITS_LIMIT && !reads_back(positional(decimal_text(bits, digits)), bits) {
        lemma_shortest_text(bits, digits + 1);
    }
}

/// A number, written and read back, is the number again, or both are
/// not-a-numbers: `toNumber(toString(n))` equals `n`.  This holds of every
/// not-a-number, of the infinities, of every whole number below `2^53`, and
/// of every other number for which a text of fewer than seventeen digits
/// reads back.  Where none does, the text is the one of seventeen digits,
/// of which nothing is proved here.
pub proof fn law_number_text_reads_back(n: u64)
    ensures
        (spec_is_nan(n) && spec_is_nan(text_number(number_text(n)))) || spec_equal(
            text_number(number_text(n)),
            n,
        ) || (safe_integer_value(n).is_none() && number_text(n) == positional(
            decimal_text(n, DIGITS_LIMIT as nat),
        )),
{
    reveal_strlit("NaN");
    reveal_strlit("Infinity");
    reveal_strlit("+Infinity");
    reveal_strlit("-Infinity");
    if spec_is_nan(n) {
        let t = "NaN"@;
        assert(t.len() == 3 && t[0] == 'N');
        assert(!is_digit(t[0]));
        assert(digits_end(t, 0) == 0);
        assert(!is_decimal_literal(t));
        assert(!is_plain_natural(t));
        assert(parse_number(t).is_none());
    } else if n == INFINITY {
    } else if n == NEG_INFINITY {
        assert("-Infinity"@.len() == 9);
        assert("Infinity"@.len() == 8);
        assert("+Infinity"@[0] == '+' && "-Infinity"@[0] == '-');
    } else {
        match safe_integer_value(n) {
            Some(v) => {
                lemma_integer_text_reads_back(v);
                let mag = magnitude(n);
                if v == 0 {
                    assert(natural_value(mag) == Some(0int));
                    assert(mag == 0) by {
                        if mag != 0 {
                            lemma_natural_value_is_positive(mag);
                        }
                    }
                } else if v > 0 {
                    if spec_is_negative(n) {
                        lemma_natural_value_is_positive(mag);
                    }
                    lemma_natural_value_is_unique(mag, v);
                } else {
                    if !spec_is_negative(n) {
                        if mag != 0 {
                            lemma_natural_value_is_positive(mag);
                        }
                    }
                    lemma_natural_value_is_unique(mag, -v);
                }
            },
            None => {
                lemma_shortest_text(n, 1);
            },
        }
    }
}

/// A pattern without sign that is not zero denotes no natural number or a positive one.
pub proof fn lemma_natural_value_is_positive(mag: u64)
    requires
        mag != 0,
    ensures
        natural_value(mag) matches Some(v) ==> v > 0,
{
    lemma2_to64();
    let e = mag as int / FRACTION_SPAN as int;
    let m = FRACTION_SPAN as int + mag as int % FRACTION_SPAN as int;
    if e >= UNIT_EXPONENT as int && e < 2047 {
        let k = (e - UNIT_EXPONENT as int) as nat;
        lemma_pow2_pos(k);
        assert(m * pow2(k) > 0) by (nonlinear_arith)
            requires
                m > 0,
                pow2(k) > 0,
        ;
    } else if e >= BIAS as int && e < UNIT_EXPONENT as int {
        let k = (UNIT_EXPONENT as int - e) as nat;
        let d = pow2(k) as int;
        lemma_pow2_pos(k);
        if m % d == 0 {
            lemma_fundamental_div_mod(m, d);
            assert(m / d > 0) by (nonlinear_arith)
                requires
                    m == d * (m / d),
                    m > 0,
                    d > 0,
            ;
        }
    }
}

/// Every natural number has a whole square root.
pub proof fn lemma_root_floor_exists(n: int)
    requires
        n >= 0,
    ensures
        is_root_floor(n, root_floor(n)),
    decreases n,
{
    if n == 0 {
        assert(is_root_floor(0, 0));
    } else {
        lemma_root_floor_exists(n - 1);
        let r = root_floor(n - 1);
        if n < (r + 1) * (r + 1) {
            assert(is_root_floor(n, r));
        } else {
            assert((r + 2) * (r + 2) > (r + 1) * (r + 1)) by (nonlinear_arith)
                requires
                    r >= 0,
            ;
            assert(is_root_floor(n, r + 1));
        }
    }
}

/// A significand, doubled until it has reached `2^52`, lies in
/// `[2^52, 2^53)`; its exponent was lowered by fewer than fifty-three.
pub proof fn lemma_scaled_parts(m: int, e: int)
    requires
        1 <= m < SAFE_LIMIT,
    ensures
        FRACTION_SPAN <= scaled_parts(m, e).0 < SAFE_LIMIT,
        e - 53 < scaled_parts(m, e).1 <= e,
    decreases FRACTION_SPAN - m,
{
    lemma2_to64();
    if m < FRACTION_SPAN {
        lemma_scaled_bound(m, e, 0);
    }
}

/// Doubling `m` lowers the exponent by one for each doubling; after `k`
/// doublings of a significand that was at least one, at most fifty-two less
/// `k` are left.
proof fn lemma_scaled_bound(m: int, e: int, k: nat)
    requires
        1 <= m < FRACTION_SPAN,
        pow2(k) <= m,
        k <= 51,
    ensures
        FRACTION_SPAN <= scaled_parts(m, e).0 < SAFE_LIMIT,
        e - (52 - k) <= scaled_parts(m, e).1 < e,
    decreases FRACTION_SPAN - m,
{
    lemma2_to64();
    lemma2_to64_rest();
    lemma_pow2_unfold(k + 1);
    assert(scaled_parts(m, e) == scaled_parts(2 * m, e - 1));
    if 2 * m < FRACTION_SPAN {
        if k + 1 > 51 {
            assert(pow2(52) <= 2 * m);
        }
        lemma_scaled_bound(2 * m, e - 1, k + 1);
    } else {
        assert(scaled_parts(2 * m, e - 1) == (2 * m, e - 1));
    }
}

/// Squaring keeps the order of natural numbers.
proof fn lemma_square_is_monotone(a: int, b: int)
    requires
        0 <= a <= b,
    ensures
        a * a <= b * b,
{
    assert(a * a <= b * b) by (nonlinear_arith)
        requires
            0 <= a <= b,
    ;
}

/// Whether `a * 2^p` is at most `b * 2^q`.
pub open spec fn scaled_le(a: int, p: int, b: int, q: int) -> bool {
    if p >= q {
        a * pow2((p - q) as nat) <= b
    } else {
        a <= b * pow2((q - p) as nat)
    }
}

/// The square root that the library computes is the nearest number to the
/// true root: for a finite number `x` above zero and its root `y`, with
/// significands `mx` and `my` and exponents `ex` and `ey`, the square of
/// `y` less half a unit in its last place is at most `x`, and the square of
/// `y` and half a unit in its last place is at least `x`.
pub proof fn law_sqrt_is_nearest(x: u64)
    requires
        spec_is_finite(x),
        !spec_is_negative(x),
        !spec_is_zero(x),
    ensures
        spec_is_finite(sqrt_bits(x)),
        !spec_is_negative(sqrt_bits(x)),
        !spec_is_zero(sqrt_bits(x)),
        FRACTION_SPAN <= parts(sqrt_bits(x)).0 < SAFE_LIMIT,
        scaled_le(
            (2 * parts(sqrt_bits(x)).0 - 1) * (2 * parts(sqrt_bits(x)).0 - 1),
            2 * (parts(sqrt_bits(x)).1 - 1075) - 2,
            parts(x).0,
            parts(x).1 - 1075,
        ),
        scaled_le(
            parts(x).0,
            parts(x).1 - 1075,
            (2 * parts(sqrt_bits(x)).0 + 1) * (2 * parts(sqrt_bits(x)).0 + 1),
            2 * (parts(sqrt_bits(x)).1 - 1075) - 2,
        ),
{
    lemma2_to64();
    lemma2_to64_rest();
    let field = x as int / FRACTION_SPAN as int;
    let fraction = x as int % FRACTION_SPAN as int;
    lemma_fundamental_div_mod(x as int, FRACTION_SPAN as int);
    if field == 0 {
        lemma_scaled_parts(fraction, 1);
    }
    let (mx, ex) = parts(x);
    assert(FRACTION_SPAN <= mx < SAFE_LIMIT);
    assert(-52 < ex <= 2046);
    let s: int = if (ex - 1075) % 2 == 0 { 56 } else { 57 };
    let scale = pow2(s as nat) as int;
    let n = mx * scale;
    assert(0x1000_0000_0000_0000_0000_0000_0000 <= n < 0x4000_0000_0000_0000_0000_0000_0000)
        by (nonlinear_arith)
        requires
            n == mx * scale,
            0x10_0000_0000_0000 <= mx < 0x20_0000_0000_0000,
            0x100_0000_0000_0000 <= scale <= 0x200_0000_0000_0000,
    ;
    lemma_root_floor_exists(n);
    let r = root_floor(n);
    assert(r >= 0x40_0000_0000_0000) by {
        if r < 0x40_0000_0000_0000 {
            assert((r + 1) * (r + 1) <= 0x1000_0000_0000_0000_0000_0000_0000) by (nonlinear_arith)
                requires
                    0 <= r + 1 <= 0x40_0000_0000_0000,
            ;
        }
    }
    assert(r < 0x80_0000_0000_0000) by {
        if r >= 0x80_0000_0000_0000 {
            assert(r * r >= 0x4000_0000_0000_0000_0000_0000_0000) by (nonlinear_arith)
                requires
                    r >= 0x80_0000_0000_0000,
            ;
        }
    }
    let q = r / 4;
    let low = r % 4;
    let up = low == 3 || (low == 2 && (r * r != n || q % 2 == 1));
    let t = (ex - 1075 - s) / 2;
    assert(ex - 1075 - s == 2 * t);
    let step: int = if up { 1 } else { 0 };
    let high = q + step;
    let y = sqrt_bits(x);
    assert(y as int == (1077 + t) * FRACTION_SPAN + (high - FRACTION_SPAN));
    // What rounding keeps of the whole root brackets the scaled significand.
    assert(r == 4 * q + low && 0 <= low < 4);
    assert((4 * high - 2) * (4 * high - 2) <= n <= (4 * high + 2) * (4 * high + 2)) by {
        if up {
            lemma_square_is_monotone(4 * q + 2, r);
            lemma_square_is_monotone(r + 1, 4 * q + 6);
        } else {
            lemma_square_is_monotone(4 * q - 2, r);
            if low == 2 {
                assert(r * r == n);
            } else {
                lemma_square_is_monotone(r + 1, 4 * q + 2);
            }
        }
    }
    let rest = pow2((s - 4) as nat) as int;
    assert(scale == 16 * rest) by {
        lemma_pow2_unfold(s as nat);
        lemma_pow2_unfold((s - 1) as nat);
        lemma_pow2_unfold((s - 2) as nat);
        lemma_pow2_unfold((s - 3) as nat);
    }
    assert(pow2((s - 2) as nat) == 4 * rest) by {
        lemma_pow2_unfold((s - 2) as nat);
        lemma_pow2_unfold((s - 3) as nat);
    }
    if high < SAFE_LIMIT {
        lemma_fundamental_div_mod_converse(
            y as int,
            FRACTION_SPAN as int,
            1077 + t,
            high - FRACTION_SPAN,
        );
        assert(parts(y) == (high, 1077 + t));
        let a = (2 * high - 1) * (2 * high - 1);
        let b = (2 * high + 1) * (2 * high + 1);
        assert(a <= mx * (4 * rest) <= b) by (nonlinear_arith)
            requires
                (4 * high - 2) * (4 * high - 2) <= n <= (4 * high + 2) * (4 * high + 2),
                n == mx * (16 * rest),
                a == (2 * high - 1) * (2 * high - 1),
                b == (2 * high + 1) * (2 * high + 1),
        ;
        assert((2 * t + s) - (2 * t + 2) == s - 2);
    } else {
        assert(high == SAFE_LIMIT);
        lemma_fundamental_div_mod_converse(y as int, FRACTION_SPAN as int, 1078 + t, 0);
        assert(parts(y) == (FRACTION_SPAN as int, 1078 + t));
        let my = FRACTION_SPAN as int;
        let a = (2 * my - 1) * (2 * my - 1);
        let b = (2 * my + 1) * (2 * my + 1);
        assert(a <= mx * rest <= b) by (nonlinear_arith)
            requires
                (4 * high - 2) * (4 * high - 2) <= n <= (4 * high + 2) * (4 * high + 2),
                n == mx * (16 * rest),
                high == 0x20_0000_0000_0000,
                my == 0x10_0000_0000_0000,
                a == (2 * my - 1) * (2 * my - 1),
                b == (2 * my + 1) * (2 * my + 1),
        ;
        assert((2 * t + s) - (2 * t + 4) == s - 4);
    }
}

} // verus!
