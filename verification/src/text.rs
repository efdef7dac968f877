//! Numbers as text: the grammar of decimal literals, the text of a number
//! and the number of a text.
//!
//! Whole numbers below `2^53` are written and read here, digit by digit.
//! Every other finite number goes through `rustc_apfloat`'s decimal
//! conversions, which round correctly; the library looks for the
//! shortest of its outputs that reads back as the same number.

use vstd::prelude::*;
use vstd::string::StringExecFns;
use crate::number::{
    from_natural, is_nan, natural_value, negate, number_of_natural, safe_integer_value,
    spec_is_finite, spec_is_nan, spec_is_zero, spec_negate, to_safe_integer, magnitude,
    INFINITY, NAN, NEG_INFINITY, SAFE_LIMIT,
};
use rustc_apfloat::ieee::Double;
use rustc_apfloat::Float;

verus! {

/// The longest literal that is handed to the decimal conversion.
pub const LITERAL_LIMIT: usize = 4096;

/// The most significant digits that a number's text is asked for.
pub const DIGITS_LIMIT: usize = 17;

/// The character of a decimal digit.
pub open spec fn digit_char(d: nat) -> char {
    ((48 + d) as u8) as char
}

/// Whether `c` is one of `0` to `9`.
pub open spec fn is_digit(c: char) -> bool {
    '0' <= c <= '9'
}

/// The decimal digits of `n`, most significant first, without leading zeros.
pub open spec fn decimal_digits(n: nat) -> Seq<char>
    decreases n,
{
    if n < 10 {
        seq![digit_char(n)]
    } else {
        decimal_digits(n / 10).push(digit_char(n % 10))
    }
}

/// The decimal text of an integer: a minus sign where it is negative, then its digits.
pub open spec fn integer_text(n: int) -> Seq<char> {
    if n < 0 {
        seq!['-'] + decimal_digits((-n) as nat)
    } else {
        decimal_digits(n as nat)
    }
}

/// The natural number that a sequence of digits denotes; zero for the empty sequence.
pub open spec fn digits_value(s: Seq<char>) -> nat
    decreases s.len(),
{
    if s.len() == 0 {
        0
    } else {
        (digits_value(s.drop_last()) * 10 + (s.last() as u8 - 48)) as nat
    }
}

/// Whether `s` is made of digits only.
pub open spec fn all_digits(s: Seq<char>) -> bool {
    forall|i: int| 0 <= i < s.len() ==> is_digit(#[trigger] s[i])
}

/// The first place at or after `start` that holds no digit, or the length of `s`.
pub open spec fn digits_end(s: Seq<char>, start: int) -> int
    decreases s.len() - start,
{
    if start < 0 || start >= s.len() || !is_digit(s[start]) {
        if start < 0 || start > s.len() {
            s.len() as int
        } else {
            start
        }
    } else {
        digits_end(s, start + 1)
    }
}

/// Whether `s` holds a sign at place `i`.
pub open spec fn sign_at(s: Seq<char>, i: int) -> bool {
    0 <= i < s.len() && (s[i] == '+' || s[i] == '-')
}

/// Whether `s` is a decimal literal: an optional sign; digits with an
/// optional point among, before or after them, at least one digit in all;
/// and optionally `e` or `E`, an optional sign and at least one digit.
pub open spec fn is_decimal_literal(s: Seq<char>) -> bool {
    let a: int = if sign_at(s, 0) { 1 } else { 0 };
    let b = digits_end(s, a);
    let c = if b < s.len() && s[b] == '.' { digits_end(s, b + 1) } else { b };
    let digits = if c > b { (b - a) + (c - b - 1) } else { b - a };
    let d: int = if sign_at(s, c + 1) { c + 2 } else { c + 1 };
    &&& digits > 0
    &&& c == s.len() || {
        &&& s[c] == 'e' || s[c] == 'E'
        &&& digits_end(s, d) == s.len()
        &&& d < s.len()
    }
}

/// Whether `s` is the plain text of a natural number below `2^53`: one to
/// sixteen digits and nothing else.
pub open spec fn is_plain_natural(s: Seq<char>) -> bool {
    1 <= s.len() <= 16 && all_digits(s) && digits_value(s) < SAFE_LIMIT
}

/// What `rustc_apfloat` reads from a decimal literal: the nearest number,
/// ties to even, or nothing where it refuses the text.
pub uninterp spec fn decimal_parse(text: Seq<char>) -> Option<u64>;

/// What `rustc_apfloat` writes for a finite number that is not zero, asked
/// for at most `digits` significant digits.
pub uninterp spec fn decimal_text(bits: u64, digits: nat) -> Seq<char>;

/// Calls `rustc_apfloat`'s `FromStr` for `ieee::Double`, which reads a
/// decimal literal and rounds it to the nearest number, ties to even.  The
/// contract names the pattern that comes back, and keeps to literals that
/// the library's own grammar accepts and that are not overlong.
#[verifier::external_body]
pub(crate) fn parse_decimal(text: &str) -> (r: Option<u64>)
    requires
        is_decimal_literal(text@),
        text@.len() <= LITERAL_LIMIT,
    ensures
        r == decimal_parse(text@),
{
    text.parse::<Double>().ok().map(|d| d.to_bits() as u64)
}

/// Calls `rustc_apfloat`'s `Display` for `ieee::Double` with a precision of
/// `digits` significant digits, on a finite number that is not zero.  The
/// contract only names the text that comes back.
#[verifier::external_body]
pub(crate) fn format_decimal(bits: u64, digits: usize) -> (r: String)
    requires
        spec_is_finite(bits),
        !spec_is_zero(bits),
        1 <= digits <= DIGITS_LIMIT,
    ensures
        r@ == decimal_text(bits, digits as nat),
{
    format!("{:.*}", digits, Double::from_bits(bits as u128))
}

/// Calls std's `String::push`, which appends one character.
#[verifier::external_body]
pub(crate) fn push_char(s: &mut String, c: char)
    ensures
        final(s)@ == old(s)@.push(c),
{
    s.push(c)
}

/// Appends the decimal digits of `n` to `out`.
pub fn write_digits(n: u64, out: &mut String)
    ensures
        final(out)@ == old(out)@ + decimal_digits(n as nat),
    decreases n,
{
    if n >= 10 {
        write_digits(n / 10, out);
    }
    let d: u8 = (n % 10) as u8;
    push_char(out, (48u8 + d) as char);
    assert(out@ =~= old(out)@ + decimal_digits(n as nat));
}

/// The decimal digits of a natural number.
pub fn natural_to_string(n: u64) -> (r: String)
    ensures
        r@ == decimal_digits(n as nat),
{
    let mut out = String::new();
    write_digits(n, &mut out);
    assert(out@ =~= decimal_digits(n as nat));
    out
}

/// The decimal text of an integer.
pub fn integer_to_string(n: i64) -> (r: String)
    ensures
        r@ == integer_text(n as int),
{
    let mut out = String::new();
    if n < 0 {
        push_char(&mut out, '-');
        write_digits((-(n + 1)) as u64 + 1, &mut out);
    } else {
        write_digits(n as u64, &mut out);
    }
    assert(out@ =~= integer_text(n as int));
    out
}

/// The characters of `s`, one by one.
pub fn characters(s: &str) -> (r: Vec<char>)
    ensures
        r@ == s@,
{
    let mut r: Vec<char> = Vec::new();
    for c in it: s.chars()
        invariant
            it.seq() == s@,
            r@ == it.seq().take(it.index()),
    {
        r.push(c);
        assert(r@ =~= it.seq().take(it.index() + 1));
    }
    assert(r@ =~= s@);
    r
}

/// The first place at or after `start` that holds no digit.
fn scan_digits(s: &Vec<char>, start: usize) -> (r: usize)
    requires
        start <= s@.len(),
    ensures
        r == digits_end(s@, start as int),
        start <= r <= s@.len(),
{
    let mut i: usize = start;
    while i < s.len() && '0' <= s[i] && s[i] <= '9'
        invariant
            start <= i <= s@.len(),
            digits_end(s@, i as int) == digits_end(s@, start as int),
        decreases s@.len() - i,
    {
        i = i + 1;
    }
    i
}

/// Whether the characters `s` are a decimal literal.
pub fn check_decimal_literal(s: &Vec<char>) -> (r: bool)
    ensures
        r == is_decimal_literal(s@),
{
    let n: usize = s.len();
    let a: usize = if n > 0 && (s[0] == '+' || s[0] == '-') { 1 } else { 0 };
    let b: usize = scan_digits(s, a);
    let c: usize = if b < n && s[b] == '.' { scan_digits(s, b + 1) } else { b };
    let digits: usize = if c > b { (b - a) + (c - b - 1) } else { b - a };
    if digits == 0 {
        return false;
    }
    if c == n {
        return true;
    }
    if !(s[c] == 'e' || s[c] == 'E') {
        return false;
    }
    let d: usize = if c + 1 < n && (s[c + 1] == '+' || s[c + 1] == '-') { c + 2 } else { c + 1 };
    if d >= n {
        return false;
    }
    scan_digits(s, d) == n
}

/// The natural number that the characters `s` spell, where they are the
/// plain text of one below `2^53`.
pub fn read_plain_natural(s: &Vec<char>) -> (r: Option<u64>)
    ensures
        match r {
            Some(n) => is_plain_natural(s@) && n == digits_value(s@),
            None => !is_plain_natural(s@),
        },
{
    let n: usize = s.len();
    if n == 0 || n > 16 {
        return None;
    }
    let mut value: u64 = 0;
    let mut i: usize = 0;
    while i < n
        invariant
            n == s@.len(),
            1 <= n <= 16,
            0 <= i <= n,
            all_digits(s@.subrange(0, i as int)),
            value == digits_value(s@.subrange(0, i as int)),
            value < pow10(i as nat),
        decreases n - i,
    {
        let c: char = s[i];
        if !('0' <= c && c <= '9') {
            assert(!is_digit(s@[i as int]));
            return None;
        }
        proof {
            let prefix = s@.subrange(0, i + 1);
            assert(prefix.drop_last() =~= s@.subrange(0, i as int));
            assert(prefix.last() == c);
            lemma_pow10_bound((i + 1) as nat);
        }
        value = value * 10 + ((c as u8 - 48) as u64);
        i = i + 1;
    }
    assert(s@.subrange(0, n as int) =~= s@);
    if value < SAFE_LIMIT {
        Some(value)
    } else {
        None
    }
}

/// Ten to the power `k`.
pub open spec fn pow10(k: nat) -> nat
    decreases k,
{
    if k == 0 {
        1
    } else {
        10 * pow10((k - 1) as nat)
    }
}

/// Powers of ten up to the sixteenth fit in sixty-four bits with room to spare.
proof fn lemma_pow10_bound(k: nat)
    requires
        k <= 16,
    ensures
        pow10(k) <= 10_000_000_000_000_000,
        k > 0 ==> pow10(k) == 10 * pow10((k - 1) as nat),
    decreases k,
{
    reveal_with_fuel(pow10, 17);
}

/// The longest run of zeros that a text is padded with.
pub const PADDING_LIMIT: u64 = 400;

/// `s` without the zeros at its end.
pub open spec fn without_trailing_zeros(s: Seq<char>) -> Seq<char>
    decreases s.len(),
{
    if s.len() > 0 && s.last() == '0' {
        without_trailing_zeros(s.drop_last())
    } else {
        s
    }
}

/// A run of `n` zeros.
pub open spec fn zeros(n: nat) -> Seq<char> {
    Seq::new(n, |i: int| '0')
}

/// Whether `s` is a number in scientific notation as `rustc_apfloat`
/// writes it: one digit, a point, at least one digit, `E`, a sign, and an
/// exponent of at most the padding limit.
pub open spec fn is_scientific(s: Seq<char>) -> bool {
    let e = digits_end(s, 2);
    &&& s.len() >= 6
    &&& is_digit(s[0])
    &&& s[1] == '.'
    &&& 3 <= e < s.len()
    &&& s[e] == 'E'
    &&& sign_at(s, e + 1)
    &&& is_plain_natural(s.subrange(e + 2, s.len() as int))
    &&& digits_value(s.subrange(e + 2, s.len() as int)) <= PADDING_LIMIT
}

/// The digits of a number in scientific notation, without its point and
/// without the zeros at its end, laid out by its exponent: padded with
/// zeros at the end, or parted by a point, or set behind `0.` and zeros.
pub open spec fn laid_out(s: Seq<char>) -> Seq<char> {
    let e = digits_end(s, 2);
    let d = seq![s[0]] + without_trailing_zeros(s.subrange(2, e));
    let x = digits_value(s.subrange(e + 2, s.len() as int)) as int;
    if s[e + 1] == '-' && x > 0 {
        seq!['0', '.'] + zeros((x - 1) as nat) + d
    } else if x >= d.len() - 1 {
        d + zeros((x - (d.len() - 1)) as nat)
    } else {
        d.subrange(0, x + 1) + seq!['.'] + d.subrange(x + 1, d.len() as int)
    }
}

/// A text of a number without an exponent: a text in scientific notation
/// is laid out by its exponent, behind its minus sign where it has one;
/// every other text stays as it is.
pub open spec fn positional(t: Seq<char>) -> Seq<char> {
    if t.len() > 0 && t[0] == '-' {
        if is_scientific(t.drop_first()) {
            seq!['-'] + laid_out(t.drop_first())
        } else {
            t
        }
    } else if is_scientific(t) {
        laid_out(t)
    } else {
        t
    }
}

/// Appends the characters of `source` from `from` up to `to`.
fn append_range(out: &mut Vec<char>, source: &Vec<char>, from: usize, to: usize)
    requires
        from <= to <= source@.len(),
    ensures
        final(out)@ == old(out)@ + source@.subrange(from as int, to as int),
{
    let mut i: usize = from;
    while i < to
        invariant
            from <= i <= to <= source@.len(),
            out@ == old(out)@ + source@.subrange(from as int, i as int),
        decreases to - i,
    {
        out.push(source[i]);
        i = i + 1;
        assert(out@ =~= old(out)@ + source@.subrange(from as int, i as int));
    }
    assert(out@ =~= old(out)@ + source@.subrange(from as int, to as int));
}

/// Appends a run of `n` zeros.
fn append_zeros(out: &mut Vec<char>, n: u64)
    ensures
        final(out)@ == old(out)@ + zeros(n as nat),
{
    let mut i: u64 = 0;
    while i < n
        invariant
            0 <= i <= n,
            out@ == old(out)@ + zeros(i as nat),
        decreases n - i,
    {
        out.push('0');
        i = i + 1;
        assert(out@ =~= old(out)@ + zeros(i as nat));
    }
}

/// The text of the characters `chars`.
pub fn text_of(chars: &Vec<char>) -> (r: String)
    ensures
        r@ == chars@,
{
    let mut r = String::new();
    let mut i: usize = 0;
    while i < chars.len()
        invariant
            0 <= i <= chars@.len(),
            r@ == chars@.subrange(0, i as int),
        decreases chars@.len() - i,
    {
        push_char(&mut r, chars[i]);
        i = i + 1;
        assert(r@ =~= chars@.subrange(0, i as int));
    }
    assert(r@ =~= chars@);
    r
}

/// The layout of the characters `s`, where they are a number in scientific notation.
fn lay_out(s: &Vec<char>) -> (r: Option<Vec<char>>)
    ensures
        match r {
            Some(out) => is_scientific(s@) && out@ == laid_out(s@),
            None => !is_scientific(s@),
        },
{
    let n: usize = s.len();
    if n < 6 || !('0' <= s[0] && s[0] <= '9') || s[1] != '.' {
        return None;
    }
    let e: usize = scan_digits(s, 2);
    if e < 3 || e >= n || s[e] != 'E' || e + 1 >= n || !(s[e + 1] == '+' || s[e + 1] == '-') {
        return None;
    }
    let mut tail: Vec<char> = Vec::new();
    append_range(&mut tail, s, e + 2, n);
    assert(tail@ =~= s@.subrange(e + 2, n as int));
    let x: u64 = match read_plain_natural(&tail) {
        Some(x) => x,
        None => {
            return None;
        },
    };
    if x > PADDING_LIMIT {
        return None;
    }
    let mut j: usize = e;
    while j > 2 && s[j - 1] == '0'
        invariant
            2 <= j <= e <= s@.len(),
            without_trailing_zeros(s@.subrange(2, j as int)) == without_trailing_zeros(
                s@.subrange(2, e as int),
            ),
        decreases j,
    {
        assert(s@.subrange(2, j as int).drop_last() =~= s@.subrange(2, j - 1));
        j = j - 1;
    }
    let mut d: Vec<char> = Vec::new();
    d.push(s[0]);
    append_range(&mut d, s, 2, j);
    assert(d@ =~= seq![s@[0]] + without_trailing_zeros(s@.subrange(2, e as int)));
    let mut out: Vec<char> = Vec::new();
    if s[e + 1] == '-' && x > 0 {
        out.push('0');
        out.push('.');
        append_zeros(&mut out, x - 1);
        append_range(&mut out, &d, 0, d.len());
        assert(d@.subrange(0, d@.len() as int) =~= d@);
        assert(out@ =~= seq!['0', '.'] + zeros((x - 1) as nat) + d@);
    } else if x >= (d.len() - 1) as u64 {
        append_range(&mut out, &d, 0, d.len());
        append_zeros(&mut out, x - (d.len() - 1) as u64);
        assert(d@.subrange(0, d@.len() as int) =~= d@);
        assert(out@ =~= d@ + zeros((x - (d@.len() - 1)) as nat));
    } else {
        let cut: usize = x as usize + 1;
        append_range(&mut out, &d, 0, cut);
        out.push('.');
        append_range(&mut out, &d, cut, d.len());
        assert(out@ =~= d@.subrange(0, x + 1) + seq!['.'] + d@.subrange(x + 1, d@.len() as int));
    }
    Some(out)
}

/// A text of a number without an exponent.
pub fn to_positional(text: &str) -> (r: String)
    ensures
        r@ == positional(text@),
{
    let chars: Vec<char> = characters(text);
    if chars.len() > 0 && chars[0] == '-' {
        let mut rest: Vec<char> = Vec::new();
        append_range(&mut rest, &chars, 1, chars.len());
        assert(rest@ =~= chars@.drop_first());
        match lay_out(&rest) {
            Some(out) => {
                let mut signed: Vec<char> = Vec::new();
                signed.push('-');
                append_range(&mut signed, &out, 0, out.len());
                assert(signed@ =~= seq!['-'] + out@);
                text_of(&signed)
            },
            None => String::from_str(text),
        }
    } else {
        match lay_out(&chars) {
            Some(out) => text_of(&out),
            None => String::from_str(text),
        }
    }
}


/// The number that a text spells: the infinities by name; a whole number
/// below `2^53` exactly, with or without a minus sign; any other decimal
/// literal rounded to the nearest number.  Nothing for every other text.
pub open spec fn parse_number(s: Seq<char>) -> Option<u64> {
    if s == "Infinity"@ || s == "+Infinity"@ {
        Some(INFINITY)
    } else if s == "-Infinity"@ {
        Some(NEG_INFINITY)
    } else if is_plain_natural(s) {
        Some(number_of_natural(digits_value(s)))
    } else if s.len() > 0 && s[0] == '-' && is_plain_natural(s.drop_first()) {
        Some(spec_negate(number_of_natural(digits_value(s.drop_first()))))
    } else if is_decimal_literal(s) && s.len() <= LITERAL_LIMIT {
        decimal_parse(s)
    } else {
        None
    }
}

/// Whether reading `text` back gives `bits`.
pub open spec fn reads_back(text: Seq<char>, bits: u64) -> bool {
    parse_number(text) == Some(bits)
}

/// The shortest text, of at least `digits` digits, that reads back as
/// `bits`; the text of seventeen digits where none does.  The texts are
/// those of `rustc_apfloat`, laid out without an exponent.
pub open spec fn shortest_text(bits: u64, digits: nat) -> Seq<char>
    decreases DIGITS_LIMIT - digits,
{
    if digits >= DIGITS_LIMIT || reads_back(positional(decimal_text(bits, digits)), bits) {
        positional(decimal_text(bits, digits))
    } else {
        shortest_text(bits, digits + 1)
    }
}

/// `toString` of a number: `NaN`, `Infinity` and `-Infinity`; for a whole
/// number below `2^53` its digits, with a minus sign where it is negative
/// (both zeros are `0`); for any other number the shortest of its decimal
/// texts that reads back as the same number.
pub open spec fn number_text(bits: u64) -> Seq<char> {
    if spec_is_nan(bits) {
        "NaN"@
    } else if bits == INFINITY {
        "Infinity"@
    } else if bits == NEG_INFINITY {
        "-Infinity"@
    } else {
        match safe_integer_value(bits) {
            Some(n) => integer_text(n),
            None => shortest_text(bits, 1),
        }
    }
}

/// `toNumber` of a string: the number that it spells, or a not-a-number.
pub open spec fn text_number(s: Seq<char>) -> u64 {
    match parse_number(s) {
        Some(bits) => bits,
        None => NAN,
    }
}

/// Whether two strings hold the same characters.
fn same_text(a: &str, b: &str) -> (r: bool)
    ensures
        r == (a@ == b@),
{
    String::from_str(a) == String::from_str(b)
}

/// The number that a text spells, or nothing where it spells none.
pub fn read_number(s: &str) -> (r: Option<u64>)
    ensures
        r == parse_number(s@),
{
    if same_text(s, "Infinity") || same_text(s, "+Infinity") {
        return Some(INFINITY);
    }
    if same_text(s, "-Infinity") {
        return Some(NEG_INFINITY);
    }
    let chars: Vec<char> = characters(s);
    match read_plain_natural(&chars) {
        Some(n) => {
            return Some(from_natural(n));
        },
        None => {},
    }
    if chars.len() > 0 && chars[0] == '-' {
        let mut rest: Vec<char> = Vec::new();
        let mut i: usize = 1;
        while i < chars.len()
            invariant
                1 <= i <= chars@.len(),
                rest@ == chars@.subrange(1, i as int),
            decreases chars@.len() - i,
        {
            rest.push(chars[i]);
            i = i + 1;
            assert(rest@ =~= chars@.subrange(1, i as int));
        }
        assert(rest@ =~= chars@.drop_first());
        match read_plain_natural(&rest) {
            Some(n) => {
                return Some(negate(from_natural(n)));
            },
            None => {},
        }
    }
    if check_decimal_literal(&chars) && chars.len() <= LITERAL_LIMIT {
        parse_decimal(s)
    } else {
        None
    }
}

/// `toString` of a number.
pub fn number_to_string(bits: u64) -> (r: String)
    ensures
        r@ == number_text(bits),
{
    if is_nan(bits) {
        return String::from_str("NaN");
    }
    if bits == INFINITY {
        return String::from_str("Infinity");
    }
    if bits == NEG_INFINITY {
        return String::from_str("-Infinity");
    }
    match to_safe_integer(bits) {
        Some(n) => integer_to_string(n),
        None => {
            assert(!spec_is_zero(bits)) by {
                if spec_is_zero(bits) {
                    assert(natural_value(magnitude(bits)) == Some(0int));
                }
            }
            let mut digits: usize = 1;
            loop
                invariant
                    1 <= digits <= DIGITS_LIMIT,
                    spec_is_finite(bits),
                    !spec_is_zero(bits),
                    shortest_text(bits, digits as nat) == number_text(bits),
                decreases DIGITS_LIMIT - digits,
            {
                let written: String = format_decimal(bits, digits);
                let text: String = to_positional(written.as_str());
                if digits >= DIGITS_LIMIT {
                    return text;
                }
                match read_number(text.as_str()) {
                    Some(back) => {
                        if back == bits {
                            return text;
                        }
                    },
                    None => {},
                }
                digits = digits + 1;
            }
        },
    }
}

/// `toNumber` of a string.
pub fn string_to_number(s: &str) -> (r: u64)
    ensures
        r == text_number(s@),
{
    match read_number(s) {
        Some(bits) => bits,
        None => NAN,
    }
}

} // verus!
