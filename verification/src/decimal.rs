//! Exact decimal numbers.
//!
//! Exponents, conversion factors and magnitudes are decimal numbers
//! `digits * 10^power`. The library only ever needs two things of them: to read
//! one from text, and to scale an integer by one, rounding toward zero. Both
//! are done in integer arithmetic, so that every statement about them is exact.

use vstd::prelude::*;

verus! {

/// The decimal number `digits * 10^power`.
///
/// The same number can be written in several ways (`10 * 10^-1` and
/// `1 * 10^0`); two values are `==` when they are written the same way.
#[derive(Clone, Copy, Debug, PartialEq, Eq, Structural)]
pub struct Decimal {
    pub digits: i64,
    pub power: i32,
}

/// `10^n`.
pub open spec fn pow10(n: nat) -> nat
    decreases n,
{
    if n == 0 {
        1
    } else {
        10 * pow10((n - 1) as nat)
    }
}

/// The quotient of `a` by a positive `d`, rounded toward zero.
pub open spec fn trunc_div(a: int, d: int) -> int {
    if a >= 0 {
        a / d
    } else {
        -((-a) / d)
    }
}

/// The absolute value of `a`.
pub open spec fn magnitude(a: int) -> nat {
    if a >= 0 {
        a as nat
    } else {
        (-a) as nat
    }
}

/// Whether `v` is at most `2^32` in magnitude: the values that scaling hands
/// out.
pub open spec fn within_scale_limit(v: int) -> bool {
    -0x1_0000_0000 <= v <= 0x1_0000_0000
}

/// Whether `v` can be held in an `i32`.
pub open spec fn fits_i32(v: int) -> bool {
    i32::MIN <= v <= i32::MAX
}

pub proof fn lemma_pow10_positive(n: nat)
    ensures
        pow10(n) >= 1,
    decreases n,
{
    if n > 0 {
        lemma_pow10_positive((n - 1) as nat);
    }
}

pub proof fn lemma_pow10_monotonic(a: nat, b: nat)
    requires
        a <= b,
    ensures
        pow10(a) <= pow10(b),
    decreases b,
{
    if a < b {
        lemma_pow10_monotonic(a, (b - 1) as nat);
    }
}

impl Decimal {
    /// The integer `b` scaled by this number and rounded toward zero:
    /// `trunc(b * digits * 10^power)`.
    pub open spec fn scale(self, b: int) -> int {
        if self.power >= 0 {
            b * self.digits * pow10(self.power as nat)
        } else {
            trunc_div(b * self.digits, pow10((-self.power) as nat) as int)
        }
    }

    /// Whether this number is an integer.
    pub open spec fn is_integer(self) -> bool {
        self.power >= 0 || (self.digits as int) % (pow10((-self.power) as nat) as int) == 0
    }

    /// The integer part of this number; the number itself where it is an
    /// integer.
    pub open spec fn integer_part(self) -> int {
        self.scale(1)
    }

    /// The number `digits * 10^power`.
    pub fn new(digits: i64, power: i32) -> (r: Self)
        ensures
            r == (Decimal { digits, power }),
    {
        Decimal { digits, power }
    }

    /// The integer `n` as a decimal number.
    pub fn from_int(n: i64) -> (r: Self)
        ensures
            r == (Decimal { digits: n, power: 0 }),
            r.is_integer(),
            r.integer_part() == n,
    {
        proof {
            assert(pow10(0) == 1);
            assert(1 * (n as int) * 1 == n) by (nonlinear_arith);
        }
        Decimal { digits: n, power: 0 }
    }

    /// Scales `b` by this number, rounding toward zero. The result is `None`
    /// exactly when the scaled value is beyond `2^32` in magnitude.
    pub fn checked_scale(&self, b: i32) -> (r: Option<i64>)
        ensures
            within_scale_limit(self.scale(b as int)) ==> r == Some(self.scale(b as int) as i64),
            !within_scale_limit(self.scale(b as int)) ==> r.is_none(),
    {
        let negative = (b < 0) != (self.digits < 0);
        let mag_b: u128 = if b < 0 {
            (-(b as i64)) as u128
        } else {
            b as u128
        };
        let mag_d: u128 = if self.digits < 0 {
            (-(self.digits as i128)) as u128
        } else {
            self.digits as u128
        };
        assert(mag_b * mag_d <= 0x8000_0000 * 0x8000_0000_0000_0000) by (nonlinear_arith)
            requires
                mag_b <= 0x8000_0000,
                mag_d <= 0x8000_0000_0000_0000,
        ;
        let product: u128 = mag_b * mag_d;
        proof {
            lemma_magnitude_of_product(b as int, self.digits as int);
        }
        if product == 0 {
            proof {
                lemma_scale_of_zero(*self, b as int);
            }
            return Some(0);
        }
        let mag: u128;
        if self.power >= 0 {
            let mut acc: u128 = product;
            let mut k: i32 = 0;
            proof {
                assert(pow10(0) == 1);
                assert(product * 1 == product) by (nonlinear_arith);
            }
            while k < self.power
                invariant
                    0 <= k <= self.power,
                    acc == product * pow10(k as nat),
                    product >= 1,
                    product == magnitude(b * self.digits),
                    acc <= 0x8000_0000 * 0x8000_0000_0000_0000,
                decreases self.power - k,
            {
                if acc > 0x1_0000_0000 {
                    proof {
                        lemma_pow10_monotonic(k as nat, self.power as nat);
                        lemma_mul_monotonic(product as nat, pow10(k as nat), pow10(self.power as nat));
                        lemma_scale_nonneg_power(*self, b as int);
                    }
                    return None;
                }
                proof {
                    assert(pow10((k + 1) as nat) == 10 * pow10(k as nat));
                    assert(product * (10 * pow10(k as nat)) == (product * pow10(k as nat)) * 10)
                        by (nonlinear_arith);
                }
                acc = acc * 10;
                k = k + 1;
            }
            proof {
                lemma_scale_nonneg_power(*self, b as int);
            }
            mag = acc;
        } else {
            let mut divisor: u128 = 1;
            let mut k: i64 = 0;
            proof {
                assert(pow10(0) == 1);
            }
            let n: i64 = -(self.power as i64);
            while k < n
                invariant
                    0 <= k <= n,
                    n == -(self.power as int),
                    divisor == pow10(k as nat),
                    1 <= divisor <= product,
                    product == magnitude(b * self.digits),
                    product <= 0x8000_0000 * 0x8000_0000_0000_0000,
                decreases n - k,
            {
                proof {
                    assert(pow10((k + 1) as nat) == 10 * pow10(k as nat));
                }
                if divisor * 10 > product {
                    proof {
                        lemma_pow10_monotonic((k + 1) as nat, n as nat);
                        lemma_scale_neg_power(*self, b as int);
                        lemma_small_quotient(product as int, pow10(n as nat) as int);
                    }
                    return Some(0);
                }
                divisor = divisor * 10;
                k = k + 1;
            }
            proof {
                lemma_scale_neg_power(*self, b as int);
            }
            mag = product / divisor;
        }
        if mag > 0x1_0000_0000 {
            None
        } else if negative {
            Some(-(mag as i64))
        } else {
            Some(mag as i64)
        }
    }
}

/// The magnitude of a product is the product of the magnitudes, and the
/// product is negative exactly when one factor is and the other is not zero.
pub proof fn lemma_magnitude_of_product(a: int, b: int)
    ensures
        magnitude(a * b) == magnitude(a) * magnitude(b),
        a * b >= 0 <==> (a == 0 || b == 0 || ((a < 0) == (b < 0))),
{
    assert(magnitude(a * b) == magnitude(a) * magnitude(b)) by (nonlinear_arith)
        requires
            magnitude(a) == (if a >= 0 { a } else { -a }),
            magnitude(b) == (if b >= 0 { b } else { -b }),
            magnitude(a * b) == (if a * b >= 0 { a * b } else { -(a * b) }),
    ;
    assert(a * b >= 0 <==> (a == 0 || b == 0 || ((a < 0) == (b < 0)))) by (nonlinear_arith);
}

pub proof fn lemma_mul_monotonic(a: nat, x: nat, y: nat)
    requires
        x <= y,
    ensures
        a * x <= a * y,
{
    assert(a * x <= a * y) by (nonlinear_arith)
        requires
            x <= y,
    ;
}

/// Scaling gives zero where the integer or the number is zero.
pub proof fn lemma_scale_of_zero(d: Decimal, b: int)
    requires
        b * d.digits == 0,
    ensures
        d.scale(b) == 0,
{
    if d.power >= 0 {
        assert(b * d.digits * pow10(d.power as nat) == 0) by (nonlinear_arith)
            requires
                b * d.digits == 0,
        ;
    } else {
        lemma_pow10_positive((-d.power) as nat);
    }
}

/// With a power that is not negative, the magnitude of the scaled value is
/// the product of the magnitudes, and its sign that of `b * digits`.
pub proof fn lemma_scale_nonneg_power(d: Decimal, b: int)
    requires
        d.power >= 0,
    ensures
        magnitude(d.scale(b)) == magnitude(b * d.digits) * pow10(d.power as nat),
        b * d.digits >= 0 ==> d.scale(b) >= 0,
        b * d.digits <= 0 ==> d.scale(b) <= 0,
{
    let p = pow10(d.power as nat) as int;
    lemma_pow10_positive(d.power as nat);
    lemma_magnitude_of_product(b * d.digits, p);
    assert(magnitude(p) == p);
}

/// With a negative power, the magnitude of the scaled value is the quotient
/// of the magnitudes, and its sign that of `b * digits`.
pub proof fn lemma_scale_neg_power(d: Decimal, b: int)
    requires
        d.power < 0,
    ensures
        magnitude(d.scale(b)) == magnitude(b * d.digits) / pow10((-d.power) as nat),
        b * d.digits >= 0 ==> d.scale(b) >= 0,
        b * d.digits <= 0 ==> d.scale(b) <= 0,
{
    let p = pow10((-d.power) as nat) as int;
    lemma_pow10_positive((-d.power) as nat);
    let a = b * d.digits;
    if a >= 0 {
        assert(a / p >= 0) by (nonlinear_arith)
            requires
                a >= 0,
                p > 0,
        ;
    } else {
        assert((-a) / p >= 0) by (nonlinear_arith)
            requires
                -a >= 0,
                p > 0,
        ;
    }
}

pub proof fn lemma_small_quotient(a: int, d: int)
    requires
        0 <= a < d,
    ensures
        a / d == 0,
{
    assert(a / d == 0) by (nonlinear_arith)
        requires
            0 <= a < d,
    ;
}


/// Whether `c` is one of the ten decimal digits.
pub open spec fn is_digit(c: char) -> bool {
    '0' as u32 <= c as u32 <= '9' as u32
}

/// The value of the decimal digit `c`.
pub open spec fn digit_value(c: char) -> nat {
    (c as u32 - '0' as u32) as nat
}

/// How many decimal digits stand in `s` from position `from` on, before the
/// first character that is no digit.
pub open spec fn digit_run(s: Seq<char>, from: int) -> nat
    decreases s.len() - from,
{
    if 0 <= from < s.len() && is_digit(s[from]) {
        1 + digit_run(s, from + 1)
    } else {
        0
    }
}

/// The number that results from writing the digits `s` behind the number
/// `start`.
pub open spec fn append_digits(start: nat, s: Seq<char>) -> nat
    decreases s.len(),
{
    if s.len() == 0 {
        start
    } else {
        append_digits(start, s.drop_last()) * 10 + digit_value(s.last())
    }
}

/// 1 where a sign stands in `s` at position `at`, else 0.
pub open spec fn sign_len(s: Seq<char>, at: int) -> int {
    if 0 <= at < s.len() && (s[at] == '+' || s[at] == '-') {
        1
    } else {
        0
    }
}

/// Whether a minus sign stands in `s` at position `at`.
pub open spec fn minus_at(s: Seq<char>, at: int) -> bool {
    0 <= at < s.len() && s[at] == '-'
}

/// Where the digits before the point end.
pub open spec fn whole_end(s: Seq<char>) -> int {
    sign_len(s, 0) + digit_run(s, sign_len(s, 0))
}

/// Whether a point follows the digits before it.
pub open spec fn has_point(s: Seq<char>) -> bool {
    whole_end(s) < s.len() && s[whole_end(s)] == '.'
}

/// Where the digits behind the point begin.
pub open spec fn frac_start(s: Seq<char>) -> int {
    if has_point(s) {
        whole_end(s) + 1
    } else {
        whole_end(s)
    }
}

/// How many digits stand behind the point.
pub open spec fn frac_len(s: Seq<char>) -> nat {
    if has_point(s) {
        digit_run(s, frac_start(s))
    } else {
        0
    }
}

/// The digits of a literal as they are written, without the point.
pub open spec fn written_digits(s: Seq<char>) -> Seq<char> {
    s.subrange(sign_len(s, 0), whole_end(s)) + s.subrange(
        frac_start(s),
        frac_start(s) + frac_len(s),
    )
}

/// The signed number that the digits of a literal make, or `None` where
/// there is no digit.
pub open spec fn literal_digits(s: Seq<char>) -> Option<int> {
    if written_digits(s).len() == 0 {
        None
    } else if minus_at(s, 0) {
        Some(-append_digits(0, written_digits(s)))
    } else {
        Some(append_digits(0, written_digits(s)) as int)
    }
}

/// The power of ten that is written in `s` from position `d` to the end:
/// 0 where nothing is written there, the signed number behind `e` or `E`
/// where one is, and `None` for anything else.
pub open spec fn literal_exponent(s: Seq<char>, d: int) -> Option<int> {
    let f = d + 1 + sign_len(s, d + 1);
    let n = digit_run(s, f);
    if d == s.len() {
        Some(0)
    } else if 0 <= d < s.len() && (s[d] == 'e' || s[d] == 'E') && n > 0 && f + n == s.len() {
        if minus_at(s, d + 1) {
            Some(-append_digits(0, s.subrange(f, f + n)))
        } else {
            Some(append_digits(0, s.subrange(f, f + n)) as int)
        }
    } else {
        None
    }
}

/// The number that a decimal literal denotes, as the pair of its digits and
/// its power of ten, or `None` where `s` is no decimal literal.
///
/// A literal is an optional sign, then digits with at most one point among
/// them and at least one digit in all, then optionally `e` or `E`, an
/// optional sign and at least one digit. The digits are taken as they are
/// written, however many they are: `1.50` is `150 * 10^-2`.
pub open spec fn decimal_literal(s: Seq<char>) -> Option<(int, int)> {
    match (literal_digits(s), literal_exponent(s, frac_start(s) + frac_len(s))) {
        (Some(digits), Some(e)) => Some((digits, e - frac_len(s))),
        _ => None,
    }
}

pub proof fn lemma_digit_run_split(s: Seq<char>, from: int, to: int)
    requires
        0 <= from <= to <= s.len(),
        forall|j: int| from <= j < to ==> is_digit(#[trigger] s[j]),
    ensures
        digit_run(s, from) == (to - from) + digit_run(s, to),
    decreases to - from,
{
    if from < to {
        lemma_digit_run_split(s, from + 1, to);
    }
}

pub proof fn lemma_digit_run_bounded(s: Seq<char>, from: int)
    requires
        0 <= from <= s.len(),
    ensures
        from + digit_run(s, from) <= s.len(),
    decreases s.len() - from,
{
    if from < s.len() && is_digit(s[from]) {
        lemma_digit_run_bounded(s, from + 1);
    }
}

/// Digits written behind digits: first `x`, then `y`.
pub proof fn lemma_append_digits_concat(start: nat, x: Seq<char>, y: Seq<char>)
    ensures
        append_digits(append_digits(start, x), y) == append_digits(start, x + y),
    decreases y.len(),
{
    if y.len() == 0 {
        assert(x + y =~= x);
    } else {
        lemma_append_digits_concat(start, x, y.drop_last());
        assert((x + y).drop_last() =~= x + y.drop_last());
        assert((x + y).last() == y.last());
    }
}

/// Writing more digits behind a number never makes it smaller.
pub proof fn lemma_append_digits_grows(start: nat, y: Seq<char>)
    ensures
        append_digits(start, y) >= start,
    decreases y.len(),
{
    if y.len() > 0 {
        lemma_append_digits_grows(start, y.drop_last());
    }
}

/// The greatest number that the digits of a literal may make: what an `i64`
/// holds, on the side of the sign.
pub open spec fn digits_cap(negative: bool) -> nat {
    if negative {
        0x8000_0000_0000_0000
    } else {
        0x7fff_ffff_ffff_ffff
    }
}

/// How many of the digits `w` are kept: zeros are taken from the end for as
/// long as the number that the digits make is greater than `cap`.
pub open spec fn kept_len(w: Seq<char>, cap: nat) -> nat
    decreases w.len(),
{
    if w.len() > 0 && append_digits(0, w) > cap && w.last() == '0' {
        kept_len(w.drop_last(), cap)
    } else {
        w.len()
    }
}

impl Decimal {
    /// The number that the text `s` denotes, where `s` is a decimal literal
    /// whose digits and power of ten can be held.
    ///
    /// The digits are held as they are written, the point left out, and the
    /// power of ten is lessened by the number of digits behind the point:
    /// `1.50` is `150 * 10^-2`. Only where the digits make a number beyond an
    /// `i64` are zeros moved from their end into the power of ten, and no
    /// more of them than it takes: `10000000000000000000` is
    /// `1000000000000000000 * 10^1`. A literal is refused where its digits
    /// are still beyond an `i64` then (`12345678901234567891`), or where the
    /// power of ten is beyond an `i32`.
    pub open spec fn of_text(s: Seq<char>) -> Option<Decimal> {
        let w = written_digits(s);
        let cap = digits_cap(minus_at(s, 0));
        let kept = w.take(kept_len(w, cap) as int);
        let moved = w.len() - kept.len();
        match decimal_literal(s) {
            Some((_, power)) => if append_digits(0, kept) <= cap && i32::MIN <= power + moved
                <= i32::MAX {
                Some(
                    Decimal {
                        digits: (if minus_at(s, 0) {
                            -append_digits(0, kept)
                        } else {
                            append_digits(0, kept) as int
                        }) as i64,
                        power: (power + moved) as i32,
                    },
                )
            } else {
                None
            },
            None => None,
        }
    }

    /// Reads a decimal literal: an optional sign, digits with at most one
    /// point among them, and optionally `e` or `E` with a signed power of
    /// ten. `None` for any other text, and for a literal that cannot be held
    /// (see [`Decimal::of_text`]).
    pub fn parse(text: &str) -> (r: Option<Decimal>)
        ensures
            r == Decimal::of_text(text@),
    {
        let v = crate::text::chars_of(text);
        Decimal::parse_chars(&v)
    }

    /// Reads a decimal literal from its characters.
    pub fn parse_chars(v: &Vec<char>) -> (r: Option<Decimal>)
        ensures
            r == Decimal::of_text(v@),
    {
        let (digits, shift, moved, d) = match read_digits(v) {
            Some(t) => t,
            None => {
                return None;
            },
        };
        let e = match read_exponent(v, d) {
            Some(e) => e,
            None => {
                return None;
            },
        };
        let power: i128 = e - (shift as i128) + (moved as i128);
        if power < -0x8000_0000 || power > 0x7fff_ffff {
            return None;
        }
        Some(Decimal { digits, power: power as i32 })
    }
}

/// Whether `c` is a decimal digit.
fn digit_char(c: char) -> (r: bool)
    ensures
        r == is_digit(c),
{
    let code: u32 = c as u32;
    code >= 48 && code <= 57
}

/// Whether `c` is a sign.
fn sign_char(c: char) -> (r: bool)
    ensures
        r == (c == '+' || c == '-'),
{
    c == '+' || c == '-'
}

/// Reads the digits that stand in `v` from `from` on, writing them behind
/// `start`. Returns where the digits end and the number read, or that the
/// number is greater than `cap`.
fn scan_digits(v: &Vec<char>, from: usize, start: u128, cap: u128) -> (r: (usize, u128, bool))
    requires
        from <= v.len(),
        start <= cap <= 0x2_0000_0000_0000_0000,
    ensures
        from + digit_run(v@, from as int) <= v.len(),
        r.2 <==> append_digits(
            start as nat,
            v@.subrange(from as int, from + digit_run(v@, from as int)),
        ) > cap,
        !r.2 ==> r.0 == from + digit_run(v@, from as int),
        !r.2 ==> r.1 == append_digits(
            start as nat,
            v@.subrange(from as int, from + digit_run(v@, from as int)),
        ),
{
    let mut i: usize = from;
    let mut acc: u128 = start;
    proof {
        lemma_digit_run_bounded(v@, from as int);
        assert(v@.subrange(from as int, from as int) =~= Seq::<char>::empty());
    }
    while i < v.len() && digit_char(v[i])
        invariant
            from <= i <= v.len(),
            forall|j: int| from <= j < i ==> is_digit(#[trigger] v@[j]),
            acc == append_digits(start as nat, v@.subrange(from as int, i as int)),
            acc <= cap <= 0x2_0000_0000_0000_0000,
            from + digit_run(v@, from as int) <= v.len(),
        decreases v.len() - i,
    {
        let digit: u128 = (v[i] as u32 - 48) as u128;
        let ghost next = v@.subrange(from as int, i + 1);
        proof {
            assert(next.drop_last() =~= v@.subrange(from as int, i as int));
            assert(next.last() == v@[i as int]);
        }
        if acc * 10 + digit > cap {
            proof {
                let n = digit_run(v@, from as int);
                lemma_digit_run_split(v@, from as int, i + 1);
                let rest = v@.subrange(i + 1, from + n);
                assert(v@.subrange(from as int, from + n) =~= next + rest);
                lemma_append_digits_concat(start as nat, next, rest);
                lemma_append_digits_grows(append_digits(start as nat, next), rest);
            }
            return (i, acc, true);
        }
        acc = acc * 10 + digit;
        i = i + 1;
    }
    proof {
        lemma_digit_run_split(v@, from as int, i as int);
    }
    (i, acc, false)
}

/// Where the digits that stand in `v` from `from` on end.
fn run_end(v: &Vec<char>, from: usize) -> (end: usize)
    requires
        from <= v.len(),
    ensures
        end == from + digit_run(v@, from as int),
        end <= v.len(),
        forall|j: int| from <= j < end ==> is_digit(#[trigger] v@[j]),
{
    let mut i: usize = from;
    while i < v.len() && digit_char(v[i])
        invariant
            from <= i <= v.len(),
            forall|j: int| from <= j < i ==> is_digit(#[trigger] v@[j]),
        decreases v.len() - i,
    {
        i = i + 1;
    }
    proof {
        lemma_digit_run_split(v@, from as int, i as int);
    }
    i
}

/// Whether the digit `c` can be written behind `acc` without going beyond
/// `cap`.
fn holds_one_more(acc: u128, c: char, cap: u128) -> (r: bool)
    requires
        is_digit(c),
        acc <= cap <= 0x8000_0000_0000_0000,
    ensures
        r == (acc * 10 + digit_value(c) <= cap),
{
    acc * 10 + ((c as u32 - 48) as u128) <= cap
}

/// The number that the first `n` digits of `w` make is no greater than the
/// number that the first `m` make, for `n <= m`.
pub proof fn lemma_prefix_grows(w: Seq<char>, n: int, m: int)
    requires
        0 <= n <= m <= w.len(),
    ensures
        append_digits(0, w.take(n)) <= append_digits(0, w.take(m)),
{
    lemma_append_digits_concat(0, w.take(n), w.subrange(n, m));
    lemma_append_digits_grows(append_digits(0, w.take(n)), w.subrange(n, m));
    assert(w.take(n) + w.subrange(n, m) =~= w.take(m));
}

/// Where the first `i` digits fit and one more does not, and only zeros
/// follow, the first `i` digits are kept.
pub proof fn lemma_kept_zeros(w: Seq<char>, cap: nat, i: int, m: int)
    requires
        0 <= i <= m <= w.len(),
        append_digits(0, w.take(i)) <= cap,
        i < w.len() ==> append_digits(0, w.take(i + 1)) > cap,
        forall|j: int| i <= j < m ==> w[j] == '0',
    ensures
        kept_len(w.take(m), cap) == i,
    decreases m - i,
{
    if m > i {
        lemma_prefix_grows(w, i + 1, m);
        assert(w.take(m).drop_last() =~= w.take(m - 1));
        lemma_kept_zeros(w, cap, i, m - 1);
    } else {
        if i > 0 {
            assert(w.take(i).drop_last() =~= w.take(i - 1));
        }
    }
}

/// Where one more than the first `i` digits do not fit and a digit other
/// than zero follows, what is kept does not fit.
pub proof fn lemma_kept_beyond(w: Seq<char>, cap: nat, i: int, j: int, m: int)
    requires
        0 <= i <= j < m <= w.len(),
        append_digits(0, w.take(i + 1)) > cap,
        w[j] != '0',
    ensures
        append_digits(0, w.take(m).take(kept_len(w.take(m), cap) as int)) > cap,
        kept_len(w.take(m), cap) <= m,
    decreases m,
{
    let t = w.take(m);
    lemma_prefix_grows(w, i + 1, m);
    if t.last() == '0' {
        assert(m - 1 > j);
        assert(t.drop_last() =~= w.take(m - 1));
        lemma_kept_beyond(w, cap, i, j, m - 1);
        let k = kept_len(w.take(m - 1), cap) as int;
        assert(w.take(m - 1).take(k) =~= t.take(k));
    } else {
        assert(t.take(m) =~= t);
    }
}

/// Reads the digits `w` as far as they are kept. Returns the number that
/// the kept digits make and how many are kept; `None` where the kept digits
/// are still beyond `cap`.
fn keep_digits(w: &Vec<char>, cap: u128) -> (r: Option<(u128, usize)>)
    requires
        forall|j: int| 0 <= j < w.len() ==> is_digit(#[trigger] w@[j]),
        cap <= 0x8000_0000_0000_0000,
    ensures
        match r {
            Some((value, kept)) => {
                &&& kept == kept_len(w@, cap as nat)
                &&& kept <= w.len()
                &&& value == append_digits(0, w@.take(kept as int))
                &&& value <= cap
            },
            None => append_digits(0, w@.take(kept_len(w@, cap as nat) as int)) > cap,
        },
{
    let mut i: usize = 0;
    let mut acc: u128 = 0;
    proof {
        assert(w@.take(0) =~= Seq::<char>::empty());
    }
    while i < w.len() && holds_one_more(acc, w[i], cap)
        invariant
            i <= w.len(),
            forall|j: int| 0 <= j < w.len() ==> is_digit(#[trigger] w@[j]),
            acc == append_digits(0, w@.take(i as int)),
            acc <= cap <= 0x8000_0000_0000_0000,
        decreases w.len() - i,
    {
        proof {
            assert(w@.take(i + 1).drop_last() =~= w@.take(i as int));
            assert(w@.take(i + 1).last() == w@[i as int]);
        }
        acc = acc * 10 + ((w[i] as u32 - 48) as u128);
        i = i + 1;
    }
    proof {
        assert(w@.take(w.len() as int) =~= w@);
    }
    if i == w.len() {
        return Some((acc, i));
    }
    proof {
        assert(w@.take(i + 1).drop_last() =~= w@.take(i as int));
        assert(w@.take(i + 1).last() == w@[i as int]);
    }
    let mut j: usize = i;
    while j < w.len()
        invariant
            i <= j <= w.len(),
            i < w.len(),
            append_digits(0, w@.take(i + 1)) > cap,
            forall|k: int| i <= k < j ==> w@[k] == '0',
        decreases w.len() - j,
    {
        if w[j] != '0' {
            proof {
                lemma_kept_beyond(w@, cap as nat, i as int, j as int, w.len() as int);
                assert(w@.take(w.len() as int) =~= w@);
            }
            return None;
        }
        j = j + 1;
    }
    proof {
        lemma_kept_zeros(w@, cap as nat, i as int, w.len() as int);
    }
    Some((acc, i))
}

/// Reads the sign and the digits of a literal. Returns the signed number
/// that the kept digits make, how many digits stand behind the point, how
/// many zeros were moved into the power of ten, and where the digits end;
/// `None` where there is no digit or the number cannot be held.
fn read_digits(v: &Vec<char>) -> (r: Option<(i64, usize, usize, usize)>)
    ensures
        match r {
            Some((digits, shift, moved, end)) => {
                let w = written_digits(v@);
                let cap = digits_cap(minus_at(v@, 0));
                let kept = w.take(kept_len(w, cap) as int);
                &&& w.len() > 0
                &&& append_digits(0, kept) <= cap
                &&& digits == (if minus_at(v@, 0) {
                    -append_digits(0, kept)
                } else {
                    append_digits(0, kept) as int
                })
                &&& moved == w.len() - kept.len()
                &&& shift == frac_len(v@)
                &&& end == frac_start(v@) + frac_len(v@)
                &&& end <= v.len()
            },
            None => {
                let w = written_digits(v@);
                let cap = digits_cap(minus_at(v@, 0));
                w.len() == 0 || append_digits(0, w.take(kept_len(w, cap) as int)) > cap
            },
        },
{
    let len = v.len();
    let negative = len > 0 && v[0] == '-';
    let cap: u128 = if negative {
        0x8000_0000_0000_0000
    } else {
        0x7fff_ffff_ffff_ffff
    };
    let a: usize = if len > 0 && sign_char(v[0]) {
        1
    } else {
        0
    };
    let b = run_end(v, a);
    let mut c: usize = b;
    let mut end: usize = b;
    if b < len && v[b] == '.' {
        c = b + 1;
        end = run_end(v, c);
    }
    let mut w: Vec<char> = Vec::new();
    let mut i: usize = a;
    while i < b
        invariant
            a <= i <= b <= v.len(),
            w@ == v@.subrange(a as int, i as int),
        decreases b - i,
    {
        w.push(v[i]);
        assert(w@ =~= v@.subrange(a as int, i + 1));
        i = i + 1;
    }
    let mut k: usize = c;
    while k < end
        invariant
            c <= k <= end <= v.len(),
            w@ == v@.subrange(a as int, b as int) + v@.subrange(c as int, k as int),
        decreases end - k,
    {
        w.push(v[k]);
        assert(w@ =~= v@.subrange(a as int, b as int) + v@.subrange(c as int, k + 1));
        k = k + 1;
    }
    assert(w@ == written_digits(v@));
    if w.len() == 0 {
        return None;
    }
    let (value, kept) = match keep_digits(&w, cap) {
        Some(found) => found,
        None => {
            return None;
        },
    };
    let digits: i64 = if negative {
        (-(value as i128)) as i64
    } else {
        value as i64
    };
    Some((digits, end - c, w.len() - kept, end))
}

/// Reads the power of ten that is written in `v` from `d` to the end.
/// `None` where what stands there is no power of ten, or one beyond
/// `2^65` in magnitude.
fn read_exponent(v: &Vec<char>, d: usize) -> (r: Option<i128>)
    requires
        d <= v.len(),
    ensures
        match r {
            Some(e) => literal_exponent(v@, d as int) == Some(e as int) && -0x2_0000_0000_0000_0000
                <= e <= 0x2_0000_0000_0000_0000,
            None => match literal_exponent(v@, d as int) {
                Some(e) => !(-0x2_0000_0000_0000_0000 <= e <= 0x2_0000_0000_0000_0000),
                None => true,
            },
        },
{
    let len = v.len();
    if d == len {
        return Some(0);
    }
    if v[d] != 'e' && v[d] != 'E' {
        return None;
    }
    let negative = d + 1 < len && v[d + 1] == '-';
    let f: usize = if d + 1 < len && sign_char(v[d + 1]) {
        d + 2
    } else {
        d + 1
    };
    let (g, e, over) = scan_digits(v, f, 0, 0x2_0000_0000_0000_0000);
    if over {
        return None;
    }
    if g == f || g != len {
        return None;
    }
    if negative {
        Some(-(e as i128))
    } else {
        Some(e as i128)
    }
}

/// The character of the decimal digit `d`.
pub open spec fn digit_char_of(d: nat) -> char {
    (('0' as u8 + d) as u8) as char
}

/// The decimal digits of `n`, the first of them not zero unless `n` is.
pub open spec fn digits_of(n: nat) -> Seq<char>
    decreases n,
{
    if n < 10 {
        seq![digit_char_of(n)]
    } else {
        digits_of(n / 10).push(digit_char_of(n % 10))
    }
}

/// The decimal digits of `v`, behind a minus sign where `v` is negative.
pub open spec fn signed_digits_of(v: int) -> Seq<char> {
    if v < 0 {
        seq!['-'] + digits_of((-v) as nat)
    } else {
        digits_of(v as nat)
    }
}

impl Decimal {
    /// This number as a decimal literal: its digits, `e`, its power of ten.
    pub open spec fn text_spec(self) -> Seq<char> {
        signed_digits_of(self.digits as int) + seq!['e'] + signed_digits_of(self.power as int)
    }

    /// Writes this number as a decimal literal: its digits, `e`, its power
    /// of ten.
    pub fn to_text(&self) -> (r: String)
        ensures
            r@ == self.text_spec(),
    {
        let mut text = String::new();
        write_signed(&mut text, self.digits);
        proof {
            reveal_strlit("e");
            assert("e"@ =~= seq!['e']);
        }
        text.append("e");
        write_signed(&mut text, self.power as i64);
        assert(text@ =~= self.text_spec());
        text
    }
}

/// Writes the digits of `n` behind `text`.
fn write_digits(text: &mut String, n: u64)
    ensures
        final(text)@ == old(text)@ + digits_of(n as nat),
    decreases n,
{
    if n >= 10 {
        write_digits(text, n / 10);
    }
    let d: usize = (n % 10) as usize;
    let digits = "0123456789";
    proof {
        reveal_strlit("0123456789");
        assert(digits@.subrange(d as int, d + 1) =~= seq![digit_char_of(d as nat)]);
    }
    let ghost before = text@;
    text.append(digits.substring_char(d, d + 1));
    proof {
        if n >= 10 {
            assert(text@ =~= old(text)@ + digits_of((n / 10) as nat).push(
                digit_char_of((n % 10) as nat),
            ));
        } else {
            assert(text@ =~= old(text)@ + seq![digit_char_of(n as nat)]);
        }
    }
}

/// Writes `v` behind `text`: a minus sign where `v` is negative, then its
/// digits.
fn write_signed(text: &mut String, v: i64)
    ensures
        final(text)@ == old(text)@ + signed_digits_of(v as int),
{
    if v < 0 {
        proof {
            reveal_strlit("-");
            assert("-"@ =~= seq!['-']);
        }
        text.append("-");
        write_digits(text, (-(v as i128)) as u64);
        assert(text@ =~= old(text)@ + signed_digits_of(v as int));
    } else {
        write_digits(text, v as u64);
    }
}

/// The digits of a number are digits, and make that number.
pub proof fn lemma_digits_of(n: nat)
    ensures
        digits_of(n).len() > 0,
        forall|i: int| 0 <= i < digits_of(n).len() ==> is_digit(#[trigger] digits_of(n)[i]),
        append_digits(0, digits_of(n)) == n,
    decreases n,
{
    let c = digit_char_of(n % 10);
    assert(is_digit(c) && digit_value(c) == n % 10);
    assert(digits_of(n).last() == c);
    if n < 10 {
        assert(digits_of(n).drop_last() =~= Seq::<char>::empty());
        assert(append_digits(0, Seq::<char>::empty()) == 0);
    } else {
        lemma_digits_of(n / 10);
        assert(digits_of(n).drop_last() =~= digits_of(n / 10));
        assert(append_digits(0, digits_of(n)) == append_digits(0, digits_of(n / 10)) * 10
            + digit_value(c));
    }
}

/// In a text that holds the digits of `v` from `at` on, and then no digit:
/// where the sign and the digits stand, and what number the digits make.
pub proof fn lemma_signed_digits_in_text(s: Seq<char>, at: int, v: int)
    requires
        0 <= at,
        at + signed_digits_of(v).len() <= s.len(),
        s.subrange(at, at + signed_digits_of(v).len()) == signed_digits_of(v),
        at + signed_digits_of(v).len() < s.len() ==> !is_digit(s[at + signed_digits_of(v).len()]),
    ensures
        minus_at(s, at) == (v < 0),
        sign_len(s, at) == (if v < 0 { 1int } else { 0int }),
        at + sign_len(s, at) + digit_run(s, at + sign_len(s, at)) == at + signed_digits_of(v).len(),
        digit_run(s, at + sign_len(s, at)) > 0,
        append_digits(
            0,
            s.subrange(at + sign_len(s, at), at + signed_digits_of(v).len()),
        ) == magnitude(v),
{
    let sd = signed_digits_of(v);
    let end = at + sd.len();
    let m = magnitude(v);
    lemma_digits_of(m);
    assert(s[at] == sd[0]);
    if v < 0 {
        assert(sd[0] == '-');
    } else {
        assert(is_digit(digits_of(m)[0]));
        assert(sd[0] == digits_of(m)[0]);
    }
    let a = at + sign_len(s, at);
    assert(s.subrange(a, end) =~= digits_of(m)) by {
        assert forall|i: int| 0 <= i < end - a implies s.subrange(a, end)[i] == digits_of(m)[i] by {
            assert(s[a + i] == sd[a + i - at]);
        }
    }
    assert forall|j: int| a <= j < end implies is_digit(#[trigger] s[j]) by {
        assert(s[j] == s.subrange(a, end)[j - a]);
    }
    lemma_digit_run_split(s, a, end);
}

/// A number written and read again is the number.
pub proof fn law_text_round_trip(d: Decimal)
    ensures
        Decimal::of_text(d.text_spec()) == Some(d),
{
    let s = d.text_spec();
    let digits = signed_digits_of(d.digits as int);
    let power = signed_digits_of(d.power as int);
    let b = digits.len() as int;
    lemma_digits_of(magnitude(d.digits as int));
    lemma_digits_of(magnitude(d.power as int));
    assert(s.subrange(0, b) =~= digits);
    assert(s[b] == 'e');
    assert(s.subrange(b + 1, b + 1 + power.len()) =~= power);
    assert(s.len() == b + 1 + power.len());
    lemma_signed_digits_in_text(s, 0, d.digits as int);
    lemma_signed_digits_in_text(s, b + 1, d.power as int);
    assert(whole_end(s) == b);
    assert(!has_point(s));
    let w = written_digits(s);
    assert(w =~= s.subrange(sign_len(s, 0), b));
    assert(append_digits(0, w) == magnitude(d.digits as int));
    assert(kept_len(w, digits_cap(minus_at(s, 0))) == w.len());
    assert(w.take(w.len() as int) =~= w);
}

/// Whether `c` can stand in a written number: a digit, `e` or a minus sign.
pub open spec fn is_written_char(c: char) -> bool {
    is_digit(c) || c == 'e' || c == '-'
}

/// A written number holds digits, `e` and minus signs, and nothing else.
pub proof fn lemma_text_chars(d: Decimal)
    ensures
        forall|i: int| 0 <= i < d.text_spec().len() ==> is_written_char(#[trigger] d.text_spec()[i]),
{
    let digits = signed_digits_of(d.digits as int);
    let power = signed_digits_of(d.power as int);
    lemma_digits_of(magnitude(d.digits as int));
    lemma_digits_of(magnitude(d.power as int));
    assert forall|i: int| 0 <= i < digits.len() implies is_written_char(#[trigger] digits[i]) by {
        if d.digits < 0 && i > 0 {
            assert(digits[i] == digits_of(magnitude(d.digits as int))[i - 1]);
        }
    }
    assert forall|i: int| 0 <= i < power.len() implies is_written_char(#[trigger] power[i]) by {
        if d.power < 0 && i > 0 {
            assert(power[i] == digits_of(magnitude(d.power as int))[i - 1]);
        }
    }
    assert forall|i: int| 0 <= i < d.text_spec().len() implies is_written_char(
        #[trigger] d.text_spec()[i],
    ) by {
        if i < digits.len() {
            assert(d.text_spec()[i] == digits[i]);
        } else if i > digits.len() {
            assert(d.text_spec()[i] == power[i - digits.len() - 1]);
        }
    }
}

} // verus!
