//! Exact decimal numbers read from their text, and their fixed-point
//! quantisation. Numbers arrive as the decimal text that the feed's decoder
//! prints for them; reading that text exactly keeps the quantisation free of
//! binary rounding.
use vstd::prelude::*;

verus! {

/// The most digits a mantissa may have: its value then fits in a `u128`.
pub const MAX_MANTISSA_DIGITS: usize = 38;

/// The most digits an exponent may have.
pub const MAX_EXPONENT_DIGITS: usize = 9;

/// Ten to the power `n`.
pub open spec fn pow10(n: nat) -> nat
    decreases n,
{
    if n == 0 {
        1
    } else {
        10 * pow10((n - 1) as nat)
    }
}

pub open spec fn is_digit(c: char) -> bool {
    '0' <= c && c <= '9'
}

pub open spec fn digit_value(c: char) -> nat {
    (c as int - '0' as int) as nat
}

/// The value of a string of decimal digits, most significant first.
pub open spec fn digits_value(s: Seq<char>) -> nat
    decreases s.len(),
{
    if s.len() == 0 {
        0
    } else {
        digits_value(s.drop_last()) * 10 + digit_value(s.last())
    }
}

/// Where the run of digits that starts at `i` ends.
pub open spec fn digit_run_end(s: Seq<char>, i: int) -> int
    decreases s.len() - i,
{
    if 0 <= i < s.len() && is_digit(s[i]) {
        digit_run_end(s, i + 1)
    } else {
        i
    }
}

/// A decimal number: `(-1)^negative * mantissa * 10^exponent`.
pub struct Decimal {
    pub negative: bool,
    pub mantissa: u128,
    pub exponent: i64,
}

/// Where the integer digits of a number's text start.
pub open spec fn int_start(s: Seq<char>) -> int {
    if s.len() > 0 && s[0] == '-' { 1 } else { 0 }
}

/// Where the integer digits of a number's text end.
pub open spec fn int_end(s: Seq<char>) -> int {
    digit_run_end(s, int_start(s))
}

pub open spec fn has_fraction(s: Seq<char>) -> bool {
    int_end(s) < s.len() && s[int_end(s)] == '.'
}

/// Where the fraction digits end (where they would start, if there are none).
pub open spec fn frac_end(s: Seq<char>) -> int {
    if has_fraction(s) { digit_run_end(s, int_end(s) + 1) } else { int_end(s) }
}

pub open spec fn frac_len(s: Seq<char>) -> int {
    if has_fraction(s) { frac_end(s) - (int_end(s) + 1) } else { 0 }
}

pub open spec fn has_exponent(s: Seq<char>) -> bool {
    frac_end(s) < s.len() && (s[frac_end(s)] == 'e' || s[frac_end(s)] == 'E')
}

pub open spec fn exponent_signed(s: Seq<char>) -> bool {
    has_exponent(s) && frac_end(s) + 1 < s.len() && (s[frac_end(s) + 1] == '-' || s[frac_end(
        s,
    ) + 1] == '+')
}

pub open spec fn exponent_negative(s: Seq<char>) -> bool {
    exponent_signed(s) && s[frac_end(s) + 1] == '-'
}

/// Where the exponent digits start.
pub open spec fn exp_start(s: Seq<char>) -> int {
    if !has_exponent(s) {
        frac_end(s)
    } else if exponent_signed(s) {
        frac_end(s) + 2
    } else {
        frac_end(s) + 1
    }
}

/// Where the number's text ends.
pub open spec fn exp_end(s: Seq<char>) -> int {
    if has_exponent(s) { digit_run_end(s, exp_start(s)) } else { frac_end(s) }
}

/// Whether `s` is a number's text `-? digits (. digits)? ([eE] [+-]? digits)?`
/// within the digit limits.
pub open spec fn is_number_text(s: Seq<char>) -> bool {
    &&& int_end(s) > int_start(s)
    &&& !(has_fraction(s) && frac_len(s) == 0)
    &&& !(has_exponent(s) && exp_end(s) == exp_start(s))
    &&& exp_end(s) == s.len()
    &&& (int_end(s) - int_start(s)) + frac_len(s) <= MAX_MANTISSA_DIGITS
    &&& !(has_exponent(s) && exp_end(s) - exp_start(s) > MAX_EXPONENT_DIGITS)
}

/// The number that a text denotes, as (negative, mantissa, exponent); `None`
/// where `s` is not a number's text.
pub open spec fn parse_decimal(s: Seq<char>) -> Option<(bool, int, int)> {
    if !is_number_text(s) {
        None
    } else {
        let frac_value: int = if has_fraction(s) {
            digits_value(s.subrange(int_end(s) + 1, frac_end(s))) as int
        } else {
            0
        };
        let mantissa = digits_value(s.subrange(int_start(s), int_end(s))) * pow10(
            frac_len(s) as nat,
        ) + frac_value;
        let exp_abs: int = if has_exponent(s) {
            digits_value(s.subrange(exp_start(s), exp_end(s))) as int
        } else {
            0
        };
        let exponent = if exponent_negative(s) { -exp_abs } else { exp_abs };
        Some((int_start(s) == 1, mantissa, exponent - frac_len(s)))
    }
}

/// `m / d` rounded to the nearest integer, halves away from zero.
pub open spec fn round_div(m: nat, d: nat) -> nat {
    ((2 * m + d) / (2 * d)) as nat
}

/// `m * 10^shift`, rounded to the nearest integer.
pub open spec fn scaled_magnitude(m: nat, shift: int) -> nat {
    if shift >= 0 {
        m * pow10(shift as nat)
    } else {
        round_div(m, pow10((-shift) as nat))
    }
}

/// The signed fixed-point value of `x` with `places` decimal places.
pub open spec fn quantized(x: (bool, int, int), places: nat) -> int {
    let mag = scaled_magnitude(x.1 as nat, x.2 + places) as int;
    if x.0 {
        -mag
    } else {
        mag
    }
}

impl Decimal {
    pub open spec fn view(&self) -> (bool, int, int) {
        (self.negative, self.mantissa as int, self.exponent as int)
    }

    /// The decimal zero.
    pub fn zero() -> (r: Decimal)
        ensures
            r.view() == (false, 0int, 0int),
    {
        Decimal { negative: false, mantissa: 0, exponent: 0 }
    }

    /// Whether the number is strictly positive.
    pub fn is_positive(&self) -> (r: bool)
        ensures
            r == (!self.negative && self.mantissa > 0),
    {
        !self.negative && self.mantissa > 0
    }

    /// Whether the number is zero, of either sign.
    pub fn is_zero(&self) -> (r: bool)
        ensures
            r == (self.mantissa == 0),
    {
        self.mantissa == 0
    }
}

pub proof fn lemma_pow10_positive(n: nat)
    ensures
        pow10(n) >= 1,
    decreases n,
{
    if n > 0 {
        lemma_pow10_positive((n - 1) as nat);
    }
}

pub proof fn lemma_pow10_monotonic(a: nat, b: nat)
    requires
        a <= b,
    ensures
        pow10(a) <= pow10(b),
    decreases b,
{
    if a < b {
        lemma_pow10_monotonic(a, (b - 1) as nat);
        lemma_pow10_positive((b - 1) as nat);
    }
}

proof fn lemma_pow10_38()
    ensures
        pow10(38) == 100000000000000000000000000000000000000nat,
{
    reveal_with_fuel(pow10, 39);
}

proof fn lemma_digits_step(s: Seq<char>, x: int, i: int)
    requires
        0 <= x <= i < s.len(),
    ensures
        digits_value(s.subrange(x, i + 1)) == digits_value(s.subrange(x, i)) * 10 + digit_value(
            s[i],
        ),
{
    assert(s.subrange(x, i + 1).drop_last() =~= s.subrange(x, i));
}

proof fn lemma_run_end_step(s: Seq<char>, i: int)
    requires
        0 <= i < s.len(),
        is_digit(s[i]),
    ensures
        digit_run_end(s, i) == digit_run_end(s, i + 1),
{
}

/// Whether `s` has a digit at index `j`.
fn digit_at(s: &str, n: usize, j: usize) -> (r: bool)
    requires
        n == s@.len(),
    ensures
        r == (j < n && is_digit(s@[j as int])),
{
    if j < n {
        let c = s.get_char(j);
        '0' <= c && c <= '9'
    } else {
        false
    }
}

/// The end of the run of digits of `s` that starts at `i`.
fn digit_run(s: &str, n: usize, i: usize) -> (r: usize)
    requires
        n == s@.len(),
        i <= n,
    ensures
        r as int == digit_run_end(s@, i as int),
        i <= r <= n,
        forall|k: int| i <= k < r ==> is_digit(#[trigger] s@[k]),
{
    let mut j: usize = i;
    while digit_at(s, n, j)
        invariant
            n == s@.len(),
            i <= j <= n,
            digit_run_end(s@, i as int) == digit_run_end(s@, j as int),
            forall|k: int| i <= k < j ==> is_digit(#[trigger] s@[k]),
        decreases n - j,
    {
        proof {
            lemma_run_end_step(s@, j as int);
        }
        j = j + 1;
    }
    j
}

/// Appends the digits `s[from..to]` to `acc`.
fn accumulate_digits(s: &str, from: usize, to: usize, acc: u128, Ghost(used): Ghost<nat>) -> (r:
    u128)
    requires
        from <= to <= s@.len(),
        forall|k: int| from <= k < to ==> is_digit(#[trigger] s@[k]),
        acc < pow10(used),
        used + (to - from) <= MAX_MANTISSA_DIGITS,
    ensures
        r == acc * pow10((to - from) as nat) + digits_value(s@.subrange(from as int, to as int)),
        r < pow10((used + (to - from)) as nat),
{
    let mut j: usize = from;
    let mut cur: u128 = acc;
    proof {
        assert(s@.subrange(from as int, from as int) =~= Seq::<char>::empty());
        reveal_with_fuel(pow10, 1);
        reveal_with_fuel(digits_value, 1);
        assert(digits_value(s@.subrange(from as int, from as int)) == 0);
        assert(pow10(0) == 1);
        assert((from - from) as nat == 0nat);
        assert(acc * pow10(0) == acc);
    }
    while j < to
        invariant
            from <= j <= to <= s@.len(),
            forall|k: int| from <= k < to ==> is_digit(#[trigger] s@[k]),
            used + (to - from) <= MAX_MANTISSA_DIGITS,
            cur == acc * pow10((j - from) as nat) + digits_value(s@.subrange(from as int, j as int)),
            cur < pow10((used + (j - from)) as nat),
        decreases to - j,
    {
        let c = s.get_char(j);
        let dv: u128 = (c as u32 - '0' as u32) as u128;
        proof {
            assert(is_digit(s@[j as int]));
            lemma_digits_step(s@, from as int, j as int);
            let p = pow10((used + (j - from)) as nat);
            lemma_pow10_monotonic((used + (j - from)) as nat, 37);
            reveal_with_fuel(pow10, 2);
            assert(pow10(38) == 10 * pow10(37));
            lemma_pow10_38();
            assert(pow10((used + (j + 1 - from)) as nat) == 10 * p);
            assert(pow10((j + 1 - from) as nat) == 10 * pow10((j - from) as nat));
            assert(cur * 10 + dv < 10 * p) by (nonlinear_arith)
                requires
                    cur < p,
                    dv <= 9,
            ;
            assert(acc * pow10((j + 1 - from) as nat) == acc * pow10((j - from) as nat) * 10)
                by (nonlinear_arith)
                requires
                    pow10((j + 1 - from) as nat) == 10 * pow10((j - from) as nat),
            ;
        }
        cur = cur * 10 + dv;
        j = j + 1;
    }
    cur
}

/// The positions of the parts of a number's text, as the spec functions
/// above name them.
fn scan_number(s: &str, n: usize) -> (r: (usize, usize, usize, usize, usize, bool, bool))
    requires
        n == s@.len(),
    ensures
        r.0 == int_start(s@),
        r.1 == int_end(s@),
        r.2 == frac_end(s@),
        r.3 == exp_start(s@),
        r.4 == exp_end(s@),
        r.5 == has_fraction(s@),
        r.6 == has_exponent(s@),
        r.0 <= r.1 <= r.2 <= r.3 <= r.4 <= n,
        has_fraction(s@) ==> r.1 + 1 <= r.2,
        forall|k: int| r.0 <= k < r.1 ==> is_digit(#[trigger] s@[k]),
        has_fraction(s@) ==> forall|k: int| r.1 + 1 <= k < r.2 ==> is_digit(#[trigger] s@[k]),
        has_exponent(s@) ==> forall|k: int| r.3 <= k < r.4 ==> is_digit(#[trigger] s@[k]),
{
    let a: usize = if n > 0 && s.get_char(0) == '-' {
        1
    } else {
        0
    };
    let b = digit_run(s, n, a);
    let has_frac = b < n && s.get_char(b) == '.';
    let c = if has_frac {
        digit_run(s, n, b + 1)
    } else {
        b
    };
    let has_exp = c < n && {
        let ch = s.get_char(c);
        ch == 'e' || ch == 'E'
    };
    let d: usize = if has_exp {
        if c + 1 < n && {
            let ch = s.get_char(c + 1);
            ch == '-' || ch == '+'
        } {
            c + 2
        } else {
            c + 1
        }
    } else {
        c
    };
    let e = if has_exp {
        digit_run(s, n, d)
    } else {
        c
    };
    (a, b, c, d, e, has_frac, has_exp)
}

/// Reads a decimal number from its text.
#[verifier::rlimit(30)]
pub fn parse_decimal_text(s: &str) -> (r: Option<Decimal>)
    ensures
        r is Some <==> parse_decimal(s@) is Some,
        r is Some ==> r->Some_0.view() == parse_decimal(s@)->Some_0,
{
    let n = s.unicode_len();
    let (a, b, c, d, e, has_frac, has_exp) = scan_number(s, n);
    let fraction_digits: usize = if has_frac {
        c - (b + 1)
    } else {
        0
    };
    if b == a || (has_frac && fraction_digits == 0) || (has_exp && e == d) || e != n || (b - a) + fraction_digits
        > MAX_MANTISSA_DIGITS || (has_exp && e - d > MAX_EXPONENT_DIGITS) {
        return None;
    }
    let exp_neg = has_exp && d == c + 2 && s.get_char(c + 1) == '-';
    proof {
        lemma_pow10_positive(0);
        reveal_with_fuel(pow10, 1);
    }
    let int_part = accumulate_digits(s, a, b, 0, Ghost(0));
    let mantissa = if has_frac {
        accumulate_digits(s, b + 1, c, int_part, Ghost((b - a) as nat))
    } else {
        int_part
    };
    let exp_abs: u128 = if has_exp {
        proof {
            lemma_pow10_monotonic((e - d) as nat, 9);
            reveal_with_fuel(pow10, 10);
        }
        accumulate_digits(s, d, e, 0, Ghost(0))
    } else {
        0
    };
    proof {
        if has_exp {
            lemma_pow10_monotonic((e - d) as nat, 9);
            reveal_with_fuel(pow10, 10);
        }
    }
    let exp_abs = exp_abs as i64;
    let exponent: i64 = if exp_neg {
        -exp_abs
    } else {
        exp_abs
    };
    proof {
        let sv = s@;
        let iv = digits_value(sv.subrange(a as int, b as int));
        assert(is_number_text(sv));
        if !has_frac {
            assert(iv * pow10(0) == iv) by (nonlinear_arith)
                requires
                    pow10(0) == 1,
            ;
        }
        assert(mantissa == parse_decimal(sv)->Some_0.1);
        assert(exp_neg == exponent_negative(sv));
    }
    Some(Decimal { negative: a == 1, mantissa, exponent: exponent - fraction_digits as i64 })
}

/// The value of a text of one to twenty digits, where it fits in a `u64`:
/// how the feed's identifiers read.
pub open spec fn parse_unsigned(s: Seq<char>) -> Option<u64> {
    if 0 < s.len() <= 20 && digit_run_end(s, 0) == s.len() && digits_value(s) <= u64::MAX {
        Some(digits_value(s) as u64)
    } else {
        None
    }
}

/// Ten to the power `k`.
fn pow10_u128(k: u32) -> (r: u128)
    requires
        k <= 38,
    ensures
        r == pow10(k as nat),
{
    let mut i: u32 = 0;
    let mut p: u128 = 1;
    proof {
        reveal_with_fuel(pow10, 1);
    }
    while i < k
        invariant
            i <= k <= 38,
            p == pow10(i as nat),
        decreases k - i,
    {
        proof {
            lemma_pow10_monotonic((i + 1) as nat, 38);
            lemma_pow10_38();
        }
        p = p * 10;
        i = i + 1;
    }
    p
}

/// Reads a text made only of digits as a `u64`.
pub fn parse_unsigned_text(s: &str) -> (r: Option<u64>)
    ensures
        r == parse_unsigned(s@),
{
    let n = s.unicode_len();
    let end = digit_run(s, n, 0);
    if n == 0 || end != n || n > 20 {
        return None;
    }
    proof {
        lemma_pow10_positive(0);
        reveal_with_fuel(pow10, 1);
    }
    let v = accumulate_digits(s, 0, n, 0, Ghost(0));
    proof {
        assert(s@.subrange(0, n as int) =~= s@);
    }
    if v <= u64::MAX as u128 {
        Some(v as u64)
    } else {
        None
    }
}

/// Rounding a quotient is the floor quotient, plus one where the remainder
/// is at least half the divisor.
proof fn lemma_round_div_by_remainder(m: int, d: int)
    requires
        m >= 0,
        d > 0,
    ensures
        round_div(m as nat, d as nat) == m / d + (if 2 * (m % d) >= d { 1int } else { 0int }),
{
    let q = m / d;
    let r = m % d;
    vstd::arithmetic::div_mod::lemma_fundamental_div_mod(m, d);
    vstd::arithmetic::div_mod::lemma_mod_bound(m, d);
    vstd::arithmetic::div_mod::lemma_div_pos_is_pos(m, d);
    if 2 * r >= d {
        assert(2 * m + d == (q + 1) * (2 * d) + (2 * r - d)) by (nonlinear_arith)
            requires
                m == d * q + r,
        ;
        vstd::arithmetic::div_mod::lemma_fundamental_div_mod_converse(
            2 * m + d,
            2 * d,
            q + 1,
            2 * r - d,
        );
    } else {
        assert(2 * m + d == q * (2 * d) + (2 * r + d)) by (nonlinear_arith)
            requires
                m == d * q + r,
        ;
        vstd::arithmetic::div_mod::lemma_fundamental_div_mod_converse(
            2 * m + d,
            2 * d,
            q,
            2 * r + d,
        );
    }
}

/// `m * 10^(exponent + places)` rounded to the nearest integer, halves away
/// from zero, where that fits in a `u64`: the magnitude of
/// `m * 10^exponent` on a grid of `places` decimal places.
pub fn scale_magnitude(m: u128, exponent: i64, places: u8) -> (r: Option<u64>)
    ensures
        r is Some <==> scaled_magnitude(m as nat, exponent + places) <= u64::MAX,
        r is Some ==> r->Some_0 == scaled_magnitude(m as nat, exponent + places),
{
    let shift: i128 = exponent as i128 + places as i128;
    proof {
        lemma_pow10_38();
    }
    if shift >= 0 {
        if m == 0 {
            return Some(0);
        }
        if shift > 38 {
            proof {
                let p = pow10(shift as nat);
                lemma_pow10_monotonic(39, shift as nat);
                reveal_with_fuel(pow10, 2);
                assert(pow10(39) == 10 * pow10(38));
                assert(m * p >= p) by (nonlinear_arith)
                    requires
                        m >= 1,
                        p >= 0,
                ;
            }
            return None;
        }
        let p = pow10_u128(shift as u32);
        match m.checked_mul(p) {
            None => None,
            Some(v) => {
                if v <= u64::MAX as u128 {
                    Some(v as u64)
                } else {
                    None
                }
            },
        }
    } else {
        if shift < -38 {
            proof {
                let d = pow10((-shift) as nat) as int;
                lemma_pow10_monotonic(39, (-shift) as nat);
                reveal_with_fuel(pow10, 2);
                assert(pow10(39) == 10 * pow10(38));
                vstd::arithmetic::div_mod::lemma_basic_div(2 * m + d, 2 * d);
            }
            return Some(0);
        }
        let d = pow10_u128((-shift) as u32);
        proof {
            lemma_pow10_monotonic((-shift) as nat, 38);
            lemma_pow10_positive((-shift) as nat);
            lemma_round_div_by_remainder(m as int, d as int);
            vstd::arithmetic::div_mod::lemma_mod_bound(m as int, d as int);
            vstd::arithmetic::div_mod::lemma_div_pos_is_pos(m as int, d as int);
            lemma_pow10_monotonic(1, (-shift) as nat);
            reveal_with_fuel(pow10, 2);
            vstd::arithmetic::div_mod::lemma_div_is_ordered_by_denominator(m as int, 10, d as int);
            assert(m as int / 10 < u128::MAX);
        }
        let q = m / d;
        let rem = m % d;
        let q = if 2 * rem >= d {
            q + 1
        } else {
            q
        };
        if q <= u64::MAX as u128 {
            Some(q as u64)
        } else {
            None
        }
    }
}

/// Quantisation rounds: scaled back, the fixed-point magnitude is within half
/// a unit of the grid of the exact value, and exact where the value lies on
/// the grid.
pub proof fn lemma_quantization_round_trip(m: nat, shift: int)
    ensures
        shift >= 0 ==> scaled_magnitude(m, shift) == m * pow10(shift as nat),
        shift < 0 ==> {
            let d = pow10((-shift) as nat) as int;
            let q = scaled_magnitude(m, shift) as int;
            -d < 2 * (q * d - m) <= d
        },
{
    if shift < 0 {
        let d = pow10((-shift) as nat) as int;
        lemma_pow10_positive((-shift) as nat);
        let x = 2 * m + d;
        let q = x / (2 * d);
        vstd::arithmetic::div_mod::lemma_fundamental_div_mod(x, 2 * d);
        assert(0 <= x % (2 * d) < 2 * d) by {
            vstd::arithmetic::div_mod::lemma_mod_bound(x, 2 * d);
        }
        assert(q >= 0) by {
            vstd::arithmetic::div_mod::lemma_div_pos_is_pos(x, 2 * d);
        }
        assert(-d < 2 * (q * d - m) <= d) by (nonlinear_arith)
            requires
                x == 2 * m + d,
                x == (2 * d) * q + x % (2 * d),
                0 <= x % (2 * d) < 2 * d,
        ;
    }
}

} // verus!
