//! Scaled decimal numbers.
//!
//! A decimal is an exponent and a mantissa.  Values parsed from template
//! text are normalized: the mantissa is never divisible by ten unless it is
//! zero, and a zero mantissa forces a zero exponent.  Normalization makes the
//! two components predictable when operators are applied to them separately.
use vstd::prelude::*;
use vstd::string::StringSliceAdditionalSpecFns;

use crate::errors::Error;
use crate::numstr::{
    all_dec_digits, ascii_to_string, bytes_as_chars, dec_digits, digit_of, digits_val,
    has_int_shape, i64_magnitude, int_shape_val, is_dec_digit, lemma_dec_digits_are_digits,
    parse_digits_limited, pow10, push_dec_digits, push_zero_digits, seq_repeat_zero, zero_pad,
};

verus! {

/// Represents a scaled decimal number.
#[derive(Debug, PartialEq, Eq, Structural, Clone)]
pub struct Decimal {
    pub exponent: i32,
    pub mantissa: i64,
}

/// The normalized-decimal invariant.
pub open spec fn spec_normalized(e: int, m: int) -> bool {
    if m == 0 {
        e == 0
    } else {
        m % 10 != 0
    }
}

/// Number of factors of ten in `n`.
pub open spec fn trailing_tens(n: nat) -> nat
    decreases n,
{
    if n == 0 || n % 10 != 0 {
        0
    } else {
        1 + trailing_tens(n / 10)
    }
}

pub open spec fn spec_magnitude(m: int) -> nat {
    if m < 0 {
        (-m) as nat
    } else {
        m as nat
    }
}

pub open spec fn with_sign(m: int, mag: nat) -> int {
    if m < 0 {
        -(mag as int)
    } else {
        mag as int
    }
}

/// `s` has no decimal point.
pub open spec fn no_dot(s: Seq<u8>) -> bool {
    forall|i: int| 0 <= i < s.len() ==> s[i] != 46
}

/// `i` is the position of the first decimal point of `s`.
pub open spec fn is_first_dot(s: Seq<u8>, i: int) -> bool {
    &&& 0 <= i < s.len()
    &&& s[i] == 46
    &&& forall|j: int| 0 <= j < i ==> s[j] != 46
}

/// Value of an optionally signed digit string, when it fits an `i64`.
pub open spec fn spec_parse_i64(s: Seq<u8>) -> Option<int> {
    if has_int_shape(s) && -0x8000_0000_0000_0000 <= int_shape_val(s) <= 0x7fff_ffff_ffff_ffff {
        Some(int_shape_val(s))
    } else {
        None
    }
}

/// Normalize a mantissa and add `scale` to the exponent base `e0`.
pub open spec fn spec_normalize(e0: int, m: int) -> (int, int) {
    if m == 0 {
        (0, 0)
    } else {
        let t = trailing_tens(spec_magnitude(m));
        (e0 + t, with_sign(m, spec_magnitude(m) / pow10(t)))
    }
}

/// The decimal denoted by a literal: an optionally signed digit string with
/// at most one decimal point, normalized, with the exponent within `i32`.
pub open spec fn spec_parse_decimal(s: Seq<u8>) -> Option<(int, int)> {
    if no_dot(s) {
        match spec_parse_i64(s) {
            Option::None => Option::None,
            Option::Some(m) => check_exponent_range(spec_normalize(0, m)),
        }
    } else {
        let i = choose|i: int| is_first_dot(s, i);
        if exists|j: int| i < j < s.len() && s[j] == 46 {
            Option::None
        } else {
            let combined = s.take(i) + s.skip(i + 1);
            let fraclen = s.len() - i - 1;
            match spec_parse_i64(combined) {
                Option::None => Option::None,
                Option::Some(m) => check_exponent_range(spec_normalize(-fraclen, m)),
            }
        }
    }
}

pub open spec fn check_exponent_range(em: (int, int)) -> Option<(int, int)> {
    if -0x8000_0000 <= em.0 <= 0x7fff_ffff {
        Option::Some(em)
    } else {
        Option::None
    }
}

/// Canonical rendering: the digits of the scaled value, with a decimal point
/// only when the fractional part is not zero, and no redundant zeros in the
/// integer part.
pub open spec fn spec_decimal_bytes(e: int, m: int) -> Seq<u8> {
    let sign: Seq<u8> = if m < 0 {
        seq![45u8]
    } else {
        Seq::empty()
    };
    let mag = spec_magnitude(m);
    if m == 0 {
        seq![48u8]
    } else if e >= 0 {
        sign + dec_digits(mag) + seq_repeat_zero(e as nat)
    } else {
        let k = (-e) as nat;
        if mag % pow10(k) == 0 {
            sign + dec_digits(mag / pow10(k))
        } else {
            sign + dec_digits(mag / pow10(k)) + seq![46u8] + zero_pad(
                dec_digits(mag % pow10(k)),
                k,
            )
        }
    }
}

/// Rendering with a forced fractional part: a non-negative exponent gets a
/// trailing `.0`, a negative exponent exactly `-e` fractional digits.
pub open spec fn spec_decimal_display_bytes(e: int, m: int) -> Seq<u8> {
    let sign: Seq<u8> = if m < 0 {
        seq![45u8]
    } else {
        Seq::empty()
    };
    let mag = spec_magnitude(m);
    if e >= 0 {
        if m == 0 {
            seq![48u8, 46u8, 48u8]
        } else {
            sign + dec_digits(mag) + seq_repeat_zero(e as nat) + seq![46u8, 48u8]
        }
    } else {
        let k = (-e) as nat;
        sign + dec_digits(mag / pow10(k)) + seq![46u8] + zero_pad(dec_digits(mag % pow10(k)), k)
    }
}

impl Decimal {
    pub open spec fn is_normalized(&self) -> bool {
        spec_normalized(self.exponent as int, self.mantissa as int)
    }

    pub fn new(exponent: i32, mantissa: i64) -> (r: Decimal)
        ensures
            r.exponent == exponent,
            r.mantissa == mantissa,
    {
        Decimal { exponent, mantissa }
    }

    /// Parse a decimal literal and normalize it.
    pub fn from_string(value: &str) -> (r: Result<Decimal, Error>)
        ensures
            match r {
                Ok(d) => spec_parse_decimal(value.spec_bytes()) == Some(
                    (d.exponent as int, d.mantissa as int),
                ) && d.is_normalized(),
                Err(e) => spec_parse_decimal(value.spec_bytes()) is None && e is Static,
            },
    {
        let b = value.as_bytes();
        parse_decimal_bytes(b)
    }

    /// Render the decimal as a plain number: integers without a point,
    /// fractions with one.
    pub fn to_string(&self) -> (r: String)
        ensures
            r@ == bytes_as_chars(spec_decimal_bytes(self.exponent as int, self.mantissa as int)),
    {
        let buf = decimal_bytes(self.exponent, self.mantissa, false);
        ascii_to_string(buf)
    }

    /// Render the decimal with an explicit fractional part, as a reader of
    /// market data expects: `20.0`, `-1.000`, `0.00`.
    pub fn display_string(&self) -> (r: String)
        ensures
            r@ == bytes_as_chars(
                spec_decimal_display_bytes(self.exponent as int, self.mantissa as int),
            ),
    {
        let buf = decimal_bytes(self.exponent, self.mantissa, true);
        ascii_to_string(buf)
    }
}

impl Default for Decimal {
    /// The zero decimal.
    fn default() -> (r: Self)
        ensures
            r.exponent == 0 && r.mantissa == 0,
    {
        Decimal { exponent: 0, mantissa: 0 }
    }
}

/// Parse a decimal literal into its normalized exponent and mantissa.
pub fn decimal_normalize(value: &str) -> (r: Result<(i32, i64), Error>)
    ensures
        match r {
            Ok((e, m)) => spec_parse_decimal(value.spec_bytes()) == Some((e as int, m as int))
                && spec_normalized(e as int, m as int),
            Err(err) => spec_parse_decimal(value.spec_bytes()) is None && err is Static,
        },
{
    match Decimal::from_string(value) {
        Ok(d) => Ok((d.exponent, d.mantissa)),
        Err(e) => Err(e),
    }
}

/// `10^k` for `k <= 19`, the largest power of ten an `u64` holds.
fn pow10_u64(k: u32) -> (r: u64)
    requires
        k <= 19,
    ensures
        r == pow10(k as nat),
{
    let mut r: u64 = 1;
    let mut i: u32 = 0;
    proof {
        lemma_pow10_le_19_fits(k as nat);
    }
    while i < k
        invariant
            i <= k <= 19,
            r == pow10(i as nat),
            r <= 0x8ac7230489e80000u64,
        decreases k - i,
    {
        proof {
            lemma_pow10_le_19_fits((i + 1) as nat);
            assert(pow10((i + 1) as nat) == 10 * pow10(i as nat));
        }
        r = r * 10;
        i = i + 1;
    }
    r
}

proof fn lemma_pow10_le_19_fits(k: nat)
    ensures
        k <= 19 ==> pow10(k) <= 0x8ac7230489e80000u64,
        pow10(k) >= 1,
    decreases k,
{
    if k > 0 {
        lemma_pow10_le_19_fits((k - 1) as nat);
        if k <= 19 {
            lemma_pow10_values();
            lemma_pow10_monotone(k, 19);
        }
    }
}

/// The two powers of ten that bracket the `u64` range.
proof fn lemma_pow10_values()
    ensures
        pow10(19) == 10_000_000_000_000_000_000,
        pow10(20) == 100_000_000_000_000_000_000,
{
    reveal_with_fuel(pow10, 21);
}

pub proof fn lemma_pow10_monotone(a: nat, b: nat)
    requires
        a <= b,
    ensures
        pow10(a) <= pow10(b),
        pow10(a) >= 1,
    decreases b,
{
    if a < b {
        lemma_pow10_monotone(a, (b - 1) as nat);
        assert(pow10(b) == 10 * pow10((b - 1) as nat));
    } else {
        if a > 0 {
            lemma_pow10_monotone((a - 1) as nat, (b - 1) as nat);
        }
    }
}

/// Strip the factors of ten out of `mag`, returning the scale and the
/// reduced magnitude.
fn scale_down_magnitude(mag: u64) -> (r: (u32, u64))
    requires
        mag > 0,
    ensures
        r.0 == trailing_tens(mag as nat),
        r.1 == mag as nat / pow10(r.0 as nat),
        r.1 as nat % 10 != 0,
        r.1 > 0,
        r.0 <= 19,
{
    let mut m: u64 = mag;
    let mut scale: u32 = 0;
    proof {
        lemma_pow10_le_19_fits(0);
        assert(pow10(0) == 1);
        vstd::arithmetic::div_mod::lemma_fundamental_div_mod_converse(mag as int, 1, mag as int, 0);
    }
    while m % 10 == 0
        invariant
            m > 0,
            trailing_tens(mag as nat) == scale + trailing_tens(m as nat),
            m == mag as nat / pow10(scale as nat),
            mag as nat % pow10(scale as nat) == 0,
            pow10(scale as nat) <= mag,
        decreases m,
    {
        proof {
            lemma_scale_step(mag as nat, m as nat, scale as nat);
            lemma_scale_bound(mag as nat, (scale + 1) as nat);
        }
        m = m / 10;
        scale = scale + 1;
    }
    proof {
        assert(trailing_tens(m as nat) == 0);
        lemma_scale_bound(mag as nat, scale as nat);
    }
    (scale, m)
}

/// One step of scaling: dividing the reduced magnitude by ten extends the
/// power of ten that divides the original.
proof fn lemma_scale_step(mag: nat, m: nat, scale: nat)
    requires
        m > 0,
        m % 10 == 0,
        m == mag / pow10(scale),
        mag % pow10(scale) == 0,
        pow10(scale) <= mag,
    ensures
        m / 10 == mag / pow10(scale + 1),
        mag % pow10(scale + 1) == 0,
        pow10(scale + 1) <= mag,
        m / 10 > 0,
{
    let p = pow10(scale);
    assert(pow10(scale + 1) == 10 * p);
    lemma_pow10_monotone(0, scale);
    assert(mag == (mag / p) * p) by (nonlinear_arith)
        requires
            p >= 1,
            mag % p == 0,
            mag >= 0,
    {}
    assert(m == (m / 10) * 10) by (nonlinear_arith)
        requires
            m % 10 == 0,
            m >= 0,
    {}
    assert(mag == (m / 10) * (10 * p)) by (nonlinear_arith)
        requires
            mag == m * p,
            m == (m / 10) * 10,
    {}
    assert(mag / (10 * p) == m / 10 && mag % (10 * p) == 0) by (nonlinear_arith)
        requires
            mag == (m / 10) * (10 * p),
            p >= 1,
            m / 10 >= 0,
    {}
    assert(m / 10 > 0) by (nonlinear_arith)
        requires
            m >= 10,
            m == (m / 10) * 10,
    {}
    assert(10 * p <= mag) by (nonlinear_arith)
        requires
            mag == (m / 10) * (10 * p),
            m / 10 >= 1,
            p >= 1,
    {}
}

proof fn lemma_scale_bound(mag: nat, scale: nat)
    requires
        pow10(scale) <= mag,
        mag < 0x1_0000_0000_0000_0000,
    ensures
        scale <= 19,
{
    if scale > 19 {
        lemma_pow10_values();
        lemma_pow10_monotone(20, scale);
    }
}

/// Parse an optionally signed digit string into an `i64`.
pub fn parse_i64_bytes(s: &[u8]) -> (r: Option<i64>)
    ensures
        match r {
            Some(v) => spec_parse_i64(s@) == Some(v as int),
            None => spec_parse_i64(s@) is None,
        },
{
    if s.len() == 0 {
        return None;
    }
    let first = s[0];
    let neg = first == 45;
    let start: usize = if first == 45 || first == 43 {
        1
    } else {
        0
    };
    let limit: u64 = if neg {
        0x8000_0000_0000_0000
    } else {
        0x7fff_ffff_ffff_ffff
    };
    match parse_digits_limited(s, start, limit) {
        None => {
            proof {
                lemma_parse_i64_none(s@, start as int, limit as int);
            }
            None
        },
        Some(mag) => {
            proof {
                if first == 45 || first == 43 {
                    assert(s@.skip(1) == s@.skip(start as int));
                } else {
                    assert(s@.skip(start as int) =~= s@);
                }
            }
            if neg {
                if mag == 0x8000_0000_0000_0000 {
                    Some(i64::MIN)
                } else {
                    Some(-(mag as i64))
                }
            } else {
                Some(mag as i64)
            }
        },
    }
}

/// When the digit run fails to parse under the sign's limit, the string
/// denotes no `i64`.
proof fn lemma_parse_i64_none(s: Seq<u8>, start: int, limit: int)
    requires
        s.len() > 0,
        start == if s[0] == 45 || s[0] == 43 {
            1int
        } else {
            0int
        },
        limit == if s[0] == 45 {
            0x8000_0000_0000_0000int
        } else {
            0x7fff_ffff_ffff_ffffint
        },
        !(all_dec_digits(s.skip(start)) && s.len() > start && digits_val(s.skip(start)) <= limit),
    ensures
        spec_parse_i64(s) is None,
{
    if has_int_shape(s) {
        if s[0] == 45 || s[0] == 43 {
            assert(s.skip(1) == s.skip(start));
        } else {
            assert(s.skip(0) =~= s);
        }
    }
}

/// Parse a decimal literal from its bytes; used by `Decimal::from_string`.
pub fn parse_decimal_bytes(b: &[u8]) -> (r: Result<Decimal, Error>)
    ensures
        match r {
            Ok(d) => spec_parse_decimal(b@) == Some((d.exponent as int, d.mantissa as int))
                && d.is_normalized(),
            Err(e) => spec_parse_decimal(b@) is None && e is Static,
        },
{
    // locate the decimal point, if any; two points are malformed
    let mut dot: Option<usize> = None;
    let mut i: usize = 0;
    while i < b.len()
        invariant
            i <= b@.len(),
            match dot {
                Option::None => forall|j: int| 0 <= j < i ==> b@[j] != 46,
                Option::Some(d) => is_first_dot(b@, d as int) && d < i && forall|j: int|
                    d < j < i ==> b@[j] != 46,
            },
        decreases b@.len() - i,
    {
        if b[i] == 46 {
            match dot {
                None => {
                    dot = Some(i);
                },
                Some(_) => {
                    proof {
                        lemma_first_dot_unique(b@, dot->0 as int);
                    }
                    return Err(Error::Static("not a decimal".to_owned()));
                },
            }
        }
        i = i + 1;
    }
    match dot {
        None => {
            // integer literal
            match parse_i64_bytes(b) {
                None => Err(Error::Static("not a decimal".to_owned())),
                Some(m) => finish_normalize(Ghost(0int), 0, m),
            }
        },
        Some(d) => {
            proof {
                lemma_first_dot_unique(b@, d as int);
            }
            // digits with the point removed form the mantissa literal
            let mut combined: Vec<u8> = Vec::new();
            let mut j: usize = 0;
            while j < b.len()
                invariant
                    j <= b@.len(),
                    d < b@.len(),
                    j <= d ==> combined@ == b@.take(j as int),
                    j > d ==> combined@ == b@.take(d as int) + b@.subrange(d + 1, j as int),
                decreases b@.len() - j,
            {
                if j != d {
                    combined.push(b[j]);
                }
                proof {
                    if j + 1 <= d {
                        assert(combined@ =~= b@.take(j + 1));
                    } else if j == d {
                        assert(combined@ =~= b@.take(d as int) + b@.subrange(d + 1, d + 1));
                    } else {
                        assert(combined@ =~= b@.take(d as int) + b@.subrange(d + 1, j + 1));
                    }
                }
                j = j + 1;
            }
            proof {
                assert(combined@ =~= b@.take(d as int) + b@.skip(d + 1));
            }
            let fraclen: usize = b.len() - d - 1;
            match parse_i64_bytes(combined.as_slice()) {
                None => Err(Error::Static("not a decimal".to_owned())),
                Some(m) => {
                    if m == 0 {
                        return Ok(Decimal { exponent: 0, mantissa: 0 });
                    }
                    if (fraclen as u64) > 0x8000_0013u64 {
                        // even the largest possible scale of 19 cannot bring
                        // the exponent back into `i32` range
                        proof {
                            lemma_huge_fraction_out_of_range(fraclen as int, m as int);
                        }
                        Err(Error::Static("exponent out of range".to_owned()))
                    } else {
                        finish_normalize(Ghost(-(fraclen as int)), -(fraclen as i64), m)
                    }
                },
            }
        },
    }
}

pub proof fn lemma_first_dot_unique_pub(s: Seq<u8>, i: int)
    requires
        is_first_dot(s, i),
    ensures
        (choose|k: int| is_first_dot(s, k)) == i,
{
    lemma_first_dot_unique(s, i);
}

proof fn lemma_first_dot_unique(s: Seq<u8>, i: int)
    requires
        is_first_dot(s, i),
    ensures
        (choose|k: int| is_first_dot(s, k)) == i,
{
    let k = choose|k: int| is_first_dot(s, k);
    assert(is_first_dot(s, i));
    assert(is_first_dot(s, k));
    if k != i {
        if k < i {
            assert(s[k] == 46);
        } else {
            assert(s[i] == 46);
        }
    }
}

/// Past `i32::MAX + 19` fractional digits the normalized exponent stays
/// below `i32::MIN` whatever the scale.
proof fn lemma_huge_fraction_out_of_range(fraclen: int, m: int)
    requires
        fraclen > 0x8000_0013,
        m != 0,
        -0x8000_0000_0000_0000 <= m <= 0x7fff_ffff_ffff_ffff,
    ensures
        check_exponent_range(spec_normalize(-fraclen, m)) is None,
{
    let mag = spec_magnitude(m);
    let t = trailing_tens(mag);
    lemma_trailing_tens_le_19(mag);
}

proof fn lemma_trailing_tens_le_19(mag: nat)
    requires
        mag < 0x1_0000_0000_0000_0000,
    ensures
        trailing_tens(mag) <= 19,
        mag > 0 ==> pow10(trailing_tens(mag)) <= mag,
        mag > 0 ==> (mag / pow10(trailing_tens(mag))) % 10 != 0,
        mag > 0 ==> mag % pow10(trailing_tens(mag)) == 0,
        mag > 0 ==> mag / pow10(trailing_tens(mag)) > 0,
    decreases mag,
{
    if mag == 0 {
    } else if mag % 10 != 0 {
        assert(pow10(0) == 1);
        assert(mag / 1 == mag);
    } else {
        vstd::arithmetic::div_mod::lemma_fundamental_div_mod(mag as int, 10);
        assert(mag == (mag / 10) * 10);
        assert(mag / 10 > 0) by (nonlinear_arith)
            requires
                mag > 0,
                mag == (mag / 10) * 10,
        {}
        lemma_trailing_tens_le_19(mag / 10);
        let t0 = trailing_tens(mag / 10);
        let p0 = pow10(t0);
        lemma_pow10_monotone(0, t0);
        let q = (mag / 10) / p0;
        vstd::arithmetic::div_mod::lemma_fundamental_div_mod((mag / 10) as int, p0 as int);
        assert((mag / 10) == q * p0) by (nonlinear_arith)
            requires
                mag / 10 == p0 * q + (mag / 10) % p0,
                (mag / 10) % p0 == 0,
        {}
        assert(q > 0) by (nonlinear_arith)
            requires
                mag / 10 > 0,
                (mag / 10) == q * p0,
        {}
        assert(mag == q * (10 * p0)) by (nonlinear_arith)
            requires
                mag == (mag / 10) * 10,
                (mag / 10) == q * p0,
        {}
        assert(pow10(t0 + 1) == 10 * p0);
        vstd::arithmetic::div_mod::lemma_fundamental_div_mod_converse(
            mag as int,
            (10 * p0) as int,
            q as int,
            0,
        );
        assert(trailing_tens(mag) == t0 + 1);
        assert(pow10(t0 + 1) <= mag) by (nonlinear_arith)
            requires
                mag == q * (10 * p0),
                q >= 1,
                p0 >= 1,
                pow10(t0 + 1) == 10 * p0,
        {}
        if t0 + 1 > 19 {
            lemma_pow10_values();
            lemma_pow10_monotone(20, t0 + 1);
        }
    }
}

/// Normalize a parsed mantissa against the exponent contributed by the
/// fractional digits, and range-check the exponent.
fn finish_normalize(Ghost(e0): Ghost<int>, e0x: i64, m: i64) -> (r: Result<Decimal, Error>)
    requires
        e0x == e0,
        -0x8000_0000_0000_0000 <= e0 <= 0,
    ensures
        match r {
            Ok(d) => check_exponent_range(spec_normalize(e0, m as int)) == Some(
                (d.exponent as int, d.mantissa as int),
            ) && d.is_normalized(),
            Err(e) => check_exponent_range(spec_normalize(e0, m as int)) is None && e is Static,
        },
{
    if m == 0 {
        return Ok(Decimal { exponent: 0, mantissa: 0 });
    }
    let mag = i64_magnitude(m);
    proof {
        lemma_trailing_tens_le_19(mag as nat);
    }
    let (scale, reduced) = scale_down_magnitude(mag);
    let e: i64 = e0x + scale as i64;
    if e < -0x8000_0000i64 || e > 0x7fff_ffffi64 {
        return Err(Error::Static("exponent out of range".to_owned()));
    }
    proof {
        lemma_reduced_le_mag(mag as nat, scale as nat, reduced as nat);
        if m < 0 {
            lemma_neg_keeps_mod_10(reduced as int);
        }
    }
    let mantissa: i64 = if m < 0 {
        if reduced == 0x8000_0000_0000_0000 {
            i64::MIN
        } else {
            -(reduced as i64)
        }
    } else {
        reduced as i64
    };
    Ok(Decimal { exponent: e as i32, mantissa })
}

/// The reduced magnitude never exceeds the original.
proof fn lemma_reduced_le_mag(mag: nat, scale: nat, reduced: nat)
    requires
        reduced == mag / pow10(scale),
    ensures
        reduced <= mag,
{
    lemma_pow10_monotone(0, scale);
    assert(mag / pow10(scale) <= mag) by (nonlinear_arith)
        requires
            pow10(scale) >= 1,
            mag >= 0,
    {}
}

/// Negation preserves indivisibility by ten.
proof fn lemma_neg_keeps_mod_10(x: int)
    requires
        x % 10 != 0,
    ensures
        (-x) % 10 != 0,
{
    vstd::arithmetic::div_mod::lemma_fundamental_div_mod(x, 10);
    let q = x / 10;
    let r0 = x % 10;
    vstd::arithmetic::div_mod::lemma_fundamental_div_mod_converse(-x, 10, -q - 1, 10 - r0);
}

/// Render a decimal into ASCII bytes; `display` forces a fractional part.
#[verifier::rlimit(60)]
fn decimal_bytes(exponent: i32, mantissa: i64, display: bool) -> (r: Vec<u8>)
    ensures
        !display ==> r@ == spec_decimal_bytes(exponent as int, mantissa as int),
        display ==> r@ == spec_decimal_display_bytes(exponent as int, mantissa as int),
        forall|i: int| 0 <= i < r@.len() ==> r@[i] < 128,
{
    let mut out: Vec<u8> = Vec::new();
    let mag = i64_magnitude(mantissa);
    let ghost e = exponent as int;
    let ghost m = mantissa as int;
    if exponent >= 0 {
        if mantissa == 0 {
            out.push(48);
            if display {
                out.push(46);
                out.push(48);
                proof {
                    assert(out@ =~= spec_decimal_display_bytes(e, m));
                }
            } else {
                proof {
                    assert(out@ =~= spec_decimal_bytes(e, m));
                }
            }
            proof {
                lemma_out_ascii(out@);
            }
            return out;
        }
        if mantissa < 0 {
            out.push(45);
        }
        push_dec_digits(mag, &mut out);
        push_zero_digits(exponent as u32, &mut out);
        proof {
            lemma_dec_digits_are_digits(mag as nat);
            assert(out@ =~= spec_decimal_bytes(e, m));
        }
        if display {
            out.push(46);
            out.push(48);
            proof {
                assert(out@ =~= spec_decimal_display_bytes(e, m));
            }
        }
        proof {
            lemma_out_ascii(out@);
        }
        return out;
    }
    // negative exponent: split the magnitude into integer and fraction
    let k64: u64 = neg_i32_as_u64(exponent);
    let ghost k = ((-e)) as nat;
    let intpart: u64;
    let fracval: u64;
    if k64 >= 20 {
        proof {
            lemma_pow10_values();
            lemma_pow10_monotone(20, k);
            assert(mag as nat / pow10(k) == 0) by (nonlinear_arith)
                requires
                    pow10(k) > mag as nat,
                    mag as nat >= 0,
            {}
            assert(mag as nat % pow10(k) == mag as nat) by (nonlinear_arith)
                requires
                    pow10(k) > mag as nat,
                    mag as nat >= 0,
            {}
        }
        intpart = 0;
        fracval = mag;
    } else {
        let div = pow10_u64(k64 as u32);
        proof {
            lemma_pow10_monotone(0, k);
        }
        intpart = mag / div;
        fracval = mag % div;
    }
    proof {
        assert(k64 as nat == k);
        assert(intpart as nat == mag as nat / pow10(k));
        assert(fracval as nat == mag as nat % pow10(k));
        assert((fracval as nat) < pow10(k)) by (nonlinear_arith)
            requires
                fracval as nat == mag as nat % pow10(k),
                pow10(k) >= 1,
        {}
    }
    if !display && fracval == 0 {
        // the fraction vanishes: render as a plain integer
        if mantissa < 0 {
            out.push(45);
        }
        push_dec_digits(intpart, &mut out);
        proof {
            lemma_dec_digits_are_digits(intpart as nat);
            assert(out@ =~= spec_decimal_bytes(e, m));
            lemma_out_ascii(out@);
        }
        return out;
    }
    let ghost sign_seq: Seq<u8> = if m < 0 {
        seq![45u8]
    } else {
        Seq::empty()
    };
    if mantissa < 0 {
        out.push(45);
    }
    push_dec_digits(intpart, &mut out);
    out.push(46);
    proof {
        assert(out@ =~= sign_seq + dec_digits(intpart as nat) + seq![46u8]);
    }
    // the fraction is zero-padded on the left to exactly k digits
    let mut frac: Vec<u8> = Vec::new();
    push_dec_digits(fracval, &mut frac);
    proof {
        lemma_dec_digits_are_digits(fracval as nat);
        lemma_dec_digits_len_le(fracval as nat, k);
        assert(frac@ =~= dec_digits(fracval as nat));
    }
    let ghost pad_seq: Seq<u8>;
    if (frac.len() as u64) < k64 {
        let pad: u32 = pad_width(k64, frac.len());
        push_zero_digits(pad, &mut out);
        proof {
            pad_seq = seq_repeat_zero(pad as nat);
        }
    } else {
        proof {
            pad_seq = Seq::empty();
        }
    }
    proof {
        assert(out@ =~= sign_seq + dec_digits(intpart as nat) + seq![46u8] + pad_seq);
        assert(pad_seq + frac@ =~= zero_pad(dec_digits(fracval as nat), k));
    }
    let ghost out_pre = out@;
    let ghost frac_view = frac@;
    out.append(&mut frac);
    proof {
        assert(out@ == out_pre + frac_view);
        assert(out@ =~= sign_seq + dec_digits(intpart as nat) + seq![46u8] + zero_pad(
            dec_digits(fracval as nat),
            k,
        ));
        assert(out@ =~= if display {
            spec_decimal_display_bytes(e, m)
        } else {
            spec_decimal_bytes(e, m)
        });
        lemma_dec_digits_are_digits(intpart as nat);
        let whole = sign_seq + dec_digits(intpart as nat) + seq![46u8] + zero_pad(
            dec_digits(fracval as nat),
            k,
        );
        assert forall|i: int| 0 <= i < whole.len() implies whole[i] == 45 || whole[i] == 46 || 48
            <= whole[i] <= 57 by {
            let zp = zero_pad(dec_digits(fracval as nat), k);
            let head = sign_seq + dec_digits(intpart as nat) + seq![46u8];
            if i < head.len() {
            } else {
                let j = i - head.len();
                assert(whole[i] == zp[j]);
                if dec_digits(fracval as nat).len() >= k {
                } else {
                    let pad = (k - dec_digits(fracval as nat).len()) as nat;
                    if j < pad {
                        assert(zp[j] == 48);
                    } else {
                        assert(zp[j] == dec_digits(fracval as nat)[j - pad]);
                    }
                }
            }
        }
        lemma_out_ascii(out@);
    }
    out
}

/// The magnitude of a negative `i32` exponent, as a `u64`.
fn neg_i32_as_u64(e: i32) -> (r: u64)
    requires
        e < 0,
    ensures
        r == -(e as int),
{
    if e == i32::MIN {
        0x8000_0000u64
    } else {
        (-e) as u64
    }
}

/// Width of the zero padding in front of the fractional digits.
fn pad_width(k64: u64, fraclen: usize) -> (r: u32)
    requires
        fraclen < k64,
        k64 <= 0x8000_0000,
    ensures
        r == k64 - fraclen,
{
    (k64 - fraclen as u64) as u32
}

/// A value below `10^k` has at most `k` digits.
pub proof fn lemma_dec_digits_len_le_pub(n: nat, k: nat)
    requires
        n < pow10(k),
        k >= 1,
    ensures
        dec_digits(n).len() <= k,
{
    lemma_dec_digits_len_le(n, k);
}

proof fn lemma_dec_digits_len_le(n: nat, k: nat)
    requires
        n < pow10(k),
    ensures
        dec_digits(n).len() <= if k == 0 {
            1nat
        } else {
            k
        },
    decreases n,
{
    if n < 10 {
    } else {
        assert(k >= 2) by {
            assert(pow10(1) == 10 * pow10(0));
            assert(pow10(0) == 1);
            if k < 2 {
                lemma_pow10_monotone(k, 1);
            }
        }
        assert(n / 10 < pow10((k - 1) as nat)) by (nonlinear_arith)
            requires
                n < pow10(k),
                pow10(k) == 10 * pow10((k - 1) as nat),
                n >= 10,
        {}
        lemma_dec_digits_len_le(n / 10, (k - 1) as nat);
    }
}

proof fn lemma_out_ascii(s: Seq<u8>)
    requires
        forall|i: int| 0 <= i < s.len() ==> s[i] == 45 || s[i] == 46 || 48 <= s[i] <= 57,
    ensures
        forall|i: int| 0 <= i < s.len() ==> s[i] < 128,
{
}

} // verus!
