//! Decimal digit strings: rendering integers to ASCII and parsing them back.
//!
//! Everything works on ASCII byte sequences; [`ascii_to_string`] turns a
//! finished byte buffer into a `String` at the very end.
use vstd::prelude::*;

verus! {

pub open spec fn pow10(e: nat) -> nat
    decreases e,
{
    if e == 0 {
        1
    } else {
        10 * pow10((e - 1) as nat)
    }
}

pub open spec fn is_dec_digit(b: u8) -> bool {
    48 <= b <= 57
}

/// The numeric value of a digit byte; zero for a byte that is no digit.
pub open spec fn digit_of(b: u8) -> nat {
    if is_dec_digit(b) {
        (b - 48) as nat
    } else {
        0
    }
}

pub open spec fn all_dec_digits(s: Seq<u8>) -> bool {
    forall|i: int| 0 <= i < s.len() ==> is_dec_digit(#[trigger] s[i])
}

/// Numeric value of a string of decimal digits, most significant first.
pub open spec fn digits_val(s: Seq<u8>) -> nat
    decreases s.len(),
{
    if s.len() == 0 {
        0
    } else {
        digits_val(s.drop_last()) * 10 + digit_of(s.last())
    }
}

/// The canonical decimal digit string of `n`: no leading zeros, except that
/// zero itself is the single digit `0`.
pub open spec fn dec_digits(n: nat) -> Seq<u8>
    decreases n,
{
    if n < 10 {
        seq![(n + 48) as u8]
    } else {
        dec_digits(n / 10).push((n % 10 + 48) as u8)
    }
}

/// `s` left-padded with `0` digits to a width of `k`.
pub open spec fn zero_pad(s: Seq<u8>, k: nat) -> Seq<u8> {
    if s.len() >= k {
        s
    } else {
        seq_repeat_zero((k - s.len()) as nat) + s
    }
}

pub open spec fn seq_repeat_zero(k: nat) -> Seq<u8> {
    Seq::new(k, |i: int| 48u8)
}

pub proof fn lemma_dec_digits_are_digits(n: nat)
    ensures
        all_dec_digits(dec_digits(n)),
        dec_digits(n).len() >= 1,
    decreases n,
{
    if n >= 10 {
        lemma_dec_digits_are_digits(n / 10);
    }
}

/// Append the decimal digits of `n` to `out`.
pub fn push_dec_digits(n: u64, out: &mut Vec<u8>)
    ensures
        final(out)@ == old(out)@ + dec_digits(n as nat),
    decreases n,
{
    if n < 10 {
        out.push((n as u8) + 48);
        proof {
            assert(out@ =~= old(out)@ + dec_digits(n as nat));
        }
    } else {
        push_dec_digits(n / 10, out);
        out.push(((n % 10) as u8) + 48);
        proof {
            assert(out@ =~= old(out)@ + dec_digits(n as nat));
        }
    }
}

/// Append `k` ASCII zero digits to `out`.
pub fn push_zero_digits(k: u32, out: &mut Vec<u8>)
    ensures
        final(out)@ == old(out)@ + seq_repeat_zero(k as nat),
{
    let mut i: u32 = 0;
    while i < k
        invariant
            i <= k,
            out@ == old(out)@ + seq_repeat_zero(i as nat),
        decreases k - i,
    {
        out.push(48);
        proof {
            assert(out@ =~= old(out)@ + seq_repeat_zero((i + 1) as nat));
        }
        i = i + 1;
    }
    proof {
        assert(out@ =~= old(out)@ + seq_repeat_zero(k as nat));
    }
}

/// Turn a buffer of ASCII bytes into a `String` of the same characters.
///
/// Relies on `String::from_utf8`: bytes below 128 are valid UTF-8 and decode
/// one byte to one character with the same code.
#[verifier::external_body]
pub fn ascii_to_string(bytes: Vec<u8>) -> (r: String)
    requires
        forall|i: int| 0 <= i < bytes@.len() ==> bytes@[i] < 128,
    ensures
        r@ == bytes@.map_values(|b: u8| b as char),
{
    match String::from_utf8(bytes) {
        Ok(s) => s,
        Err(_) => String::new(),
    }
}

/// The characters that an ASCII byte sequence denotes.
pub open spec fn bytes_as_chars(s: Seq<u8>) -> Seq<char> {
    s.map_values(|b: u8| b as char)
}

/// Canonical decimal rendering of an unsigned integer.
pub fn u64_to_string(n: u64) -> (r: String)
    ensures
        r@ == bytes_as_chars(dec_digits(n as nat)),
{
    let mut buf: Vec<u8> = Vec::new();
    push_dec_digits(n, &mut buf);
    proof {
        lemma_dec_digits_are_digits(n as nat);
    }
    ascii_to_string(buf)
}

/// The digit string of a signed integer: a leading minus sign when negative.
pub open spec fn int_digits(v: int) -> Seq<u8> {
    if v < 0 {
        seq![45u8] + dec_digits((-v) as nat)
    } else {
        dec_digits(v as nat)
    }
}

/// Magnitude of an `i64` as a `u64`; total, also at `i64::MIN`.
pub fn i64_magnitude(v: i64) -> (r: u64)
    ensures
        v >= 0 ==> r == v,
        v < 0 ==> r == -(v as int),
{
    if v >= 0 {
        v as u64
    } else if v == i64::MIN {
        0x8000_0000_0000_0000u64
    } else {
        (-v) as u64
    }
}

/// Canonical decimal rendering of a signed integer.
pub fn i64_to_string(v: i64) -> (r: String)
    ensures
        r@ == bytes_as_chars(int_digits(v as int)),
{
    let mut buf: Vec<u8> = Vec::new();
    if v < 0 {
        buf.push(45);
    }
    let mag: u64 = i64_magnitude(v);
    push_dec_digits(mag, &mut buf);
    proof {
        lemma_dec_digits_are_digits(mag as nat);
        assert(buf@ =~= int_digits(v as int));
    }
    ascii_to_string(buf)
}

/// Shape of an optionally signed digit string: `sign? digit+` where `sign`
/// is `+` or `-`.
pub open spec fn has_int_shape(s: Seq<u8>) -> bool {
    if s.len() == 0 {
        false
    } else if s[0] == 43 || s[0] == 45 {
        s.len() > 1 && all_dec_digits(s.skip(1))
    } else {
        all_dec_digits(s)
    }
}

/// The mathematical value denoted by an optionally signed digit string.
pub open spec fn int_shape_val(s: Seq<u8>) -> int
    recommends
        has_int_shape(s),
{
    if s.len() > 0 && s[0] == 45 {
        -(digits_val(s.skip(1)) as int)
    } else if s.len() > 0 && s[0] == 43 {
        digits_val(s.skip(1)) as int
    } else {
        digits_val(s) as int
    }
}

pub proof fn lemma_digits_val_take_step(s: Seq<u8>, i: int)
    requires
        0 <= i < s.len(),
    ensures
        digits_val(s.take(i + 1)) == digits_val(s.take(i)) * 10 + digit_of(s[i]),
{
    assert(s.take(i + 1).drop_last() =~= s.take(i));
    assert(s.take(i + 1).last() == s[i]);
}

/// A digit prefix never denotes more than the whole run.
pub proof fn lemma_digits_val_prefix_monotone(s: Seq<u8>, i: int)
    requires
        0 <= i <= s.len(),
    ensures
        digits_val(s) >= digits_val(s.take(i)),
    decreases s.len() - i,
{
    if i < s.len() {
        lemma_digits_val_take_step(s, i);
        lemma_digits_val_prefix_monotone(s, i + 1);
        assert(digits_val(s.take(i + 1)) >= digits_val(s.take(i))) by (nonlinear_arith)
            requires
                digits_val(s.take(i + 1)) == digits_val(s.take(i)) * 10 + digit_of(s[i]),
                digit_of(s[i]) >= 0,
                digits_val(s.take(i)) >= 0,
        {}
    } else {
        assert(s.take(i) =~= s);
    }
}

/// Parse the unsigned decimal digit run `s[from..]` into a `u64`.
///
/// Returns `Some` exactly when the run is non-empty, all digits, and denotes
/// a value of at most `limit`.
pub fn parse_digits_limited(s: &[u8], from: usize, limit: u64) -> (r: Option<u64>)
    requires
        from <= s@.len(),
    ensures
        match r {
            Some(v) => {
                &&& all_dec_digits(s@.skip(from as int))
                &&& s@.len() > from
                &&& v == digits_val(s@.skip(from as int))
                &&& v <= limit
            },
            None => !(all_dec_digits(s@.skip(from as int)) && s@.len() > from && digits_val(
                s@.skip(from as int),
            ) <= limit),
        },
{
    let ghost run = s@.skip(from as int);
    if from >= s.len() {
        return None;
    }
    let mut acc: u64 = 0;
    let mut i: usize = from;
    while i < s.len()
        invariant
            from <= i <= s@.len(),
            run == s@.skip(from as int),
            all_dec_digits(run.take(i - from)),
            acc == digits_val(run.take(i - from)),
            acc <= limit,
        decreases s@.len() - i,
    {
        let b = s[i];
        proof {
            assert(run[i - from] == s@[i as int]);
        }
        if b < 48 || b > 57 {
            proof {
                assert(!is_dec_digit(run[i - from]));
            }
            return None;
        }
        let d: u64 = (b - 48) as u64;
        proof {
            lemma_digits_val_take_step(run, i - from);
        }
        if acc > limit / 10 || (acc == limit / 10 && d > limit % 10) {
            // the next digit would push the value past the limit; if the
            // rest of the run is digits too, the whole run is over it
            proof {
                assert(acc * 10 + d > limit) by (nonlinear_arith)
                    requires
                        acc > limit / 10 || (acc == limit / 10 && d > limit % 10),
                        acc >= 0,
                        0 <= d <= 9,
                        limit >= 0,
                        limit / 10 == (limit - limit % 10) / 10,
                        limit % 10 == limit - (limit / 10) * 10,
                        0 <= limit % 10 <= 9,
                {}
                lemma_digits_val_prefix_monotone(run, i - from + 1);
            }
            return None;
        }
        proof {
            assert(acc * 10 + d <= limit) by (nonlinear_arith)
                requires
                    !(acc > limit / 10 || (acc == limit / 10 && d > limit % 10)),
                    acc >= 0,
                    0 <= d <= 9,
                    limit >= 0,
                    limit % 10 == limit - (limit / 10) * 10,
                    0 <= limit % 10 <= 9,
            {}
        }
        acc = acc * 10 + d;
        i = i + 1;
        proof {
            assert(run.take(i - from) =~= run.take(i - 1 - from).push(b));
        }
    }
    proof {
        assert(run.take(i - from) =~= run);
    }
    Some(acc)
}

} // verus!
