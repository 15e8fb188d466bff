//! The library's laws, stated and proved once over the specs the public
//! contracts use: the delta and tail operators invert their discovery, and
//! the canonical integer encodings read back to the value written.
use vstd::prelude::*;
use vstd::utf8::{decode_utf8, encode_utf8, is_ascii_chars, valid_utf8};

use crate::bytesutil::{
    common_prefix_len, common_suffix_len, lemma_prefix_props, lemma_suffix_props, spec_find_delta,
    spec_find_tail,
};
use crate::decimal::{
    check_exponent_range, is_first_dot, no_dot, spec_decimal_bytes, spec_magnitude, spec_normalize,
    spec_normalized, spec_parse_decimal, spec_parse_i64, trailing_tens, with_sign,
};
use crate::numstr::{
    all_dec_digits, dec_digits, digit_of, digits_val, has_int_shape, int_shape_val, is_dec_digit,
    lemma_dec_digits_are_digits, pow10, seq_repeat_zero, zero_pad,
};
use crate::reader::find_stop;
use crate::value::{seq_delta, seq_tail, spec_apply_delta, spec_apply_tail, Value, ValueV};
use crate::wirespec::{
    floor_div128, ienc_body, int_enc, int_len7, is_stop_run, mod128, pmap_enc, pmap_trail_bytes,
    pow128, sval64, ubody_k, uenc_body, uint_enc, uval64, uval64_from,
};

verus! {

/// Applying the delta found between a previous and a new sequence to the
/// previous sequence yields the new one.
pub proof fn lemma_seq_delta_round_trip<T>(prev: Seq<T>, next: Seq<T>)
    ensures
        ({
            let (d, sub) = spec_find_delta(prev, next);
            seq_delta(prev, d, sub) == Some(next)
        }),
{
    let cf = common_prefix_len(prev, next) as int;
    let cb = common_suffix_len(prev, next) as int;
    lemma_prefix_props(prev, next);
    lemma_suffix_props(prev, next);
    let (d, sub) = spec_find_delta(prev, next);
    if cf == 0 && cb == 0 {
        assert(sub == prev.len());
        assert(seq_delta(prev, d, sub) == Some(prev.take(0) + next));
        assert(prev.take(0) + next =~= next);
    } else if cb > cf {
        let i = -sub - 1;
        assert(i == prev.len() - cb);
        assert(seq_delta(prev, d, sub) == Some(d + prev.skip(i)));
        assert(d + prev.skip(i) =~= next) by {
            assert forall|j: int| 0 <= j < next.len() implies (d + prev.skip(i))[j] == next[j] by {
                if j < next.len() - cb {
                    assert((d + prev.skip(i))[j] == d[j]);
                    assert(d[j] == next[j]);
                } else {
                    assert((d + prev.skip(i))[j] == prev[i + (j - (next.len() - cb))]);
                    let back = next.len() - j;
                    assert(prev[prev.len() - back] == next[next.len() - back]);
                }
            }
            assert((d + prev.skip(i)).len() == next.len());
        }
    } else {
        assert(sub == prev.len() - cf);
        assert(seq_delta(prev, d, sub) == Some(prev.take(cf) + d));
        assert(prev.take(cf) + d =~= next) by {
            assert forall|j: int| 0 <= j < next.len() implies (prev.take(cf) + d)[j] == next[j] by {
                if j < cf {
                    assert(prev[j] == next[j]);
                } else {
                    assert((prev.take(cf) + d)[j] == d[j - cf]);
                }
            }
            assert((prev.take(cf) + d).len() == next.len());
        }
    }
}

/// Applying the tail found between a previous and a new sequence to the
/// previous sequence yields the new one, whenever the tail is defined.
pub proof fn lemma_seq_tail_round_trip<T>(prev: Seq<T>, next: Seq<T>)
    requires
        spec_find_tail(prev, next) is Some,
    ensures
        seq_tail(prev, spec_find_tail(prev, next)->0) == next,
{
    let t = spec_find_tail(prev, next)->0;
    if next.len() == prev.len() {
        let cf = common_prefix_len(prev, next) as int;
        lemma_prefix_props(prev, next);
        assert(t == next.skip(cf));
        assert(seq_tail(prev, t) =~= next) by {
            let n = if t.len() < prev.len() {
                t.len() as int
            } else {
                prev.len() as int
            };
            assert(n == next.len() - cf);
            assert forall|j: int|
                0 <= j < next.len() implies (prev.take(prev.len() - n) + t)[j] == next[j] by {
                if j < cf {
                    assert(prev[j] == next[j]);
                }
            }
        }
    } else {
        assert(t == next);
        assert(seq_tail(prev, t) =~= next);
    }
}

/// The delta law on whole values: for every pair of values of one kind on
/// which the encoder can find a delta, applying that delta to the previous
/// value restores the new one.
pub proof fn lemma_value_delta_round_trip(next: ValueV, prev: ValueV)
    requires
        Value::spec_delta_findable(next, prev),
    ensures
        ({
            let (d, sub) = Value::spec_find_delta_value(next, prev);
            spec_apply_delta(prev, d, sub) == Some(next)
        }),
{
    broadcast use vstd::utf8::encode_utf8_decode_utf8;
    broadcast use vstd::utf8::encode_utf8_valid_utf8;

    match (next, prev) {
        (ValueV::UInt32(x), ValueV::UInt32(y)) => {
            assert((x - y) as i64 == x - y);
            assert(0 <= y + (x - y) <= 0xffff_ffff);
        },
        (ValueV::Int32(x), ValueV::Int32(y)) => {
            assert((x - y) as i64 == x - y);
        },
        (ValueV::UInt64(x), ValueV::UInt64(y)) => {
            assert((x - y) as i64 == x - y);
            assert(0 <= y + (x - y) <= 0xffff_ffff_ffff_ffff);
        },
        (ValueV::Int64(x), ValueV::Int64(y)) => {
            assert((x - y) as i64 == x - y);
        },
        (ValueV::Ascii(a), ValueV::Ascii(b)) => {
            lemma_seq_delta_round_trip(b, a);
            let (d, sub) = spec_find_delta(b, a);
            lemma_delta_pieces_ascii(b, a);
            assert(seq_delta(b, d, sub) == Some(a));
            assert(spec_apply_delta(prev, ValueV::Ascii(d), sub) == Some(ValueV::Ascii(a)));
        },
        (ValueV::Unicode(a), ValueV::Unicode(b)) => {
            lemma_seq_delta_round_trip(encode_utf8(b), encode_utf8(a));
            let (d, sub) = spec_find_delta(encode_utf8(b), encode_utf8(a));
            assert(seq_delta(encode_utf8(b), d, sub) == Some(encode_utf8(a)));
            assert(valid_utf8(encode_utf8(a)));
            assert(decode_utf8(encode_utf8(a)) == a);
            assert(spec_apply_delta(prev, ValueV::Bytes(d), sub) == Some(ValueV::Unicode(a)));
        },
        (ValueV::Bytes(a), ValueV::Bytes(b)) => {
            lemma_seq_delta_round_trip(b, a);
        },
        _ => {},
    }
}

/// The pieces of an ASCII delta are ASCII.
proof fn lemma_delta_pieces_ascii(prev: Seq<char>, next: Seq<char>)
    requires
        is_ascii_chars(prev),
        is_ascii_chars(next),
    ensures
        is_ascii_chars(spec_find_delta(prev, next).0),
{
    let (d, sub) = spec_find_delta(prev, next);
    assert forall|i: int| 0 <= i < d.len() implies '\0' <= #[trigger] d[i] <= '\u{7f}' by {
        let cf = common_prefix_len(prev, next) as int;
        let cb = common_suffix_len(prev, next) as int;
        lemma_prefix_props(prev, next);
        lemma_suffix_props(prev, next);
        if cf == 0 && cb == 0 {
            assert(d[i] == next[i]);
        } else if cb > cf {
            assert(d[i] == next[i]);
        } else {
            assert(d[i] == next[cf + i]);
        }
    }
}

/// The tail law on whole values.
pub proof fn lemma_value_tail_round_trip(next: ValueV, prev: ValueV)
    requires
        Value::spec_tail_findable(next, prev),
        Value::spec_find_tail_value(next, prev) is Some,
    ensures
        spec_apply_tail(prev, Value::spec_find_tail_value(next, prev)->0) == Some(next),
{
    broadcast use vstd::utf8::encode_utf8_decode_utf8;
    broadcast use vstd::utf8::encode_utf8_valid_utf8;

    match (next, prev) {
        (ValueV::Ascii(a), ValueV::Ascii(b)) => {
            lemma_seq_tail_round_trip(b, a);
            let t = spec_find_tail(b, a)->0;
            assert(is_ascii_chars(t)) by {
                let cf = common_prefix_len(b, a) as int;
                lemma_prefix_props(b, a);
                assert forall|i: int| 0 <= i < t.len() implies '\0' <= #[trigger] t[i] <= '\u{7f}' by {
                    if a.len() == b.len() {
                        assert(t[i] == a[cf + i]);
                    } else {
                        assert(t[i] == a[i]);
                    }
                }
            }
        },
        (ValueV::Unicode(a), ValueV::Unicode(b)) => {
            lemma_seq_tail_round_trip(encode_utf8(b), encode_utf8(a));
            let t = spec_find_tail(encode_utf8(b), encode_utf8(a))->0;
            assert(seq_tail(encode_utf8(b), t) == encode_utf8(a));
            assert(valid_utf8(encode_utf8(a)));
            assert(decode_utf8(encode_utf8(a)) == a);
        },
        (ValueV::Bytes(a), ValueV::Bytes(b)) => {
            lemma_seq_tail_round_trip(b, a);
        },
        _ => {},
    }
}

/// One accumulation step of the register.
proof fn lemma_uval64_push(s: Seq<u8>, b: u8)
    ensures
        uval64(s.push(b)) == (uval64(s) * 128 + (b % 128)) % 0x1_0000_0000_0000_0000,
{
    assert(s.push(b).drop_last() =~= s);
    assert(s.push(b).last() == b);
}

/// The high-order groups of the canonical unsigned encoding denote the
/// value exactly, and stay below the stop bit.
proof fn lemma_uenc_body_val(n: nat)
    requires
        n < 0x1_0000_0000_0000_0000,
    ensures
        uval64(uenc_body(n)) == n,
        forall|i: int| 0 <= i < uenc_body(n).len() ==> uenc_body(n)[i] < 128,
    decreases n,
{
    if n == 0 {
    } else {
        lemma_uenc_body_val(n / 128);
        vstd::arithmetic::div_mod::lemma_fundamental_div_mod(n as int, 128);
        let body = uenc_body(n / 128);
        assert(uenc_body(n) == body + seq![(n % 128) as u8]);
        assert(body + seq![(n % 128) as u8] =~= body.push((n % 128) as u8));
        lemma_uval64_push(body, (n % 128) as u8);
        vstd::arithmetic::div_mod::lemma_small_mod(n, 0x1_0000_0000_0000_0000nat);
        assert forall|i: int| 0 <= i < uenc_body(n).len() implies uenc_body(n)[i] < 128 by {
            if i < body.len() {
                assert(uenc_body(n)[i] == body[i]);
            }
        }
    }
}

/// Integer framing, unsigned: the canonical encoding of `x` is one stop-bit
/// run, and the register reads it back to exactly `x` — whatever follows it
/// in the buffer, the reader stops at its stop byte.
pub proof fn lemma_uint_round_trip(x: u64, rest: Seq<u8>)
    ensures
        is_stop_run(uint_enc(x as nat)),
        uval64(uint_enc(x as nat)) == x,
        find_stop(uint_enc(x as nat) + rest, 0) == Some(uint_enc(x as nat).len() - 1),
        (uint_enc(x as nat) + rest).subrange(0, uint_enc(x as nat).len() as int) == uint_enc(
            x as nat,
        ),
{
    let n = x as nat;
    lemma_uenc_body_val(n / 128);
    vstd::arithmetic::div_mod::lemma_fundamental_div_mod(n as int, 128);
    let body = uenc_body(n / 128);
    let e = uint_enc(n);
    assert(e == body + seq![(n % 128 + 128) as u8]);
    assert(body + seq![(n % 128 + 128) as u8] =~= body.push((n % 128 + 128) as u8));
    lemma_uval64_push(body, (n % 128 + 128) as u8);
    vstd::arithmetic::div_mod::lemma_small_mod(n, 0x1_0000_0000_0000_0000nat);
    assert(uval64(e) == n);
    assert(is_stop_run(e)) by {
        assert(e.last() == (n % 128 + 128) as u8);
        assert forall|i: int| 0 <= i < e.len() - 1 implies e[i] < 128 by {
            assert(e[i] == body[i]);
        }
    }
    lemma_find_stop_in_run(e, rest, 0);
    assert((e + rest).subrange(0, e.len() as int) =~= e);
}

/// In a buffer that starts with a stop-bit run, the first stop byte is the
/// run's last byte.
proof fn lemma_find_stop_in_run(e: Seq<u8>, rest: Seq<u8>, from: int)
    requires
        is_stop_run(e),
        0 <= from <= e.len() - 1,
    ensures
        find_stop(e + rest, from) == Some(e.len() - 1),
    decreases e.len() - from,
{
    let s = e + rest;
    if from == e.len() - 1 {
        assert(s[from] == e.last());
    } else {
        assert(s[from] == e[from]);
        assert(e[from] < 128);
        lemma_find_stop_in_run(e, rest, from + 1);
    }
}

/// Fixed-width groups denote the truncated value.
proof fn lemma_ubody_k_val(n: nat, k: nat)
    requires
        n < pow128(k),
        pow128(k) <= 0x1_0000_0000_0000_0000,
    ensures
        uval64(ubody_k(n, k)) == n,
        forall|i: int| 0 <= i < ubody_k(n, k).len() ==> ubody_k(n, k)[i] < 128,
        ubody_k(n, k).len() == k,
    decreases k,
{
    if k == 0 {
        assert(pow128(0) == 1);
    } else {
        vstd::arithmetic::div_mod::lemma_fundamental_div_mod(n as int, 128);
        assert(pow128(k) == 128 * pow128((k - 1) as nat));
        assert(n / 128 < pow128((k - 1) as nat)) by (nonlinear_arith)
            requires
                n == 128 * (n / 128) + n % 128,
                0 <= n % 128 < 128,
                n < 128 * pow128((k - 1) as nat),
        {}
        assert(pow128((k - 1) as nat) <= pow128(k)) by (nonlinear_arith)
            requires
                pow128(k) == 128 * pow128((k - 1) as nat),
                pow128((k - 1) as nat) >= 0,
        {}
        lemma_ubody_k_val(n / 128, (k - 1) as nat);
        let body = ubody_k(n / 128, (k - 1) as nat);
        assert(ubody_k(n, k) == body + seq![(n % 128) as u8]);
        assert(body + seq![(n % 128) as u8] =~= body.push((n % 128) as u8));
        lemma_uval64_push(body, (n % 128) as u8);
        vstd::arithmetic::div_mod::lemma_small_mod(n, 0x1_0000_0000_0000_0000nat);
        assert forall|i: int| 0 <= i < ubody_k(n, k).len() implies ubody_k(n, k)[i] < 128 by {
            if i < body.len() {
                assert(ubody_k(n, k)[i] == body[i]);
            }
        }
    }
}

/// Presence-map framing: writing a register of `size` bits and reading the
/// run back yields the register's bits with whole trailing zero bytes
/// trimmed — the bitmap shifted down by the trimmed groups — and never
/// grows past the written size.
pub proof fn lemma_pmap_round_trip(bitmap: u64, size: u32, rest: Seq<u8>)
    requires
        size % 7 == 0,
        1 <= size <= 63,
        bitmap < pow128(size as nat / 7),
    ensures
        is_stop_run(pmap_enc(bitmap as nat, size as nat)),
        ({
            let t = pmap_trail_bytes(bitmap as nat);
            uval64(pmap_enc(bitmap as nat, size as nat)) == bitmap as nat / pow128(t)
        }),
        pmap_enc(bitmap as nat, size as nat).len() <= size as nat / 7,
{
    let b = bitmap as nat;
    let s = size as nat;
    let t = pmap_trail_bytes(b);
    let total = s / 7;
    lemma_pmap_trail_div(b);
    if total <= t {
        lemma_pow128_mono_laws(total, t);
        // everything trims away: one empty byte, denoting zero
        assert(pmap_enc(b, s) == seq![128u8]);
        assert(uval64(seq![128u8]) == 0) by {
            assert(seq![128u8] =~= Seq::<u8>::empty().push(128u8));
            lemma_uval64_push(Seq::<u8>::empty(), 128u8);
        }
        assert(b / pow128(t) == 0) by (nonlinear_arith)
            requires
                b < pow128(total),
                pow128(total) <= pow128(t),
                pow128(t) >= 1,
        {}
    } else {
        lemma_pow128_mono_laws(t, total);
        let len = (total - t) as nat;
        let payload = b / pow128(t);
        assert(payload < pow128(len)) by (nonlinear_arith)
            requires
                b < pow128(total),
                pow128(total) == pow128(t) * pow128(len),
                pow128(t) >= 1,
                payload == b / pow128(t),
                b >= 0,
        {}
        lemma_pow128_fits(len);
        vstd::arithmetic::div_mod::lemma_fundamental_div_mod(payload as int, 128);
        assert(payload / 128 < pow128((len - 1) as nat)) by (nonlinear_arith)
            requires
                payload == 128 * (payload / 128) + payload % 128,
                0 <= payload % 128 < 128,
                payload < pow128(len),
                pow128(len) == 128 * pow128((len - 1) as nat),
        {}
        assert(pow128((len - 1) as nat) <= pow128(len)) by (nonlinear_arith)
            requires
                pow128(len) == 128 * pow128((len - 1) as nat),
                pow128((len - 1) as nat) >= 0,
        {}
        lemma_ubody_k_val(payload / 128, (len - 1) as nat);
        let body = ubody_k(payload / 128, (len - 1) as nat);
        let e = pmap_enc(b, s);
        assert(e == body + seq![(payload % 128 + 128) as u8]);
        assert(body + seq![(payload % 128 + 128) as u8] =~= body.push((payload % 128 + 128) as u8));
        lemma_uval64_push(body, (payload % 128 + 128) as u8);
        vstd::arithmetic::div_mod::lemma_small_mod(payload, 0x1_0000_0000_0000_0000nat);
        assert(uval64(e) == payload);
        assert(is_stop_run(e)) by {
            assert(e.last() == (payload % 128 + 128) as u8);
            assert forall|i: int| 0 <= i < e.len() - 1 implies e[i] < 128 by {
                assert(e[i] == body[i]);
            }
        }
    }
}

/// The trimmed groups divide the register exactly.
proof fn lemma_pmap_trail_div(b: nat)
    ensures
        b % pow128(pmap_trail_bytes(b)) == 0 || b == 0,
    decreases b,
{
    if b != 0 && b % 128 == 0 {
        lemma_pmap_trail_div(b / 128);
        let t0 = pmap_trail_bytes(b / 128);
        vstd::arithmetic::div_mod::lemma_fundamental_div_mod(b as int, 128);
        if b / 128 == 0 {
        } else {
            assert((b / 128) % pow128(t0) == 0);
            lemma_pow128_pos_law(t0);
            vstd::arithmetic::div_mod::lemma_fundamental_div_mod(
                (b / 128) as int,
                pow128(t0) as int,
            );
            assert(b % pow128(t0 + 1) == 0) by (nonlinear_arith)
                requires
                    b == 128 * (b / 128),
                    (b / 128) % pow128(t0) == 0,
                    b / 128 == pow128(t0) * ((b / 128) / pow128(t0)) + (b / 128) % pow128(t0),
                    pow128(t0 + 1) == 128 * pow128(t0),
                    pow128(t0) >= 1,
            {
                vstd::arithmetic::div_mod::lemma_fundamental_div_mod_converse(
                    b as int,
                    (128 * pow128(t0)) as int,
                    ((b / 128) / pow128(t0)) as int,
                    0,
                );
            }
        }
    }
}

/// Power-of-128 splitting and positivity.
proof fn lemma_pow128_mono_laws(a: nat, c: nat)
    requires
        a <= c,
    ensures
        pow128(a) >= 1,
        pow128(c) >= 1,
        pow128(c) == pow128(a) * pow128((c - a) as nat),
        pow128(a) <= pow128(c),
    decreases a,
{
    if a == 0 {
        lemma_pow128_pos_law(c);
        assert(pow128(0) == 1);
    } else {
        lemma_pow128_mono_laws((a - 1) as nat, (c - 1) as nat);
        assert(pow128(a) == 128 * pow128((a - 1) as nat));
        assert(pow128(c) == 128 * pow128((c - 1) as nat));
        assert(pow128(c) == pow128(a) * pow128((c - a) as nat)) by (nonlinear_arith)
            requires
                pow128(c) == 128 * pow128((c - 1) as nat),
                pow128(a) == 128 * pow128((a - 1) as nat),
                pow128((c - 1) as nat) == pow128((a - 1) as nat) * pow128((c - a) as nat),
        {}
        assert(pow128(a) <= pow128(c)) by (nonlinear_arith)
            requires
                pow128(c) == pow128(a) * pow128((c - a) as nat),
                pow128((c - a) as nat) >= 1,
                pow128(a) >= 1,
        {}
    }
}

proof fn lemma_pow128_pos_law(k: nat)
    ensures
        pow128(k) >= 1,
    decreases k,
{
    if k > 0 {
        lemma_pow128_pos_law((k - 1) as nat);
    }
}

/// Up to nine groups fit the 64-bit register.
proof fn lemma_pow128_fits(k: nat)
    requires
        k <= 9,
    ensures
        pow128(k) <= 0x1_0000_0000_0000_0000,
    decreases k,
{
    reveal_with_fuel(pow128, 11);
}

proof fn lemma_uval64_from_push(init: nat, s: Seq<u8>, b: u8)
    ensures
        uval64_from(init, s.push(b)) == (uval64_from(init, s) * 128 + (b % 128))
            % 0x1_0000_0000_0000_0000,
{
    assert(s.push(b).drop_last() =~= s);
    assert(s.push(b).last() == b);
}

/// The floor shift and Euclidean remainder are division by 128.
proof fn lemma_floor_div128(v: int)
    ensures
        floor_div128(v) == v / 128,
        mod128(v) == v % 128,
        0 <= mod128(v) < 128,
{
    if v >= 0 {
        vstd::arithmetic::div_mod::lemma_fundamental_div_mod(v, 128);
    } else {
        let q = (-v - 1) / 128;
        let r = (-v - 1) % 128;
        vstd::arithmetic::div_mod::lemma_fundamental_div_mod(-v - 1, 128);
        vstd::arithmetic::div_mod::lemma_fundamental_div_mod_converse(v, 128, -q - 1, 127 - r);
    }
}

/// Accumulating `k` two's-complement groups of `v` over a sign-extended
/// register holds the register's low bits at `v`'s, whatever stood above.
proof fn lemma_ienc_acc(init: nat, v: int, k: nat)
    requires
        init < 0x1_0000_0000_0000_0000,
    ensures
        uval64_from(init, ienc_body(v, k)) == (init * pow128(k) + (v % (pow128(k) as int)))
            % 0x1_0000_0000_0000_0000,
        forall|i: int| 0 <= i < ienc_body(v, k).len() ==> ienc_body(v, k)[i] < 128,
        ienc_body(v, k).len() == k,
    decreases k,
{
    let w: int = 0x1_0000_0000_0000_0000;
    if k == 0 {
        assert(pow128(0) == 1);
        assert(v % 1int == 0) by (nonlinear_arith)
            requires
                true,
        {
            vstd::arithmetic::div_mod::lemma_fundamental_div_mod_converse(v, 1, v, 0);
        }
        vstd::arithmetic::div_mod::lemma_small_mod(init, w as nat);
    } else {
        let fd = floor_div128(v);
        let m = mod128(v);
        lemma_floor_div128(v);
        lemma_ienc_acc(init, fd, (k - 1) as nat);
        let p1 = pow128((k - 1) as nat) as int;
        let p = pow128(k) as int;
        lemma_pow128_pos_law((k - 1) as nat);
        assert(p == 128 * p1);
        let body = ienc_body(fd, (k - 1) as nat);
        assert(ienc_body(v, k) == body + seq![m as u8]);
        assert(body + seq![m as u8] =~= body.push(m as u8));
        lemma_uval64_from_push(init, body, m as u8);
        let a = uval64_from(init, body) as int;
        let x = init * p1 + fd % p1;
        assert(a == x % w);
        // the radix identity: v's k low groups split into the shifted k-1
        // groups and the last one
        vstd::arithmetic::div_mod::lemma_fundamental_div_mod(fd, p1);
        assert(v == (fd / p1) * p + ((fd % p1) * 128 + m)) by (nonlinear_arith)
            requires
                v == 128 * fd + m,
                fd == p1 * (fd / p1) + fd % p1,
                p == 128 * p1,
        {}
        assert(0 <= (fd % p1) * 128 + m < p) by (nonlinear_arith)
            requires
                0 <= fd % p1 < p1,
                0 <= m < 128,
                p == 128 * p1,
                p1 >= 1,
        {}
        vstd::arithmetic::div_mod::lemma_fundamental_div_mod_converse(
            v,
            p,
            fd / p1,
            (fd % p1) * 128 + m,
        );
        assert(v % p == (fd % p1) * 128 + m);
        // fold the outer wrap through the shift
        vstd::arithmetic::div_mod::lemma_mul_mod_noop_left(x, 128, w);
        vstd::arithmetic::div_mod::lemma_add_mod_noop(x * 128, m, w);
        vstd::arithmetic::div_mod::lemma_small_mod(m as nat, w as nat);
        assert((a * 128 + m) % w == (x * 128 + m) % w) by (nonlinear_arith)
            requires
                a == x % w,
                (x % w) * 128 % w == x * 128 % w,
                ((x * 128) % w + m % w) % w == (x * 128 + m) % w,
                0 <= m < 128,
                m % w == m,
                w > 0,
                ((x % w) * 128 % w + m % w) % w == ((x % w) * 128 + m % w) % w,
        {}
        assert(x * 128 + m == init * p + v % p) by (nonlinear_arith)
            requires
                x == init * p1 + fd % p1,
                v % p == (fd % p1) * 128 + m,
                p == 128 * p1,
        {}
        assert((m as u8) % 128 == m);
        assert(uval64_from(init, ienc_body(v, k)) == (a * 128 + m) % w);
        assert(uval64_from(init, ienc_body(v, k)) == (init * p + v % p) % w);
        assert forall|i: int| 0 <= i < ienc_body(v, k).len() implies ienc_body(v, k)[i] < 128 by {
            if i < body.len() {
                assert(ienc_body(v, k)[i] == body[i]);
            }
        }
    }
}

/// The group the canonical length bottoms out at.
pub open spec fn top_group(v: int, j: nat) -> int
    decreases j,
{
    if j == 0 {
        v
    } else {
        top_group(floor_div128(v), (j - 1) as nat)
    }
}

/// The canonical group count puts the whole value, sign included, into its
/// groups: the value sits inside the count's range and the leading group
/// carries the sign in bit 6.
proof fn lemma_int_len7_tight(v: int)
    ensures
        ({
            let k = int_len7(v);
            &&& -(pow128(k) as int) <= 2 * v < pow128(k) as int
            &&& (v >= 0 ==> 0 <= top_group(v, (k - 1) as nat) <= 63)
            &&& (v < 0 ==> -64 <= top_group(v, (k - 1) as nat) <= -1)
        }),
    decreases
            if v >= 0 {
                v
            } else {
                -v
            },
{
    let k = int_len7(v);
    if -64 <= v <= 63 {
        assert(pow128(1) == 128 * pow128(0));
        assert(pow128(0) == 1);
    } else {
        let fd = floor_div128(v);
        lemma_floor_div128(v);
        lemma_int_len7_tight(fd);
        let k1 = int_len7(fd);
        assert(k == k1 + 1);
        lemma_pow128_pos_law(k1);
        assert(pow128(k) == 128 * pow128(k1));
        assert(k1 >= 1) by {
            if k1 == 0 {
                assert(int_len7(fd) >= 1);
            }
        }
        let p1 = pow128(k1) as int;
        let h = 64 * (pow128((k1 - 1) as nat) as int);
        assert(p1 == 128 * pow128((k1 - 1) as nat));
        assert(p1 == 2 * h);
        assert(2 * fd != p1 - 1);
        assert(2 * fd <= p1 - 2);
        assert(-(pow128(k) as int) <= 2 * v < pow128(k) as int) by (nonlinear_arith)
            requires
                v == 128 * fd + v % 128,
                0 <= v % 128 < 128,
                -p1 <= 2 * fd,
                2 * fd <= p1 - 2,
                pow128(k) == 128 * p1,
                p1 >= 1,
        {}
        assert(top_group(v, (k - 1) as nat) == top_group(fd, (k1 - 1) as nat));
        if v >= 0 {
            assert(fd >= 0);
        } else {
            assert(fd <= -1) by (nonlinear_arith)
                requires
                    v == 128 * fd + v % 128,
                    0 <= v % 128 < 128,
                    v < 0,
            {}
        }
    }
}

/// The first byte of `k >= 1` groups is the leading group's byte.
proof fn lemma_ienc_first(v: int, k: nat)
    requires
        k >= 1,
    ensures
        ienc_body(v, k)[0] == mod128(top_group(v, (k - 1) as nat)) as u8,
    decreases k,
{
    if k == 1 {
        assert(ienc_body(v, 1) == ienc_body(floor_div128(v), 0) + seq![mod128(v) as u8]);
    } else {
        lemma_ienc_first(floor_div128(v), (k - 1) as nat);
        let body = ienc_body(floor_div128(v), (k - 1) as nat);
        assert(ienc_body(v, k) == body + seq![mod128(v) as u8]);
        assert(ienc_body(v, k)[0] == body[0]);
        assert(top_group(v, (k - 1) as nat) == top_group(
            floor_div128(v),
            (k - 2) as nat,
        ));
    }
}

/// Integer framing, signed: the canonical encoding of `v` is one stop-bit
/// run whose first byte carries the sign, and the register reads it back to
/// exactly `v` — whatever follows it in the buffer.
pub proof fn lemma_int_round_trip(v: i64, rest: Seq<u8>)
    ensures
        is_stop_run(int_enc(v as int)),
        sval64(int_enc(v as int)) == v,
        find_stop(int_enc(v as int) + rest, 0) == Some(int_enc(v as int).len() - 1),
        (int_enc(v as int) + rest).subrange(0, int_enc(v as int).len() as int) == int_enc(
            v as int,
        ),
{
    let w: int = 0x1_0000_0000_0000_0000;
    let vi = v as int;
    let k = int_len7(vi);
    let fd = floor_div128(vi);
    let m = mod128(vi);
    lemma_floor_div128(vi);
    lemma_int_len7_tight(vi);
    let e = int_enc(vi);
    let body = ienc_body(fd, (k - 1) as nat);
    assert(e == body + seq![(m + 128) as u8]);
    assert(body + seq![(m + 128) as u8] =~= body.push((m + 128) as u8));
    // which sign the first byte shows
    let top = top_group(vi, (k - 1) as nat);
    assert(e[0] / 64 % 2 == (if vi < 0 {
        1int
    } else {
        0int
    })) by {
        if k == 1 {
            assert(e[0] == (m + 128) as u8);
            assert(top == vi);
            if vi >= 0 {
                assert(m == vi % 128);
                vstd::arithmetic::div_mod::lemma_small_mod(vi as nat, 128nat);
            } else {
                assert(mod128(vi) == vi + 128);
            }
        } else {
            assert(e[0] == body[0]);
            lemma_ienc_first(fd, (k - 1) as nat);
            assert(body[0] == mod128(top) as u8);
            if vi >= 0 {
                assert(0 <= top <= 63);
                vstd::arithmetic::div_mod::lemma_small_mod(top as nat, 128nat);
                assert(mod128(top) == top);
            } else {
                assert(-64 <= top <= -1);
                assert(mod128(top) == top + 128);
            }
        }
    }
    // the accumulated register
    let init: nat = if vi < 0 {
        0xffff_ffff_ffff_ffffnat
    } else {
        0nat
    };
    lemma_ienc_acc(init, fd, (k - 1) as nat);
    lemma_uval64_from_push(init, body, (m + 128) as u8);
    let p1 = pow128((k - 1) as nat) as int;
    let p = pow128(k) as int;
    lemma_pow128_pos_law((k - 1) as nat);
    assert(p == 128 * p1);
    let x = init * p1 + fd % p1;
    vstd::arithmetic::div_mod::lemma_fundamental_div_mod(fd, p1);
    assert(vi == (fd / p1) * p + ((fd % p1) * 128 + m)) by (nonlinear_arith)
        requires
            vi == 128 * fd + m,
            fd == p1 * (fd / p1) + fd % p1,
            p == 128 * p1,
    {}
    assert(0 <= (fd % p1) * 128 + m < p) by (nonlinear_arith)
        requires
            0 <= fd % p1 < p1,
            0 <= m < 128,
            p == 128 * p1,
            p1 >= 1,
    {}
    vstd::arithmetic::div_mod::lemma_fundamental_div_mod_converse(
        vi,
        p,
        fd / p1,
        (fd % p1) * 128 + m,
    );
    assert(vi % p == (fd % p1) * 128 + m);
    vstd::arithmetic::div_mod::lemma_mul_mod_noop_left(x, 128, w);
    vstd::arithmetic::div_mod::lemma_add_mod_noop(x * 128, m, w);
    vstd::arithmetic::div_mod::lemma_small_mod(m as nat, w as nat);
    let acc = uval64_from(init, e) as int;
    assert(acc == ((x % w) * 128 + ((m + 128) % 128)) % w);
    assert((m + 128) % 128 == m) by {
        vstd::arithmetic::div_mod::lemma_fundamental_div_mod_converse(m + 128, 128, 1, m);
    }
    assert(acc == (init * p + vi % p) % w) by (nonlinear_arith)
        requires
            acc == ((x % w) * 128 + m) % w,
            (x % w) * 128 % w == x * 128 % w,
            ((x * 128) % w + m % w) % w == (x * 128 + m) % w,
            ((x % w) * 128 % w + m % w) % w == ((x % w) * 128 + m % w) % w,
            m % w == m,
            x == init * p1 + fd % p1,
            vi % p == (fd % p1) * 128 + m,
            p == 128 * p1,
            w > 0,
            0 <= m < 128,
    {}
    // resolve the wrap for each sign
    if vi >= 0 {
        assert(2 * vi < p);
        assert(vi < p);
        assert(vi % p == vi) by {
            vstd::arithmetic::div_mod::lemma_small_mod(vi as nat, p as nat);
        }
        assert(init == 0nat);
        assert(init * p + vi % p == vi) by (nonlinear_arith)
            requires
                init == 0nat,
                vi % p == vi,
        {}
        assert(acc == vi % w);
        vstd::arithmetic::div_mod::lemma_small_mod(vi as nat, w as nat);
        assert(acc == vi);
        assert(acc < 0x8000_0000_0000_0000);
    } else {
        assert(-p <= 2 * vi);
        assert(-p <= vi);
        assert(vi % p == vi + p) by {
            vstd::arithmetic::div_mod::lemma_fundamental_div_mod_converse(vi, p, -1, vi + p);
        }
        assert(acc == ((w - 1) * p + vi + p) % w);
        assert((w - 1) * p + vi + p == w * p + vi) by (nonlinear_arith)
            requires
                true,
        {}
        assert((w * p + vi) % w == vi % w) by {
            vstd::arithmetic::div_mod::lemma_mod_multiples_vanish(p, vi, w);
        }
        assert(vi % w == vi + w) by {
            vstd::arithmetic::div_mod::lemma_fundamental_div_mod_converse(vi, w, -1, vi + w);
        }
        assert(acc == vi + w);
        assert(acc >= 0x8000_0000_0000_0000);
    }
    // the run shape, and the reader's stop
    assert(is_stop_run(e)) by {
        assert(e.last() == (m + 128) as u8);
        lemma_ienc_acc(init, fd, (k - 1) as nat);
        assert forall|i: int| 0 <= i < e.len() - 1 implies e[i] < 128 by {
            assert(e[i] == body[i]);
        }
    }
    assert(sval64(e) == vi);
    lemma_find_stop_in_run(e, rest, 0);
    assert((e + rest).subrange(0, e.len() as int) =~= e);
}

/// The canonical digit string denotes its number.
proof fn lemma_digits_val_of_dec_digits(n: nat)
    ensures
        digits_val(dec_digits(n)) == n,
    decreases n,
{
    if n < 10 {
        assert(dec_digits(n).drop_last() =~= Seq::<u8>::empty());
        assert(digits_val(Seq::<u8>::empty()) == 0);
        assert(dec_digits(n).last() == (n + 48) as u8);
        assert(digit_of((n + 48) as u8) == n);
    } else {
        lemma_digits_val_of_dec_digits(n / 10);
        let body = dec_digits(n / 10);
        assert(dec_digits(n) == body.push((n % 10 + 48) as u8));
        assert(dec_digits(n).drop_last() =~= body);
        vstd::arithmetic::div_mod::lemma_fundamental_div_mod(n as int, 10);
    }
}

/// Digit strings concatenate by scaling.
proof fn lemma_digits_val_concat(a: Seq<u8>, b: Seq<u8>)
    ensures
        digits_val(a + b) == digits_val(a) * pow10(b.len()) + digits_val(b),
    decreases b.len(),
{
    if b.len() == 0 {
        assert(a + b =~= a);
        assert(pow10(0) == 1);
    } else {
        let b1 = b.drop_last();
        lemma_digits_val_concat(a, b1);
        assert(a + b =~= (a + b1).push(b.last()));
        assert((a + b1).push(b.last()).drop_last() =~= a + b1);
        assert(pow10(b.len()) == 10 * pow10(b1.len()));
        assert(digits_val(a + b) == (digits_val(a) * pow10(b1.len()) + digits_val(b1)) * 10
            + digit_of(b.last()));
        assert(digits_val(a) * pow10(b1.len()) * 10 == digits_val(a) * (10 * pow10(b1.len())))
            by (nonlinear_arith);
        assert((digits_val(a) * pow10(b1.len()) + digits_val(b1)) * 10 == digits_val(a) * pow10(
            b1.len(),
        ) * 10 + digits_val(b1) * 10) by (nonlinear_arith);
        assert(digits_val(b) == digits_val(b1) * 10 + digit_of(b.last()));
    }
}

/// A run of zero digits denotes zero.
proof fn lemma_digits_val_zeros(k: nat)
    ensures
        digits_val(seq_repeat_zero(k)) == 0,
        all_dec_digits(seq_repeat_zero(k)),
    decreases k,
{
    if k > 0 {
        lemma_digits_val_zeros((k - 1) as nat);
        assert(seq_repeat_zero(k).drop_last() =~= seq_repeat_zero((k - 1) as nat));
        assert(seq_repeat_zero(k).last() == 48);
    }
}

/// Scaling an indivisible number by a power of ten adds exactly that many
/// trailing tens.
proof fn lemma_trailing_tens_scale(n: nat, e: nat)
    requires
        n > 0,
        n % 10 != 0,
    ensures
        trailing_tens(n * pow10(e)) == e,
        (n * pow10(e)) / pow10(e) == n,
        n * pow10(e) > 0,
    decreases e,
{
    crate::decimal::lemma_pow10_monotone(0, e);
    if e == 0 {
        assert(pow10(0) == 1);
        assert(n * 1 == n) by (nonlinear_arith);
        vstd::arithmetic::div_mod::lemma_fundamental_div_mod_converse(n as int, 1, n as int, 0);
    } else {
        lemma_trailing_tens_scale(n, (e - 1) as nat);
        let prev = n * pow10((e - 1) as nat);
        assert(pow10(e) == 10 * pow10((e - 1) as nat));
        assert(n * pow10(e) == prev * 10) by (nonlinear_arith)
            requires
                pow10(e) == 10 * pow10((e - 1) as nat),
                prev == n * pow10((e - 1) as nat),
        {}
        let cur = n * pow10(e);
        assert(prev > 0);
        assert(cur > 0) by (nonlinear_arith)
            requires
                cur == prev * 10,
                prev > 0,
        {}
        vstd::arithmetic::div_mod::lemma_fundamental_div_mod_converse(
            cur as int,
            10,
            prev as int,
            0,
        );
        assert(cur % 10 == 0);
        assert(cur / 10 == prev);
        assert(trailing_tens(cur) == 1 + trailing_tens(prev));
        // the exact quotient by the full power
        vstd::arithmetic::div_mod::lemma_fundamental_div_mod_converse(
            cur as int,
            pow10(e) as int,
            n as int,
            0,
        );
    }
}

/// An optionally signed digit string, assembled: its shape and its value.
proof fn lemma_int_shape_of(sign: Seq<u8>, digits: Seq<u8>, neg: bool)
    requires
        sign == if neg {
            seq![45u8]
        } else {
            Seq::<u8>::empty()
        },
        all_dec_digits(digits),
        digits.len() >= 1,
    ensures
        has_int_shape(sign + digits),
        int_shape_val(sign + digits) == if neg {
            -(digits_val(digits) as int)
        } else {
            digits_val(digits) as int
        },
{
    let s = sign + digits;
    if neg {
        assert(s[0] == 45);
        assert(s.skip(1) =~= digits);
    } else {
        assert(s =~= digits);
        assert(s[0] == digits[0]);
        assert(is_dec_digit(s[0]));
        assert(s[0] != 43 && s[0] != 45);
    }
}

/// Decimal round trip: rendering a normalized decimal and parsing the text
/// back restores the exponent and the mantissa, whenever the scaled value
/// fits the parser's 64-bit mantissa range.
#[verifier::rlimit(100)]
pub proof fn lemma_decimal_render_parse_round_trip(e: i32, m: i64)
    requires
        spec_normalized(e as int, m as int),
        e >= 0 ==> spec_magnitude(m as int) * pow10(e as nat) < 0x8000_0000_0000_0000,
    ensures
        spec_parse_decimal(spec_decimal_bytes(e as int, m as int)) == Some((e as int, m as int)),
{
    let ei = e as int;
    let mi = m as int;
    let mag = spec_magnitude(mi);
    let rendered = spec_decimal_bytes(ei, mi);
    let sign: Seq<u8> = if mi < 0 {
        seq![45u8]
    } else {
        Seq::empty()
    };
    if mi == 0 {
        // zero renders as the single digit and parses right back
        assert(rendered == seq![48u8]);
        assert(no_dot(rendered));
        assert(all_dec_digits(rendered)) by {
            assert(rendered[0] == 48);
        }
        assert(has_int_shape(rendered));
        assert(digits_val(rendered) == 0) by {
            assert(rendered.drop_last() =~= Seq::<u8>::empty());
            assert(digits_val(Seq::<u8>::empty()) == 0);
            assert(rendered.last() == 48);
            assert(digit_of(48u8) == 0);
        }
        assert(int_shape_val(rendered) == 0);
        assert(spec_parse_i64(rendered) == Some(0int));
        assert(spec_normalize(0, 0) == (0int, 0int));
    } else if ei >= 0 {
        let digits = dec_digits(mag) + seq_repeat_zero(ei as nat);
        lemma_dec_digits_are_digits(mag);
        lemma_digits_val_zeros(ei as nat);
        lemma_digits_val_of_dec_digits(mag);
        lemma_digits_val_concat(dec_digits(mag), seq_repeat_zero(ei as nat));
        assert(digits_val(digits) == mag * pow10(ei as nat));
        assert(all_dec_digits(digits)) by {
            assert forall|i: int| 0 <= i < digits.len() implies is_dec_digit(#[trigger] digits[i]) by {
                if i < dec_digits(mag).len() {
                    assert(digits[i] == dec_digits(mag)[i]);
                } else {
                    assert(digits[i] == 48);
                }
            }
        }
        assert(rendered == sign + digits);
        lemma_int_shape_of(sign, digits, mi < 0);
        let v = int_shape_val(rendered);
        assert(v == with_sign(mi, mag * pow10(ei as nat)));
        assert(no_dot(rendered)) by {
            assert forall|i: int| 0 <= i < rendered.len() implies rendered[i] != 46 by {
                if mi < 0 && i == 0 {
                } else {
                    let j = if mi < 0 {
                        i - 1
                    } else {
                        i
                    };
                    assert(rendered[i] == digits[j]);
                    assert(is_dec_digit(digits[j]));
                }
            }
        }
        assert(-0x8000_0000_0000_0000 <= v <= 0x7fff_ffff_ffff_ffff);
        assert(spec_parse_i64(rendered) == Some(v));
        lemma_trailing_tens_scale(mag, ei as nat);
        assert(spec_magnitude(v) == mag * pow10(ei as nat));
        assert(spec_normalize(0, v) == (ei, with_sign(v, mag)));
        assert(with_sign(v, mag) == mi);
    } else {
        let k = (-ei) as nat;
        let p = pow10(k);
        crate::decimal::lemma_pow10_monotone(0, k);
        // the fraction never vanishes for a normalized mantissa
        assert(mag % p != 0) by {
            if mag % p == 0 {
                vstd::arithmetic::div_mod::lemma_fundamental_div_mod(mag as int, p as int);
                assert(pow10(k) == 10 * pow10((k - 1) as nat));
                assert(mag % 10 == 0) by (nonlinear_arith)
                    requires
                        mag == p * (mag as int / p as int),
                        p == 10 * pow10((k - 1) as nat),
                        pow10((k - 1) as nat) >= 0,
                {
                    vstd::arithmetic::div_mod::lemma_fundamental_div_mod_converse(
                        mag as int,
                        10,
                        (pow10((k - 1) as nat) * (mag as int / p as int)) as int,
                        0,
                    );
                }
                assert(mi % 10 != 0);
                assert(mag % 10 != 0) by {
                    if mi < 0 {
                        vstd::arithmetic::div_mod::lemma_fundamental_div_mod(mi, 10);
                        vstd::arithmetic::div_mod::lemma_fundamental_div_mod_converse(
                            mag as int,
                            10,
                            -(mi / 10) - 1,
                            10 - mi % 10,
                        );
                    }
                }
            }
        }
        let intpart = mag / p;
        let fracval = mag % p;
        let fracdigits = zero_pad(dec_digits(fracval), k);
        assert(rendered == sign + dec_digits(intpart) + seq![46u8] + fracdigits);
        lemma_dec_digits_are_digits(intpart);
        lemma_dec_digits_are_digits(fracval);
        vstd::arithmetic::div_mod::lemma_fundamental_div_mod(mag as int, p as int);
        assert(fracval < p);
        crate::decimal::lemma_dec_digits_len_le_pub(fracval, k);
        assert(fracdigits.len() == k) by {
            if dec_digits(fracval).len() < k {
                assert(fracdigits == seq_repeat_zero((k - dec_digits(fracval).len()) as nat)
                    + dec_digits(fracval));
            }
        }
        lemma_digits_val_zeros(k);
        assert(digits_val(fracdigits) == fracval && all_dec_digits(fracdigits)) by {
            if dec_digits(fracval).len() < k {
                let pad = seq_repeat_zero((k - dec_digits(fracval).len()) as nat);
                lemma_digits_val_zeros((k - dec_digits(fracval).len()) as nat);
                lemma_digits_val_concat(pad, dec_digits(fracval));
                lemma_digits_val_of_dec_digits(fracval);
                assert forall|i: int|
                    0 <= i < fracdigits.len() implies is_dec_digit(#[trigger] fracdigits[i]) by {
                    if i < pad.len() {
                        assert(fracdigits[i] == 48);
                    } else {
                        assert(fracdigits[i] == dec_digits(fracval)[i - pad.len()]);
                    }
                }
            } else {
                assert(fracdigits == dec_digits(fracval));
                lemma_digits_val_of_dec_digits(fracval);
            }
        }
        // where the decimal point stands
        let dotpos = sign.len() + dec_digits(intpart).len();
        assert(is_first_dot(rendered, dotpos as int)) by {
            assert(rendered[dotpos as int] == 46);
            assert forall|j: int| 0 <= j < dotpos implies rendered[j] != 46 by {
                if mi < 0 && j == 0 {
                } else {
                    let jj = if mi < 0 {
                        j - 1
                    } else {
                        j
                    };
                    assert(rendered[j] == dec_digits(intpart)[jj]);
                    assert(is_dec_digit(dec_digits(intpart)[jj]));
                }
            }
        }
        crate::decimal::lemma_first_dot_unique_pub(rendered, dotpos as int);
        assert(!no_dot(rendered)) by {
            assert(rendered[dotpos as int] == 46);
        }
        assert(forall|j: int| dotpos < j < rendered.len() ==> rendered[j] != 46) by {
            assert forall|j: int| dotpos < j < rendered.len() implies rendered[j] != 46 by {
                assert(rendered[j] == fracdigits[j - dotpos - 1]);
                assert(is_dec_digit(fracdigits[j - dotpos - 1]));
            }
        }
        let combined = rendered.take(dotpos as int) + rendered.skip(dotpos as int + 1);
        let digits = dec_digits(intpart) + fracdigits;
        assert(combined =~= sign + digits);
        assert(all_dec_digits(digits)) by {
            assert forall|i: int| 0 <= i < digits.len() implies is_dec_digit(#[trigger] digits[i]) by {
                if i < dec_digits(intpart).len() {
                    assert(digits[i] == dec_digits(intpart)[i]);
                } else {
                    assert(digits[i] == fracdigits[i - dec_digits(intpart).len()]);
                }
            }
        }
        lemma_digits_val_concat(dec_digits(intpart), fracdigits);
        lemma_digits_val_of_dec_digits(intpart);
        assert(digits_val(digits) == intpart * p + fracval);
        assert(intpart * p + fracval == mag);
        lemma_int_shape_of(sign, digits, mi < 0);
        let v = int_shape_val(combined);
        assert(v == mi);
        assert(spec_parse_i64(combined) == Some(mi));
        let fraclen = rendered.len() - dotpos - 1;
        assert(fraclen == k);
        assert(trailing_tens(mag) == 0);
        assert(mag / pow10(0) == mag) by {
            assert(pow10(0) == 1);
            vstd::arithmetic::div_mod::lemma_fundamental_div_mod_converse(
                mag as int,
                1,
                mag as int,
                0,
            );
        }
        assert(spec_normalize(-(k as int), mi) == (ei, mi));
        assert(check_exponent_range((ei, mi)) == Some((ei, mi)));
    }
}

} // verus!
