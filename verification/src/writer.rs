//! The encoder's half of the bit codec: writing stop-bit integers, strings,
//! byte vectors and presence maps into a byte buffer.
use vstd::prelude::*;
use vstd::string::StringSliceAdditionalSpecFns;
use vstd::utf8::encode_utf8;

use crate::errors::Error;
use crate::wirespec::{
    floor_div128, ienc_body, int_enc, int_len7, mod128, pmap_enc, pmap_trail_bytes, pow128,
    ubody_k, uenc_body, uint_enc,
};

verus! {

/// A growable byte buffer the encoder stages output into.
pub struct ByteWriter {
    pub buf: Vec<u8>,
}

impl ByteWriter {
    pub fn new() -> (r: ByteWriter)
        ensures
            r.buf@ == Seq::<u8>::empty(),
    {
        ByteWriter { buf: Vec::new() }
    }

    pub fn write_u8(&mut self, value: u8)
        ensures
            final(self).buf@ == old(self).buf@.push(value),
    {
        self.buf.push(value);
    }

    pub fn write_buf(&mut self, other: &[u8])
        ensures
            final(self).buf@ == old(self).buf@ + other@,
    {
        let mut i: usize = 0;
        while i < other.len()
            invariant
                i <= other@.len(),
                self.buf@ == old(self).buf@ + other@.take(i as int),
            decreases other@.len() - i,
        {
            self.buf.push(other[i]);
            i = i + 1;
            proof {
                assert(self.buf@ =~= old(self).buf@ + other@.take(i as int));
            }
        }
        proof {
            assert(self.buf@ =~= old(self).buf@ + other@);
        }
    }

    /// Write an unsigned integer in the canonical stop-bit form.
    pub fn write_uint(&mut self, value: u64)
        ensures
            final(self).buf@ == old(self).buf@ + uint_enc(value as nat),
    {
        push_uenc_body(value / 128, &mut self.buf);
        self.buf.push((value % 128 + 128) as u8);
        proof {
            assert(self.buf@ =~= old(self).buf@ + uint_enc(value as nat));
        }
    }

    /// Write a nullable unsigned integer: null is zero, values shift up one.
    pub fn write_uint_nullable(&mut self, value: Option<u64>)
        requires
            value is Some ==> value->0 < 0xffff_ffff_ffff_ffffu64,
        ensures
            final(self).buf@ == old(self).buf@ + match value {
                Option::None => uint_enc(0),
                Option::Some(v) => uint_enc(v as nat + 1),
            },
    {
        match value {
            None => self.write_uint(0),
            Some(v) => self.write_uint(v + 1),
        }
    }

    /// Write a signed integer in the canonical stop-bit form: base-128
    /// two's-complement groups, no more than the sign needs.
    pub fn write_int(&mut self, value: i64)
        ensures
            final(self).buf@ == old(self).buf@ + int_enc(value as int),
    {
        let k = int_len7_exec(value);
        let (q, r) = floor_divmod128(value);
        push_ienc_body(q, k - 1, &mut self.buf);
        self.buf.push((r + 128) as u8);
        proof {
            assert(self.buf@ =~= old(self).buf@ + int_enc(value as int));
        }
    }

    /// Write a nullable signed integer: null is zero, non-negative values
    /// shift up one.
    pub fn write_int_nullable(&mut self, value: Option<i64>)
        requires
            value is Some ==> value->0 < 0x7fff_ffff_ffff_ffffi64,
        ensures
            final(self).buf@ == old(self).buf@ + match value {
                Option::None => int_enc(0),
                Option::Some(v) => if v >= 0 {
                    int_enc(v as int + 1)
                } else {
                    int_enc(v as int)
                },
            },
    {
        match value {
            None => self.write_int(0),
            Some(v) => if v >= 0 {
                self.write_int(v + 1)
            } else {
                self.write_int(v)
            },
        }
    }

    /// Write an ASCII string: its bytes with the stop bit on the last, an
    /// empty string as the single byte `0x80`.
    pub fn write_ascii_string(&mut self, value: &str) -> (r: Result<(), Error>)
        ensures
            match r {
                Ok(_) => value.is_ascii() && final(self).buf@ == old(self).buf@ + ascii_str_enc(
                    value@,
                    seq![128u8],
                ),
                Err(e) => !value.is_ascii() && *final(self) == *old(self) && e is Runtime,
            },
    {
        let empty: [u8; 1] = [0x80];
        self.write_ascii_str(value, empty.as_slice())
    }

    /// Write a nullable ASCII string: null is `0x80`, the empty string the
    /// two bytes `0x00 0x80`.
    pub fn write_ascii_string_nullable(&mut self, value: Option<&str>) -> (r: Result<(), Error>)
        ensures
            match r {
                Ok(_) => match value {
                    Option::None => final(self).buf@ == old(self).buf@.push(128u8),
                    Option::Some(s) => s.is_ascii() && final(self).buf@ == old(self).buf@
                        + ascii_str_enc(s@, seq![0u8, 128u8]),
                },
                Err(e) => (match value {
                    Option::None => false,
                    Option::Some(s) => !s.is_ascii(),
                }) && *final(self) == *old(self) && e is Runtime,
            },
    {
        match value {
            None => {
                self.write_u8(0x80);
                Ok(())
            },
            Some(s) => {
                let empty: [u8; 2] = [0x00, 0x80];
                self.write_ascii_str(s, empty.as_slice())
            },
        }
    }

    fn write_ascii_str(&mut self, value: &str, empty: &[u8]) -> (r: Result<(), Error>)
        ensures
            match r {
                Ok(_) => value.is_ascii() && final(self).buf@ == old(self).buf@ + ascii_str_enc(
                    value@,
                    empty@,
                ),
                Err(e) => !value.is_ascii() && *final(self) == *old(self) && e is Runtime,
            },
    {
        if !value.is_ascii() {
            return Err(Error::Runtime("write_ascii_string: invalid ASCII char".to_owned()));
        }
        let b = value.as_bytes();
        proof {
            broadcast use vstd::string::is_ascii_spec_bytes;

        }
        if b.len() == 0 {
            self.write_buf(empty);
            proof {
                assert(self.buf@ =~= old(self).buf@ + ascii_str_enc(value@, empty@));
            }
            return Ok(());
        }
        let head = &b[0..b.len() - 1];
        self.write_buf(head);
        self.write_u8(b[b.len() - 1] | 0x80);
        proof {
            let bytes = Seq::new(value@.len(), |i: int| value@[i] as u8);
            assert(b@ =~= bytes);
            let lastb = b@[b@.len() - 1];
            assert(lastb < 128);
            assert((lastb | 0x80) == lastb + 128) by (bit_vector)
                requires
                    lastb < 128,
            ;
            assert(head@ =~= bytes.take(bytes.len() - 1));
            assert(self.buf@ =~= old(self).buf@ + ascii_str_enc(value@, empty@));
        }
        Ok(())
    }

    /// Write a Unicode string: a length prefix and the raw UTF-8 bytes.
    pub fn write_unicode_string(&mut self, value: &str)
        ensures
            final(self).buf@ == old(self).buf@ + uint_enc(encode_utf8(value@).len())
                + encode_utf8(value@),
    {
        let b = value.as_bytes();
        self.write_uint(b.len() as u64);
        self.write_buf(b);
    }

    /// Write a nullable Unicode string: null is a null length, the length
    /// shifts up one otherwise.
    pub fn write_unicode_string_nullable(&mut self, value: Option<&str>)
        requires
            value is Some ==> encode_utf8(value->0@).len() < 0xffff_ffff_ffff_ffff,
        ensures
            final(self).buf@ == old(self).buf@ + match value {
                Option::None => uint_enc(0),
                Option::Some(s) => uint_enc(encode_utf8(s@).len() + 1) + encode_utf8(s@),
            },
    {
        match value {
            None => self.write_uint_nullable(None),
            Some(s) => {
                let b = s.as_bytes();
                self.write_uint_nullable(Some(b.len() as u64));
                self.write_buf(b);
            },
        }
    }

    /// Write a byte vector: a length prefix and the raw bytes.
    pub fn write_bytes(&mut self, value: &[u8])
        ensures
            final(self).buf@ == old(self).buf@ + uint_enc(value@.len()) + value@,
    {
        self.write_uint(value.len() as u64);
        self.write_buf(value);
    }

    /// Write a nullable byte vector: null is a null length.
    pub fn write_bytes_nullable(&mut self, value: Option<&[u8]>)
        requires
            value is Some ==> value->0@.len() < 0xffff_ffff_ffff_ffff,
        ensures
            final(self).buf@ == old(self).buf@ + match value {
                Option::None => uint_enc(0),
                Option::Some(b) => uint_enc(b@.len() + 1) + b@,
            },
    {
        match value {
            None => self.write_uint_nullable(None),
            Some(b) => {
                self.write_uint_nullable(Some(b.len() as u64));
                self.write_buf(b);
            },
        }
    }

    /// Write a presence map: `size` bits (a multiple of 7) from `bitmap`,
    /// with whole trailing zero bytes trimmed; an empty map is one byte.
    pub fn write_presence_map(&mut self, bitmap: u64, size: u32) -> (r: Result<(), Error>)
        ensures
            match r {
                Ok(_) => (size == 0 || size as int % 7 == 0) && final(self).buf@ == old(
                    self,
                ).buf@ + if size == 0 {
                    seq![128u8]
                } else {
                    pmap_enc(bitmap as nat, size as nat)
                },
                Err(e) => size != 0 && size as int % 7 != 0 && *final(self) == *old(self)
                    && e is Runtime,
            },
    {
        if size == 0 {
            self.write_u8(0x80);
            return Ok(());
        }
        if size % 7 != 0 {
            return Err(Error::Runtime("write_presence_map: size must be multiple of 7".to_owned()));
        }
        // count whole zero bytes at the low end
        let mut t: u32 = 0;
        let mut x: u64 = bitmap;
        if bitmap == 0 {
            t = 9;
        } else {
            proof {
                assert(pow128(0) == 1);
            }
            while x % 128 == 0
                invariant
                    x > 0,
                    pmap_trail_bytes(bitmap as nat) == t + pmap_trail_bytes(x as nat),
                    bitmap as nat == x as nat * pow128(t as nat),
                    t <= 9,
                decreases x,
            {
                proof {
                    lemma_pmap_trail_step(bitmap as nat, x as nat, t as nat);
                }
                x = x / 128;
                t = t + 1;
            }
            proof {
                assert(pmap_trail_bytes(x as nat) == 0);
                lemma_pow128_pos(t as nat);
                vstd::arithmetic::div_mod::lemma_fundamental_div_mod_converse(
                    bitmap as int,
                    pow128(t as nat) as int,
                    x as int,
                    0,
                );
            }
        }
        let total = size / 7;
        if total <= t {
            self.write_u8(0x80);
            proof {
                assert(pmap_enc(bitmap as nat, size as nat) =~= seq![128u8]);
                assert(self.buf@ =~= old(self).buf@ + pmap_enc(bitmap as nat, size as nat));
            }
            return Ok(());
        }
        let len = total - t;
        let payload = x;
        proof {
            if bitmap == 0 {
                lemma_pow128_values();
                assert(bitmap as nat / pow128(9) == 0) by (nonlinear_arith)
                    requires
                        bitmap == 0,
                        pow128(9) >= 1,
                {}
            }
            assert(payload as nat == bitmap as nat / pow128(t as nat));
        }
        push_ubody_k(payload / 128, len - 1, &mut self.buf);
        self.buf.push((payload % 128 + 128) as u8);
        proof {
            assert(self.buf@ =~= old(self).buf@ + pmap_enc(bitmap as nat, size as nat));
        }
        Ok(())
    }
}

/// The stop-bit bytes of a non-empty ASCII string, or the `empty` marker.
pub open spec fn ascii_str_enc(s: Seq<char>, empty: Seq<u8>) -> Seq<u8> {
    if s.len() == 0 {
        empty
    } else {
        let bytes = Seq::new(s.len(), |i: int| s[i] as u8);
        bytes.take(bytes.len() - 1) + seq![(bytes.last() + 128) as u8]
    }
}

/// Append the high-order groups of the canonical unsigned encoding.
fn push_uenc_body(n: u64, out: &mut Vec<u8>)
    ensures
        final(out)@ == old(out)@ + uenc_body(n as nat),
    decreases n,
{
    if n == 0 {
        return ;
    }
    push_uenc_body(n / 128, out);
    out.push((n % 128) as u8);
    proof {
        assert(out@ =~= old(out)@ + uenc_body(n as nat));
    }
}

/// Floor quotient and Euclidean remainder of an `i64` by 128.
fn floor_divmod128(v: i64) -> (r: (i64, u8))
    ensures
        r.0 == floor_div128(v as int),
        r.1 == mod128(v as int),
        0 <= r.1 < 128,
{
    if v >= 0 {
        ((v / 128), (v % 128) as u8)
    } else {
        let m: u64 = (-(v + 1)) as u64;
        let q: i64 = -((m / 128) as i64) - 1;
        let r: u8 = (127 - (m % 128) as i64) as u8;
        proof {
            let vi = v as int;
            let mi = m as int;
            assert(mi == -vi - 1);
            assert(floor_div128(vi) == -((mi) / 128) - 1);
            assert(mod128(vi) == vi - 128 * floor_div128(vi));
            vstd::arithmetic::div_mod::lemma_fundamental_div_mod(mi, 128);
            assert(mod128(vi) == 127 - mi % 128);
        }
        (q, r)
    }
}

/// The canonical signed group count, computed by shifting until only the
/// sign is left.
fn int_len7_exec(v: i64) -> (r: u32)
    ensures
        r == int_len7(v as int),
        1 <= r <= 10,
{
    proof {
        lemma_pow2_63_69();
        lemma_int_len7_range(v as int, 10);
    }
    let mut w: i64 = v;
    let mut k: u32 = 1;
    while w < -64 || w > 63
        invariant
            int_len7(v as int) == k - 1 + int_len7(w as int),
            k <= 10,
            int_len7(w as int) <= 11 - k,
        decreases int_len7(w as int),
    {
        let (q, _) = floor_divmod128(w);
        proof {
            lemma_int_len7_shrinks(w as int);
        }
        w = q;
        k = k + 1;
    }
    proof {
        assert(int_len7(w as int) == 1);
    }
    k
}

/// Append `k` two's-complement groups of `v`, most significant first.
fn push_ienc_body(v: i64, k: u32, out: &mut Vec<u8>)
    ensures
        final(out)@ == old(out)@ + ienc_body(v as int, k as nat),
    decreases k,
{
    if k == 0 {
        return ;
    }
    let (q, r) = floor_divmod128(v);
    push_ienc_body(q, k - 1, out);
    out.push(r);
    proof {
        assert(out@ =~= old(out)@ + ienc_body(v as int, k as nat));
    }
}

/// Append `k` base-128 groups of `n`, most significant first.
fn push_ubody_k(n: u64, k: u32, out: &mut Vec<u8>)
    ensures
        final(out)@ == old(out)@ + ubody_k(n as nat, k as nat),
    decreases k,
{
    if k == 0 {
        return ;
    }
    push_ubody_k(n / 128, k - 1, out);
    out.push((n % 128) as u8);
    proof {
        assert(out@ =~= old(out)@ + ubody_k(n as nat, k as nat));
    }
}

proof fn lemma_pmap_trail_step(bitmap: nat, x: nat, t: nat)
    requires
        x > 0,
        x % 128 == 0,
        bitmap == x * pow128(t),
        bitmap <= 0xffff_ffff_ffff_ffff,
        t <= 9,
    ensures
        bitmap == (x / 128) * pow128(t + 1),
        x / 128 > 0,
        t + 1 <= 9,
        pmap_trail_bytes(x) == 1 + pmap_trail_bytes(x / 128),
{
    lemma_pow128_pos(t);
    let p = pow128(t);
    assert(pow128(t + 1) == 128 * p);
    assert(x == (x / 128) * 128) by (nonlinear_arith)
        requires
            x % 128 == 0,
            x >= 0,
    {}
    assert(x / 128 > 0) by (nonlinear_arith)
        requires
            x >= 128,
            x == (x / 128) * 128,
    {}
    assert(bitmap == (x / 128) * (128 * p)) by (nonlinear_arith)
        requires
            bitmap == x * p,
            x == (x / 128) * 128,
    {}
    if t + 1 > 9 {
        lemma_pow128_values();
        assert(bitmap >= pow128(10)) by (nonlinear_arith)
            requires
                bitmap == (x / 128) * pow128(t + 1),
                x / 128 >= 1,
                pow128(t + 1) >= pow128(10),
        {}
    }
    if t + 1 <= 9 {
    }
}

proof fn lemma_pow128_pos(k: nat)
    ensures
        pow128(k) >= 1,
    decreases k,
{
    if k > 0 {
        lemma_pow128_pos((k - 1) as nat);
    }
}

proof fn lemma_pow128_values()
    ensures
        pow128(9) == 0x8000_0000_0000_0000nat,
        pow128(10) == 0x4000_0000_0000_0000_00nat,
        forall|a: nat, b: nat| a <= b ==> #[trigger] pow128(a) <= #[trigger] pow128(b),
{
    reveal_with_fuel(pow128, 11);
    assert forall|a: nat, b: nat| a <= b implies #[trigger] pow128(a) <= #[trigger] pow128(b) by {
        lemma_pow128_monotone(a, b);
    }
}

proof fn lemma_pow128_monotone(a: nat, b: nat)
    requires
        a <= b,
    ensures
        pow128(a) <= pow128(b),
    decreases b,
{
    if a < b {
        lemma_pow128_monotone(a, (b - 1) as nat);
        lemma_pow128_pos((b - 1) as nat);
    }
}

proof fn lemma_int_len7_shrinks(v: int)
    requires
        v < -64 || v > 63,
    ensures
        int_len7(v) == 1 + int_len7(floor_div128(v)),
        int_len7(floor_div128(v)) < int_len7(v),
{
}

/// A value within `±2^(7k-1)` needs at most `k` groups.
proof fn lemma_int_len7_range(v: int, k: nat)
    requires
        k >= 1,
        -crate::wirespec::pow2_nat((7 * k - 1) as nat) <= v < crate::wirespec::pow2_nat(
            (7 * k - 1) as nat,
        ),
    ensures
        int_len7(v) <= k,
    decreases k,
{
    if -64 <= v <= 63 {
    } else {
        let b = crate::wirespec::pow2_nat((7 * k - 1) as nat);
        assert(k >= 2) by {
            if k == 1 {
                assert(crate::wirespec::pow2_nat(6) == 64) by {
                    reveal_with_fuel(crate::wirespec::pow2_nat, 8);
                }
            }
        }
        let b2 = crate::wirespec::pow2_nat((7 * (k - 1) - 1) as nat);
        assert(b == 128 * b2) by {
            lemma_pow2_shift7((7 * (k - 1) - 1) as nat);
        }
        let q = floor_div128(v);
        if v >= 0 {
            vstd::arithmetic::div_mod::lemma_fundamental_div_mod(v, 128);
            assert(q < b2) by (nonlinear_arith)
                requires
                    v == 128 * q + v % 128,
                    0 <= v % 128 < 128,
                    v < 128 * b2,
                    q == v / 128,
            {}
            assert(q >= 0);
            lemma_int_len7_range(q, (k - 1) as nat);
        } else {
            let m = -v - 1;
            vstd::arithmetic::div_mod::lemma_fundamental_div_mod(m, 128);
            assert(q == -(m / 128) - 1);
            assert(m / 128 <= b2 - 1) by (nonlinear_arith)
                requires
                    m == 128 * (m / 128) + m % 128,
                    0 <= m % 128 < 128,
                    m <= 128 * b2 - 1,
            {}
            assert(q >= -b2);
            assert(q <= -1);
            lemma_int_len7_range(q, (k - 1) as nat);
        }
    }
}

proof fn lemma_pow2_shift7(k: nat)
    ensures
        crate::wirespec::pow2_nat(k + 7) == 128 * crate::wirespec::pow2_nat(k),
{
    reveal_with_fuel(crate::wirespec::pow2_nat, 8);
    assert(crate::wirespec::pow2_nat(k + 7) == 2 * crate::wirespec::pow2_nat(k + 6));
    assert(crate::wirespec::pow2_nat(k + 6) == 2 * crate::wirespec::pow2_nat(k + 5));
    assert(crate::wirespec::pow2_nat(k + 5) == 2 * crate::wirespec::pow2_nat(k + 4));
    assert(crate::wirespec::pow2_nat(k + 4) == 2 * crate::wirespec::pow2_nat(k + 3));
    assert(crate::wirespec::pow2_nat(k + 3) == 2 * crate::wirespec::pow2_nat(k + 2));
    assert(crate::wirespec::pow2_nat(k + 2) == 2 * crate::wirespec::pow2_nat(k + 1));
    assert(crate::wirespec::pow2_nat(k + 1) == 2 * crate::wirespec::pow2_nat(k));
}

/// `2^69` comfortably covers the `i64` range.
proof fn lemma_pow2_63_69()
    ensures
        crate::wirespec::pow2_nat(69) >= 0x8000_0000_0000_0000nat,
{
    lemma_pow2_63_value(69);
}

proof fn lemma_pow2_63_value(k: nat)
    ensures
        k >= 63 ==> crate::wirespec::pow2_nat(k) >= 0x8000_0000_0000_0000nat,
        crate::wirespec::pow2_nat(k) >= 1,
    decreases k,
{
    if k == 0 {
    } else {
        lemma_pow2_63_value((k - 1) as nat);
        if k == 63 {
            assert(crate::wirespec::pow2_nat(63) == 0x8000_0000_0000_0000nat) by {
                lemma_pow2_63_exact();
            }
        }
    }
}

proof fn lemma_pow2_63_exact()
    ensures
        crate::wirespec::pow2_nat(63) == 0x8000_0000_0000_0000nat,
{
    reveal_with_fuel(crate::wirespec::pow2_nat, 64);
}

} // verus!
