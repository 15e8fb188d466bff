//! The transfer encoding on the wire, as mathematics: stop-bit integers,
//! their canonical encodings, and the presence-map framing.
use vstd::prelude::*;

verus! {

/// A stop-bit run: every byte but the last has a clear high bit, the last
/// byte a set one.
pub open spec fn is_stop_run(s: Seq<u8>) -> bool {
    &&& s.len() >= 1
    &&& forall|i: int| 0 <= i < s.len() - 1 ==> s[i] < 128
    &&& s.last() >= 128
}

/// The unsigned value of a stop-bit run, accumulated 7 bits a byte with the
/// 64-bit wrap-around the decoder's register applies.
pub open spec fn uval64(s: Seq<u8>) -> nat
    decreases s.len(),
{
    if s.len() == 0 {
        0
    } else {
        ((uval64(s.drop_last()) * 128 + (s.last() % 128)) % 0x1_0000_0000_0000_0000) as nat
    }
}

/// The signed value of a stop-bit run: as `uval64`, but the register starts
/// at all-ones when bit 6 of the first byte is set, and the result is read
/// as a two's-complement `i64`.
pub open spec fn sval64(s: Seq<u8>) -> int {
    let u = if s.len() > 0 && (s[0] / 64) % 2 == 1 {
        uval64_from(0xffff_ffff_ffff_ffff, s)
    } else {
        uval64_from(0, s)
    };
    if u >= 0x8000_0000_0000_0000 {
        u - 0x1_0000_0000_0000_0000
    } else {
        u as int
    }
}

pub open spec fn uval64_from(init: nat, s: Seq<u8>) -> nat
    decreases s.len(),
{
    if s.len() == 0 {
        init
    } else {
        ((uval64_from(init, s.drop_last()) * 128 + (s.last() % 128)) % 0x1_0000_0000_0000_0000) as nat
    }
}

/// The high-order bytes of the canonical unsigned encoding: base-128 digits
/// of `n`, most significant first, no stop bit.
pub open spec fn uenc_body(n: nat) -> Seq<u8>
    decreases n,
{
    if n == 0 {
        Seq::empty()
    } else {
        uenc_body(n / 128) + seq![(n % 128) as u8]
    }
}

/// The canonical stop-bit encoding of an unsigned integer: the shortest run
/// that denotes it.
pub open spec fn uint_enc(n: nat) -> Seq<u8> {
    uenc_body(n / 128) + seq![(n % 128 + 128) as u8]
}

/// How many 7-bit groups the canonical signed encoding of `v` needs: the
/// smallest count that still holds the sign bit.
pub open spec fn int_len7(v: int) -> nat
    decreases
            if v >= 0 {
                v
            } else {
                -v
            },
{
    if -64 <= v <= 63 {
        1
    } else {
        1 + int_len7(floor_div128(v))
    }
}

/// Floor division by 128, the shift the signed encoding steps by.
pub open spec fn floor_div128(v: int) -> int {
    if v >= 0 {
        v / 128
    } else {
        -((-v - 1) / 128) - 1
    }
}

/// Euclidean remainder of `v` by 128.
pub open spec fn mod128(v: int) -> int {
    v - 128 * floor_div128(v)
}

/// `k` two's-complement base-128 digits of `v`, most significant first,
/// no stop bits.
pub open spec fn ienc_body(v: int, k: nat) -> Seq<u8>
    decreases k,
{
    if k == 0 {
        Seq::empty()
    } else {
        ienc_body(floor_div128(v), (k - 1) as nat) + seq![mod128(v) as u8]
    }
}

/// The canonical stop-bit encoding of a signed integer.
pub open spec fn int_enc(v: int) -> Seq<u8> {
    let k = int_len7(v);
    ienc_body(floor_div128(v), (k - 1) as nat) + seq![(mod128(v) + 128) as u8]
}

/// Number of whole zero bytes at the low end of a presence-map register;
/// an empty register counts all nine groups a 64-bit register can trim.
pub open spec fn pmap_trail_bytes(b: nat) -> nat
    decreases b,
{
    if b == 0 {
        9
    } else if b % 128 == 0 {
        1 + pmap_trail_bytes(b / 128)
    } else {
        0
    }
}

/// Fixed-width base-128 digits of `n`, most significant first, no stop bit;
/// groups beyond the width are dropped.
pub open spec fn ubody_k(n: nat, k: nat) -> Seq<u8>
    decreases k,
{
    if k == 0 {
        Seq::empty()
    } else {
        ubody_k(n / 128, (k - 1) as nat) + seq![(n % 128) as u8]
    }
}

/// The bytes the encoder emits for a presence map of `size` bits (a
/// multiple of 7) held in `bitmap`: trailing all-zero groups are trimmed
/// and an empty map still occupies one byte.
pub open spec fn pmap_enc(bitmap: nat, size: nat) -> Seq<u8> {
    let t = pmap_trail_bytes(bitmap);
    let total = size / 7;
    if total <= t {
        seq![128u8]
    } else {
        let len = total - t;
        let payload = bitmap / pow128(t);
        ubody_k(payload / 128, (len - 1) as nat) + seq![(payload % 128 + 128) as u8]
    }
}

pub open spec fn pow128(k: nat) -> nat
    decreases k,
{
    if k == 0 {
        1
    } else {
        128 * pow128((k - 1) as nat)
    }
}

/// Bits of a presence-map register, most significant first.
pub open spec fn pmap_bits(bitmap: nat, size: nat) -> Seq<bool> {
    Seq::new(size, |i: int| (bitmap / pow2_nat((size - 1 - i) as nat)) % 2 == 1)
}

pub open spec fn pow2_nat(k: nat) -> nat
    decreases k,
{
    if k == 0 {
        1
    } else {
        2 * pow2_nat((k - 1) as nat)
    }
}

} // verus!
