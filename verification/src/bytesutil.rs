//! Byte and string helpers: hexadecimal literals, string equality, and the
//! common-prefix/suffix search behind the delta and tail operators.
use vstd::prelude::*;
use vstd::string::StringSliceAdditionalSpecFns;

use crate::errors::Error;
use crate::numstr::ascii_to_string;

verus! {

broadcast use vstd::utf8::encode_utf8_decode_utf8;

/// The lowercase hex digit for a value below 16.
pub open spec fn hex_digit(n: nat) -> u8 {
    if n < 10 {
        (48 + n) as u8
    } else {
        (87 + n) as u8
    }
}

/// The lowercase two-digits-per-byte hex rendering of a byte sequence.
pub open spec fn hex_of(s: Seq<u8>) -> Seq<u8>
    decreases s.len(),
{
    if s.len() == 0 {
        Seq::empty()
    } else {
        hex_of(s.drop_last()) + seq![
            hex_digit((s.last() / 16) as nat),
            hex_digit((s.last() % 16) as nat),
        ]
    }
}

pub open spec fn is_hex_digit(b: u8) -> bool {
    (48 <= b <= 57) || (97 <= b <= 102) || (65 <= b <= 70)
}

/// Value of one hex digit byte; zero for others.
pub open spec fn hex_val(b: u8) -> nat {
    if 48 <= b <= 57 {
        (b - 48) as nat
    } else if 97 <= b <= 102 {
        (b - 87) as nat
    } else if 65 <= b <= 70 {
        (b - 55) as nat
    } else {
        0
    }
}

pub open spec fn all_hex_digits(s: Seq<u8>) -> bool {
    forall|i: int| 0 <= i < s.len() ==> is_hex_digit(#[trigger] s[i])
}

/// The bytes denoted by an even-length run of hex digits, two digits a byte.
pub open spec fn hex_bytes_of(s: Seq<u8>) -> Seq<u8>
    decreases s.len(),
{
    if s.len() < 2 {
        Seq::empty()
    } else {
        seq![(hex_val(s[0]) * 16 + hex_val(s[1])) as u8] + hex_bytes_of(s.skip(2))
    }
}

pub open spec fn is_ascii_ws(b: u8) -> bool {
    b == 9 || b == 10 || b == 11 || b == 12 || b == 13 || b == 32
}

/// Leading and trailing ASCII whitespace removed.
pub open spec fn trim_ws(s: Seq<u8>) -> Seq<u8> {
    trim_back(trim_front(s))
}

pub open spec fn trim_front(s: Seq<u8>) -> Seq<u8>
    decreases s.len(),
{
    if s.len() > 0 && is_ascii_ws(s[0]) {
        trim_front(s.skip(1))
    } else {
        s
    }
}

pub open spec fn trim_back(s: Seq<u8>) -> Seq<u8>
    decreases s.len(),
{
    if s.len() > 0 && is_ascii_ws(s.last()) {
        trim_back(s.drop_last())
    } else {
        s
    }
}

/// Every space removed, wherever it stands.
pub open spec fn drop_spaces(s: Seq<u8>) -> Seq<u8> {
    s.filter(|b: u8| b != 32)
}

/// The hex-literal cleanup: trim the ends, then drop inner spaces.
pub open spec fn hex_cleaned(s: Seq<u8>) -> Seq<u8> {
    drop_spaces(trim_ws(s))
}

/// Render bytes as a lowercase hex string.
pub fn bytes_to_string(bytes: &[u8]) -> (r: String)
    ensures
        r@ == hex_of(bytes@).map_values(|b: u8| b as char),
{
    let mut out: Vec<u8> = Vec::new();
    let mut i: usize = 0;
    while i < bytes.len()
        invariant
            i <= bytes@.len(),
            out@ == hex_of(bytes@.take(i as int)),
            forall|j: int| 0 <= j < out@.len() ==> out@[j] < 128,
        decreases bytes@.len() - i,
    {
        let b = bytes[i];
        let hi: u8 = b / 16;
        let lo: u8 = b % 16;
        out.push(if hi < 10 {
            48 + hi
        } else {
            87 + hi
        });
        out.push(if lo < 10 {
            48 + lo
        } else {
            87 + lo
        });
        i = i + 1;
        proof {
            assert(bytes@.take(i as int).drop_last() =~= bytes@.take(i - 1));
            assert(out@ =~= hex_of(bytes@.take(i as int)));
        }
    }
    proof {
        assert(bytes@.take(i as int) =~= bytes@);
    }
    ascii_to_string(out)
}

/// Value of one hex digit character byte.
pub fn hexchar2byte(c: u8) -> (r: Result<u8, Error>)
    ensures
        match r {
            Ok(v) => is_hex_digit(c) && v == hex_val(c),
            Err(e) => !is_hex_digit(c) && e is Runtime,
        },
{
    if c >= 48 && c <= 57 {
        Ok(c - 48)
    } else if c >= 97 && c <= 102 {
        Ok(c - 87)
    } else if c >= 65 && c <= 70 {
        Ok(c - 55)
    } else {
        Err(Error::Runtime("invalid hex char".to_owned()))
    }
}

/// Parse a hex literal into bytes: ASCII whitespace at the ends and spaces
/// in the middle are ignored; what remains must be an even number of hex
/// digits, two to a byte.
pub fn string_to_bytes(s: &str) -> (r: Result<Vec<u8>, Error>)
    ensures
        match r {
            Ok(v) => {
                &&& hex_cleaned(s.spec_bytes()).len() % 2 == 0
                &&& all_hex_digits(hex_cleaned(s.spec_bytes()))
                &&& v@ == hex_bytes_of(hex_cleaned(s.spec_bytes()))
            },
            Err(e) => !(hex_cleaned(s.spec_bytes()).len() % 2 == 0 && all_hex_digits(
                hex_cleaned(s.spec_bytes()),
            )) && e is Runtime,
        },
{
    let b = s.as_bytes();
    // trim ASCII whitespace from both ends
    let mut lo: usize = 0;
    let mut hi: usize = b.len();
    proof {
        assert(b@.subrange(0, b@.len() as int) =~= b@);
    }
    while lo < hi && byte_is_ws(b[lo])
        invariant
            lo <= hi <= b@.len(),
            trim_front(b@) == trim_front(b@.subrange(lo as int, b@.len() as int)),
            hi == b@.len(),
        decreases hi - lo,
    {
        proof {
            assert(b@.subrange(lo as int, b@.len() as int).skip(1) =~= b@.subrange(
                lo + 1,
                b@.len() as int,
            ));
        }
        lo = lo + 1;
    }
    let ghost front = b@.subrange(lo as int, b@.len() as int);
    proof {
        assert(trim_front(b@) == front);
    }
    while hi > lo && byte_is_ws(b[hi - 1])
        invariant
            lo <= hi <= b@.len(),
            trim_back(front) == trim_back(b@.subrange(lo as int, hi as int)),
            front == b@.subrange(lo as int, b@.len() as int),
        decreases hi,
    {
        proof {
            assert(b@.subrange(lo as int, hi as int).drop_last() =~= b@.subrange(
                lo as int,
                hi - 1,
            ));
        }
        hi = hi - 1;
    }
    let ghost trimmed = b@.subrange(lo as int, hi as int);
    proof {
        assert(trim_ws(b@) == trimmed);
    }
    // drop the spaces that interleave the digit pairs
    let mut cleaned: Vec<u8> = Vec::new();
    let mut i: usize = lo;
    proof {
        assert(trimmed.take(0) =~= Seq::<u8>::empty());
        lemma_drop_spaces_empty();
    }
    while i < hi
        invariant
            lo <= i <= hi <= b@.len(),
            trimmed == b@.subrange(lo as int, hi as int),
            cleaned@ == drop_spaces(trimmed.take(i - lo)),
        decreases hi - i,
    {
        let c = b[i];
        if c != 32 {
            cleaned.push(c);
        }
        i = i + 1;
        proof {
            assert(trimmed.take(i - lo) =~= trimmed.take(i - lo - 1).push(c));
            lemma_drop_spaces_push(trimmed.take(i - lo - 1), c);
        }
    }
    proof {
        assert(trimmed.take(hi - lo) =~= trimmed);
    }
    // now pairs of hex digits
    if cleaned.len() % 2 != 0 {
        return Err(Error::Runtime("invalid hex string (length)".to_owned()));
    }
    let ghost cleaned_view = cleaned@;
    let mut out: Vec<u8> = Vec::new();
    let mut j: usize = 0;
    proof {
        assert(cleaned@.skip(0) =~= cleaned@);
        assert(out@ + hex_bytes_of(cleaned@) =~= hex_bytes_of(cleaned@));
    }
    while j < cleaned.len()
        invariant
            j <= cleaned@.len(),
            j % 2 == 0,
            cleaned@.len() % 2 == 0,
            cleaned@ == hex_cleaned(s.spec_bytes()),
            all_hex_digits(cleaned@.take(j as int)),
            hex_bytes_of(cleaned@) == out@ + hex_bytes_of(cleaned@.skip(j as int)),
        decreases cleaned@.len() - j,
    {
        proof {
            assert(j + 2 <= cleaned@.len()) by {
                vstd::arithmetic::div_mod::lemma_fundamental_div_mod(j as int, 2);
                vstd::arithmetic::div_mod::lemma_fundamental_div_mod(cleaned@.len() as int, 2);
                if j + 1 == cleaned@.len() {
                    assert(2 * (j as int / 2) + 1 == 2 * (cleaned@.len() as int / 2));
                }
            }
        }
        let c0 = cleaned[j];
        let c1 = cleaned[j + 1];
        let hi4 = match hexchar2byte(c0) {
            Ok(v) => v,
            Err(e) => {
                proof {
                    assert(!is_hex_digit(cleaned@[j as int]));
                    assert(!all_hex_digits(cleaned@));
                }
                return Err(e);
            },
        };
        let lo4 = match hexchar2byte(c1) {
            Ok(v) => v,
            Err(e) => {
                proof {
                    assert(!is_hex_digit(cleaned@[j + 1]));
                    assert(!all_hex_digits(cleaned@));
                }
                return Err(e);
            },
        };
        let ghost out_old = out@;
        out.push(hi4 * 16 + lo4);
        proof {
            let rest = cleaned@.skip(j as int);
            assert(rest[0] == cleaned@[j as int]);
            assert(rest[1] == cleaned@[j + 1]);
            assert(rest.skip(2) =~= cleaned@.skip(j + 2));
            assert(hex_bytes_of(rest) == seq![(hex_val(rest[0]) * 16 + hex_val(rest[1])) as u8]
                + hex_bytes_of(rest.skip(2)));
            assert(out@ + hex_bytes_of(cleaned@.skip(j + 2)) =~= out_old + hex_bytes_of(rest));
            assert(all_hex_digits(cleaned@.take(j + 2)));
        }
        j = j + 2;
    }
    proof {
        assert(cleaned@.take(j as int) =~= cleaned@);
        assert(cleaned@.skip(j as int) =~= Seq::<u8>::empty());
        assert(out@ =~= hex_bytes_of(cleaned@));
    }
    Ok(out)
}

fn byte_is_ws(b: u8) -> (r: bool)
    ensures
        r == is_ascii_ws(b),
{
    b == 9 || b == 10 || b == 11 || b == 12 || b == 13 || b == 32
}

/// Length of the longest common prefix of two sequences.
pub open spec fn common_prefix_len<T>(a: Seq<T>, b: Seq<T>) -> nat
    decreases a.len(),
{
    if a.len() > 0 && b.len() > 0 && a[0] == b[0] {
        1 + common_prefix_len(a.skip(1), b.skip(1))
    } else {
        0
    }
}

/// Length of the longest common suffix of two sequences.
pub open spec fn common_suffix_len<T>(a: Seq<T>, b: Seq<T>) -> nat
    decreases a.len(),
{
    if a.len() > 0 && b.len() > 0 && a.last() == b.last() {
        1 + common_suffix_len(a.drop_last(), b.drop_last())
    } else {
        0
    }
}

/// `n` has the two defining properties of the common prefix length.
pub open spec fn is_common_prefix_len<T>(a: Seq<T>, b: Seq<T>, n: int) -> bool {
    &&& 0 <= n <= a.len()
    &&& n <= b.len()
    &&& forall|i: int| 0 <= i < n ==> a[i] == b[i]
    &&& (n < a.len() && n < b.len() ==> a[n] != b[n])
}

pub open spec fn is_common_suffix_len<T>(a: Seq<T>, b: Seq<T>, n: int) -> bool {
    &&& 0 <= n <= a.len()
    &&& n <= b.len()
    &&& forall|j: int| a.len() - n <= j < a.len() ==> #[trigger] a[j] == b[j - a.len() + b.len()]
    &&& (n < a.len() && n < b.len() ==> a[a.len() - n - 1] != b[b.len() - n - 1])
}

pub proof fn lemma_common_prefix_len<T>(a: Seq<T>, b: Seq<T>, n: int)
    requires
        is_common_prefix_len(a, b, n),
    ensures
        n == common_prefix_len(a, b),
    decreases a.len(),
{
    if a.len() > 0 && b.len() > 0 && a[0] == b[0] {
        if n == 0 {
            assert(a[0] != b[0]);
        } else {
            assert(is_common_prefix_len(a.skip(1), b.skip(1), n - 1)) by {
                assert forall|i: int| 0 <= i < n - 1 implies a.skip(1)[i] == b.skip(1)[i] by {
                    assert(a[i + 1] == b[i + 1]);
                }
            }
            lemma_common_prefix_len(a.skip(1), b.skip(1), n - 1);
        }
    } else {
        if n > 0 {
            assert(a[0] == b[0]);
        }
    }
}

pub proof fn lemma_common_suffix_len<T>(a: Seq<T>, b: Seq<T>, n: int)
    requires
        is_common_suffix_len(a, b, n),
    ensures
        n == common_suffix_len(a, b),
    decreases a.len(),
{
    if a.len() > 0 && b.len() > 0 && a.last() == b.last() {
        if n == 0 {
            assert(a[a.len() - 1] != b[b.len() - 1]);
        } else {
            let a1 = a.drop_last();
            let b1 = b.drop_last();
            assert(is_common_suffix_len(a1, b1, n - 1)) by {
                assert forall|j: int| a1.len() - (n - 1) <= j < a1.len() implies #[trigger] a1[j]
                    == b1[j - a1.len() + b1.len()] by {
                    assert(a[j] == b[j - a.len() + b.len()]);
                }
            }
            lemma_common_suffix_len(a1, b1, n - 1);
        }
    } else {
        if n > 0 {
            assert(a[a.len() - 1] == b[b.len() - 1]);
        }
    }
}

/// Number of leading bytes the two slices share.
pub fn common_prefix_bytes(a: &[u8], b: &[u8]) -> (n: usize)
    ensures
        n == common_prefix_len(a@, b@),
        is_common_prefix_len(a@, b@, n as int),
{
    let mut n: usize = 0;
    while n < a.len() && n < b.len() && a[n] == b[n]
        invariant
            n <= a@.len(),
            n <= b@.len(),
            forall|i: int| 0 <= i < n ==> a@[i] == b@[i],
        decreases a@.len() - n,
    {
        n = n + 1;
    }
    proof {
        lemma_common_prefix_len(a@, b@, n as int);
    }
    n
}

/// Number of trailing bytes the two slices share.
pub fn common_suffix_bytes(a: &[u8], b: &[u8]) -> (n: usize)
    ensures
        n == common_suffix_len(a@, b@),
        is_common_suffix_len(a@, b@, n as int),
{
    let mut n: usize = 0;
    while n < a.len() && n < b.len() && a[a.len() - 1 - n] == b[b.len() - 1 - n]
        invariant
            n <= a@.len(),
            n <= b@.len(),
            forall|j: int|
                a@.len() - n <= j < a@.len() ==> #[trigger] a@[j] == b@[j - a@.len() + b@.len()],
        decreases a@.len() - n,
    {
        n = n + 1;
    }
    proof {
        lemma_common_suffix_len(a@, b@, n as int);
    }
    n
}

/// The delta the encoder sends so the decoder can turn `a` into `b`: the
/// replacement text and a signed subtraction length.  Non-negative `sub`
/// strips `sub` items off the back of `a` and appends; `sub < 0` strips
/// `-sub - 1` off the front and prepends.  Ties between the two directions
/// prefer the append form.
pub open spec fn spec_find_delta<T>(a: Seq<T>, b: Seq<T>) -> (Seq<T>, int) {
    let cf = common_prefix_len(a, b) as int;
    let cb = common_suffix_len(a, b) as int;
    if cf == 0 && cb == 0 {
        (b, a.len() as int)
    } else if cb > cf {
        (b.take(b.len() - cb), -(a.len() - cb + 1))
    } else {
        (b.skip(cf), a.len() - cf)
    }
}

/// The tail the encoder sends so the decoder can turn `a` into `b`; the
/// tail may never shorten the value.
pub open spec fn spec_find_tail<T>(a: Seq<T>, b: Seq<T>) -> Option<Seq<T>> {
    if b.len() == a.len() {
        Some(b.skip(common_prefix_len(a, b) as int))
    } else if b.len() > a.len() {
        Some(b)
    } else {
        None
    }
}

/// Find the delta between the previous bytes `a` and the new bytes `b`.
pub fn bytes_delta<'a>(a: &'a [u8], b: &'a [u8]) -> (r: Result<(&'a [u8], i32), Error>)
    requires
        a@.len() < 0x8000_0000,
        b@.len() < 0x8000_0000,
    ensures
        match r {
            Ok((d, sub)) => (d@, sub as int) == spec_find_delta(a@, b@),
            Err(_) => false,
        },
{
    let cf = common_prefix_bytes(a, b);
    let cb = common_suffix_bytes(a, b);
    if cf == 0 && cb == 0 {
        Ok((b, a.len() as i32))
    } else if cf >= cb {
        let delta = &b[cf..b.len()];
        proof {
            assert(delta@ =~= b@.skip(cf as int));
        }
        Ok((delta, (a.len() - cf) as i32))
    } else {
        let idx = b.len() - cb;
        let delta = &b[0..idx];
        proof {
            assert(delta@ =~= b@.take(b@.len() - cb));
        }
        let sub = a.len() - cb;
        Ok((delta, -((sub + 1) as i32)))
    }
}

/// Find the delta between the previous string `a` and the new string `b`.
pub fn string_delta<'a>(a: &'a str, b: &'a str) -> (r: Result<(&'a str, i32), Error>)
    requires
        a@.len() < 0x8000_0000,
        b@.len() < 0x8000_0000,
        a.is_ascii(),
        b.is_ascii(),
    ensures
        match r {
            Ok((d, sub)) => (d@, sub as int) == spec_find_delta(a@, b@),
            Err(_) => false,
        },
{
    proof {
        broadcast use vstd::string::is_ascii_spec_bytes;

    }
    let ab = a.as_bytes();
    let bb = b.as_bytes();
    let cf = common_prefix_bytes(ab, bb);
    let cb = common_suffix_bytes(ab, bb);
    proof {
        lemma_ascii_common(a@, b@, ab@, bb@);
    }
    if cf == 0 && cb == 0 {
        Ok((b, a.unicode_len() as i32))
    } else if cb > cf {
        let idx = b.unicode_len() - cb;
        let delta = b.substring_ascii(0, idx);
        proof {
            assert(delta@ =~= b@.take(b@.len() - cb));
        }
        let sub = a.unicode_len() - cb;
        Ok((delta, -((sub + 1) as i32)))
    } else {
        let delta = b.substring_ascii(cf, b.unicode_len());
        proof {
            assert(delta@ =~= b@.skip(cf as int));
        }
        Ok((delta, (a.unicode_len() - cf) as i32))
    }
}

/// For ASCII strings the byte view and the char view share their common
/// prefix and suffix lengths.
proof fn lemma_ascii_common(a: Seq<char>, b: Seq<char>, ab: Seq<u8>, bb: Seq<u8>)
    requires
        vstd::utf8::is_ascii_chars(a),
        vstd::utf8::is_ascii_chars(b),
        ab.len() == a.len(),
        bb.len() == b.len(),
        forall|i: int| 0 <= i < a.len() ==> ab[i] == #[trigger] (a[i] as u8),
        forall|i: int| 0 <= i < b.len() ==> bb[i] == #[trigger] (b[i] as u8),
    ensures
        common_prefix_len(ab, bb) == common_prefix_len(a, b),
        common_suffix_len(ab, bb) == common_suffix_len(a, b),
{
    broadcast use vstd::utf8::char_is_scalar;

    let np = common_prefix_len(ab, bb) as int;
    assert(is_common_prefix_len(ab, bb, np)) by {
        lemma_prefix_props(ab, bb);
    }
    assert(is_common_prefix_len(a, b, np)) by {
        assert forall|i: int| 0 <= i < np implies a[i] == b[i] by {
            assert(ab[i] == bb[i]);
            lemma_ascii_char_eq(a[i], b[i]);
        }
        if np < a.len() && np < b.len() {
            assert(ab[np] != bb[np]);
            lemma_ascii_char_eq_contra(a[np], b[np]);
        }
    }
    lemma_common_prefix_len(a, b, np);
    let ns = common_suffix_len(ab, bb) as int;
    assert(is_common_suffix_len(ab, bb, ns)) by {
        lemma_suffix_props(ab, bb);
    }
    assert(is_common_suffix_len(a, b, ns)) by {
        assert forall|j: int| a.len() - ns <= j < a.len() implies #[trigger] a[j] == b[j - a.len()
            + b.len()] by {
            assert(ab[j] == bb[j - a.len() + b.len()]);
            lemma_ascii_char_eq(a[j], b[j - a.len() + b.len()]);
        }
        if ns < a.len() && ns < b.len() {
            assert(ab[ab.len() - ns - 1] != bb[bb.len() - ns - 1]);
            lemma_ascii_char_eq_contra(a[a.len() - ns - 1], b[b.len() - ns - 1]);
        }
    }
    lemma_common_suffix_len(a, b, ns);
}

/// Characters below 128 differ when their byte codes do.
proof fn lemma_ascii_char_eq_contra(x: char, y: char)
    requires
        '\0' <= x <= '\u{7f}',
        '\0' <= y <= '\u{7f}',
        x as u8 != y as u8,
    ensures
        x != y,
{
}

/// Characters below 128 are equal exactly when their byte codes are.
proof fn lemma_ascii_char_eq(x: char, y: char)
    requires
        '\0' <= x <= '\u{7f}',
        '\0' <= y <= '\u{7f}',
        x as u8 == y as u8,
    ensures
        x == y,
{
    broadcast use vstd::utf8::char_is_scalar;

    assert(x as u32 <= 127);
    assert(y as u32 <= 127);
    assert(x as u32 == (x as u8) as u32);
    assert(y as u32 == (y as u8) as u32);
    vstd::utf8::char_u32_cast(x, x as u32);
    vstd::utf8::char_u32_cast(y, y as u32);
}

/// The recursive common-prefix length satisfies its own characterization.
pub proof fn lemma_prefix_props<T>(a: Seq<T>, b: Seq<T>)
    ensures
        is_common_prefix_len(a, b, common_prefix_len(a, b) as int),
    decreases a.len(),
{
    if a.len() > 0 && b.len() > 0 && a[0] == b[0] {
        lemma_prefix_props(a.skip(1), b.skip(1));
        let n = common_prefix_len(a, b) as int;
        assert forall|i: int| 0 <= i < n implies a[i] == b[i] by {
            if i > 0 {
                assert(a.skip(1)[i - 1] == b.skip(1)[i - 1]);
            }
        }
        if n < a.len() && n < b.len() {
            assert(a.skip(1)[n - 1] != b.skip(1)[n - 1]);
        }
    }
}

pub proof fn lemma_suffix_props<T>(a: Seq<T>, b: Seq<T>)
    ensures
        is_common_suffix_len(a, b, common_suffix_len(a, b) as int),
    decreases a.len(),
{
    if a.len() > 0 && b.len() > 0 && a.last() == b.last() {
        lemma_suffix_props(a.drop_last(), b.drop_last());
        let a1 = a.drop_last();
        let b1 = b.drop_last();
        let n = common_suffix_len(a, b) as int;
        assert forall|j: int| a.len() - n <= j < a.len() implies #[trigger] a[j] == b[j - a.len()
            + b.len()] by {
            if j < a.len() - 1 {
                assert(a1[j] == b1[j - a1.len() + b1.len()]);
            }
        }
        if n < a.len() && n < b.len() {
            assert(a1[a1.len() - (n - 1) - 1] != b1[b1.len() - (n - 1) - 1]);
        }
    }
}

/// Find the tail between the previous bytes `a` and the new bytes `b`.
pub fn bytes_tail<'a>(a: &'a [u8], b: &'a [u8]) -> (r: Result<&'a [u8], Error>)
    ensures
        match r {
            Ok(t) => spec_find_tail(a@, b@) == Some(t@),
            Err(_) => spec_find_tail(a@, b@) is None,
        },
{
    if b.len() == a.len() {
        let cf = common_prefix_bytes(a, b);
        let t = &b[cf..b.len()];
        proof {
            assert(t@ =~= b@.skip(cf as int));
        }
        Ok(t)
    } else if b.len() > a.len() {
        Ok(b)
    } else {
        Err(Error::Dynamic("tail: next value length is less than the previous one".to_owned()))
    }
}

/// Find the tail between the previous string `a` and the new string `b`.
pub fn string_tail<'a>(a: &'a str, b: &'a str) -> (r: Result<&'a str, Error>)
    requires
        a.is_ascii(),
        b.is_ascii(),
    ensures
        match r {
            Ok(t) => spec_find_tail(a@, b@) == Some(t@),
            Err(_) => spec_find_tail(a@, b@) is None,
        },
{
    proof {
        broadcast use vstd::string::is_ascii_spec_bytes;

    }
    if b.unicode_len() == a.unicode_len() {
        let ab = a.as_bytes();
        let bb = b.as_bytes();
        let cf = common_prefix_bytes(ab, bb);
        proof {
            lemma_ascii_common(a@, b@, ab@, bb@);
        }
        let t = b.substring_ascii(cf, b.unicode_len());
        proof {
            assert(t@ =~= b@.skip(cf as int));
        }
        Ok(t)
    } else if b.unicode_len() > a.unicode_len() {
        Ok(b)
    } else {
        Err(Error::Dynamic("tail: next value length is less than the previous one".to_owned()))
    }
}

/// Character-exact string equality, decided on the UTF-8 bytes.
pub fn str_eq(a: &str, b: &str) -> (r: bool)
    ensures
        r == (a@ == b@),
{
    let ab = a.as_bytes();
    let bb = b.as_bytes();
    if ab.len() != bb.len() {
        proof {
            if a@ == b@ {
                assert(a.spec_bytes() == b.spec_bytes());
            }
        }
        return false;
    }
    let mut i: usize = 0;
    while i < ab.len()
        invariant
            i <= ab@.len(),
            ab@.len() == bb@.len(),
            ab@ == a.spec_bytes(),
            bb@ == b.spec_bytes(),
            forall|j: int| 0 <= j < i ==> ab@[j] == bb@[j],
        decreases ab@.len() - i,
    {
        if ab[i] != bb[i] {
            proof {
                if a@ == b@ {
                    assert(a.spec_bytes() == b.spec_bytes());
                    assert(ab@[i as int] == bb@[i as int]);
                }
            }
            return false;
        }
        i = i + 1;
    }
    proof {
        assert(ab@ =~= bb@);
        assert(vstd::utf8::encode_utf8(a@) == vstd::utf8::encode_utf8(b@));
        assert(vstd::utf8::decode_utf8(vstd::utf8::encode_utf8(a@)) == a@);
        assert(vstd::utf8::decode_utf8(vstd::utf8::encode_utf8(b@)) == b@);
    }
    true
}

proof fn lemma_drop_spaces_empty()
    ensures
        drop_spaces(Seq::<u8>::empty()) == Seq::<u8>::empty(),
{
    reveal(Seq::filter);
}

proof fn lemma_drop_spaces_push(s: Seq<u8>, c: u8)
    ensures
        drop_spaces(s.push(c)) == if c != 32 {
            drop_spaces(s).push(c)
        } else {
            drop_spaces(s)
        },
{
    reveal(Seq::filter);
    assert(s.push(c).drop_last() =~= s);
    assert(s.push(c).last() == c);
}

} // verus!
