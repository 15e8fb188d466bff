//! The decoder's half of the bit codec: reading stop-bit integers, strings,
//! byte vectors and presence maps out of a byte buffer.
use vstd::prelude::*;
use vstd::utf8::{decode_utf8, valid_utf8};

use crate::errors::Error;
use crate::numstr::ascii_to_string;
use crate::value::utf8_to_string;
use crate::wirespec::{uval64, uval64_from};

verus! {

/// Position of the first stop byte (high bit set) at or after `from`.
pub open spec fn find_stop(s: Seq<u8>, from: int) -> Option<int>
    decreases s.len() - from,
{
    if from < 0 || from >= s.len() {
        None
    } else if s[from] >= 128 {
        Some(from)
    } else {
        find_stop(s, from + 1)
    }
}

/// The low seven bits of every byte.
pub open spec fn low7(s: Seq<u8>) -> Seq<u8> {
    s.map_values(|b: u8| (b % 128) as u8)
}

pub proof fn lemma_find_stop_in_range(s: Seq<u8>, from: int)
    requires
        0 <= from,
    ensures
        find_stop(s, from) is Some ==> from <= find_stop(s, from)->0 < s.len() && s[find_stop(
            s,
            from,
        )->0] >= 128,
    decreases s.len() - from,
{
    if from < s.len() && s[from] < 128 {
        lemma_find_stop_in_range(s, from + 1);
    }
}

/// A cursor over the bytes of one message.
pub struct ByteReader<'a> {
    pub data: &'a [u8],
    pub pos: usize,
}

impl<'a> ByteReader<'a> {
    pub open spec fn wf(&self) -> bool {
        self.pos <= self.data@.len()
    }

    pub fn new(data: &'a [u8]) -> (r: ByteReader<'a>)
        ensures
            r.data@ == data@,
            r.pos == 0,
            r.wf(),
    {
        ByteReader { data, pos: 0 }
    }

    /// How many bytes are left unread.
    pub fn remaining(&self) -> (r: usize)
        requires
            self.wf(),
        ensures
            r == self.data@.len() - self.pos,
    {
        self.data.len() - self.pos
    }

    pub fn read_u8(&mut self) -> (r: Result<u8, Error>)
        requires
            old(self).wf(),
        ensures
            final(self).data == old(self).data,
            final(self).wf(),
            match r {
                Ok(b) => old(self).pos < old(self).data@.len() && b == old(self).data@[old(self).pos as int] && final(self).pos == old(self).pos + 1,
                Err(e) => e is UnexpectedEof && old(self).pos == old(self).data@.len() && final(self).pos == old(self).pos,
            },
    {
        if self.pos >= self.data.len() {
            return Err(Error::UnexpectedEof);
        }
        let b = self.data[self.pos];
        self.pos = self.pos + 1;
        Ok(b)
    }

    /// Read a stop-bit unsigned integer: 7 bits a byte, high bits first,
    /// wrapping past 64 bits as the register does.
    pub fn read_uint(&mut self) -> (r: Result<u64, Error>)
        requires
            old(self).wf(),
        ensures
            final(self).data == old(self).data,
            final(self).wf(),
            final(self).pos >= old(self).pos,
            match r {
                Ok(v) => {
                    let stop = find_stop(old(self).data@, old(self).pos as int);
                    &&& stop is Some
                    &&& final(self).pos == stop->0 + 1
                    &&& v as nat == uval64(
                        old(self).data@.subrange(old(self).pos as int, stop->0 + 1),
                    )
                },
                Err(e) => e is UnexpectedEof && find_stop(old(self).data@, old(self).pos as int)
                    is None && final(self).pos == old(self).data@.len(),
            },
    {
        let ghost from = self.pos as int;
        let ghost s = self.data@;
        let mut acc: u64 = 0;
        let mut i: usize = self.pos;
        proof {
            assert(s.subrange(from, from) =~= Seq::<u8>::empty());
        }
        while i < self.data.len()
            invariant
                self.wf(),
                self.data == old(self).data,
                s == self.data@,
                from == old(self).pos,
                from <= i <= s.len(),
                self.pos == i,
                acc as nat == uval64(s.subrange(from, i as int)),
                find_stop(s, from) == find_stop(s, i as int),
                forall|j: int| from <= j < i ==> s[j] < 128,
            decreases s.len() - i,
        {
            let b = self.data[i];
            proof {
                lemma_uval64_step(s, from, i as int);
                vstd::arithmetic::div_mod::lemma_add_mod_noop(
                    acc as int * 128,
                    (b % 128) as int,
                    0x1_0000_0000_0000_0000,
                );
                vstd::arithmetic::div_mod::lemma_small_mod(
                    (b % 128) as nat,
                    0x1_0000_0000_0000_0000nat,
                );
            }
            acc = acc.wrapping_mul(128).wrapping_add((b % 128) as u64);
            i = i + 1;
            self.pos = i;
            if b >= 128 {
                return Ok(acc);
            }
        }
        Err(Error::UnexpectedEof)
    }

    /// Read a nullable unsigned integer: zero is null, the rest shift down.
    pub fn read_uint_nullable(&mut self) -> (r: Result<Option<u64>, Error>)
        requires
            old(self).wf(),
        ensures
            final(self).data == old(self).data,
            final(self).wf(),
            final(self).pos >= old(self).pos,
            match r {
                Ok(v) => {
                    let stop = find_stop(old(self).data@, old(self).pos as int);
                    let raw = uval64(old(self).data@.subrange(old(self).pos as int, stop->0 + 1));
                    &&& stop is Some
                    &&& final(self).pos == stop->0 + 1
                    &&& v == if raw == 0 {
                        Option::<u64>::None
                    } else {
                        Option::Some((raw - 1) as u64)
                    }
                },
                Err(e) => e is UnexpectedEof && find_stop(old(self).data@, old(self).pos as int)
                    is None && final(self).pos == old(self).data@.len(),
            },
    {
        match self.read_uint() {
            Ok(v) => if v == 0 {
                Ok(None)
            } else {
                Ok(Some(v - 1))
            },
            Err(e) => Err(e),
        }
    }

    /// Read a stop-bit signed integer: bit 6 of the first byte carries the
    /// sign, which is extended before the 7-bit groups accumulate.
    pub fn read_int(&mut self) -> (r: Result<i64, Error>)
        requires
            old(self).wf(),
        ensures
            final(self).data == old(self).data,
            final(self).wf(),
            final(self).pos >= old(self).pos,
            match r {
                Ok(v) => {
                    let stop = find_stop(old(self).data@, old(self).pos as int);
                    &&& stop is Some
                    &&& final(self).pos == stop->0 + 1
                    &&& v as int == crate::wirespec::sval64(
                        old(self).data@.subrange(old(self).pos as int, stop->0 + 1),
                    )
                },
                Err(e) => e is UnexpectedEof && find_stop(old(self).data@, old(self).pos as int)
                    is None && final(self).pos == old(self).data@.len(),
            },
    {
        let ghost from = self.pos as int;
        let ghost s = self.data@;
        if self.pos >= self.data.len() {
            return Err(Error::UnexpectedEof);
        }
        let first = self.data[self.pos];
        let ghost init: nat = if (first / 64) % 2 == 1 {
            0xffff_ffff_ffff_ffffnat
        } else {
            0nat
        };
        let mut acc: u64 = if (first / 64) % 2 == 1 {
            0xffff_ffff_ffff_ffffu64
        } else {
            0u64
        };
        let mut i: usize = self.pos;
        proof {
            assert(s.subrange(from, from) =~= Seq::<u8>::empty());
        }
        while i < self.data.len()
            invariant
                self.wf(),
                self.data == old(self).data,
                s == self.data@,
                from == old(self).pos,
                from <= i <= s.len(),
                self.pos == i,
                from < s.len(),
                acc as nat == uval64_from(init, s.subrange(from, i as int)),
                init == if (s[from] / 64) % 2 == 1 {
                    0xffff_ffff_ffff_ffffnat
                } else {
                    0nat
                },
                find_stop(s, from) == find_stop(s, i as int),
                forall|j: int| from <= j < i ==> s[j] < 128,
            decreases s.len() - i,
        {
            let b = self.data[i];
            proof {
                lemma_uval64_from_step(init, s, from, i as int);
                vstd::arithmetic::div_mod::lemma_add_mod_noop(
                    acc as int * 128,
                    (b % 128) as int,
                    0x1_0000_0000_0000_0000,
                );
                vstd::arithmetic::div_mod::lemma_small_mod(
                    (b % 128) as nat,
                    0x1_0000_0000_0000_0000nat,
                );
            }
            acc = acc.wrapping_mul(128).wrapping_add((b % 128) as u64);
            i = i + 1;
            self.pos = i;
            if b >= 128 {
                let v: i64 = if acc >= 0x8000_0000_0000_0000u64 {
                    let m: u64 = 0xffff_ffff_ffff_ffffu64 - acc;
                    -(m as i64) - 1
                } else {
                    acc as i64
                };
                return Ok(v);
            }
        }
        Err(Error::UnexpectedEof)
    }

    /// Read a nullable signed integer: zero is null, positives shift down.
    pub fn read_int_nullable(&mut self) -> (r: Result<Option<i64>, Error>)
        requires
            old(self).wf(),
        ensures
            final(self).data == old(self).data,
            final(self).wf(),
            final(self).pos >= old(self).pos,
            match r {
                Ok(v) => {
                    let stop = find_stop(old(self).data@, old(self).pos as int);
                    let raw = crate::wirespec::sval64(
                        old(self).data@.subrange(old(self).pos as int, stop->0 + 1),
                    );
                    &&& stop is Some
                    &&& final(self).pos == stop->0 + 1
                    &&& v == if raw == 0 {
                        Option::<i64>::None
                    } else if raw > 0 {
                        Option::Some((raw - 1) as i64)
                    } else {
                        Option::Some(raw as i64)
                    }
                },
                Err(e) => e is UnexpectedEof && find_stop(old(self).data@, old(self).pos as int)
                    is None && final(self).pos == old(self).data@.len(),
            },
    {
        match self.read_int() {
            Ok(v) => if v > 0 {
                Ok(Some(v - 1))
            } else if v < 0 {
                Ok(Some(v))
            } else {
                Ok(None)
            },
            Err(e) => Err(e),
        }
    }

    /// Read a presence map: the stop-bit run's payload bits and their count.
    /// A clean end of input before the first byte reports `Eof`, the signal
    /// that the stream ended between messages.
    pub fn read_presence_map(&mut self) -> (r: Result<(u64, u64), Error>)
        requires
            old(self).wf(),
            old(self).data@.len() < 0x1000_0000_0000_0000,
        ensures
            final(self).data == old(self).data,
            final(self).wf(),
            final(self).pos >= old(self).pos,
            match r {
                Ok((bitmap, size)) => {
                    let stop = find_stop(old(self).data@, old(self).pos as int);
                    &&& stop is Some
                    &&& final(self).pos == stop->0 + 1
                    &&& final(self).pos > old(self).pos
                    &&& bitmap as nat == uval64(
                        old(self).data@.subrange(old(self).pos as int, stop->0 + 1),
                    )
                    &&& size == 7 * (stop->0 + 1 - old(self).pos)
                },
                Err(e) => {
                    &&& find_stop(old(self).data@, old(self).pos as int) is None
                    &&& (e is Eof <==> old(self).pos == old(self).data@.len())
                    &&& (e is Eof || e is UnexpectedEof)
                    &&& final(self).pos == old(self).data@.len()
                },
            },
    {
        if self.pos >= self.data.len() {
            return Err(Error::Eof);
        }
        let start = self.pos;
        match self.read_uint() {
            Ok(bitmap) => {
                proof {
                    lemma_find_stop_in_range(self.data@, start as int);
                }
                let size: u64 = 7 * ((self.pos - start) as u64);
                Ok((bitmap, size))
            },
            Err(e) => Err(e),
        }
    }

    /// Read a mandatory ASCII string: 7-bit characters, the stop bit on the
    /// last; the single byte `0x80` is the empty string.
    pub fn read_ascii_string(&mut self) -> (r: Result<String, Error>)
        requires
            old(self).wf(),
        ensures
            final(self).data == old(self).data,
            final(self).wf(),
            final(self).pos >= old(self).pos,
            match r {
                Ok(v) => {
                    let stop = find_stop(old(self).data@, old(self).pos as int);
                    &&& old(self).pos < old(self).data@.len()
                    &&& if old(self).data@[old(self).pos as int] == 128 {
                        v@ == Seq::<char>::empty() && final(self).pos == old(self).pos + 1
                    } else {
                        &&& stop is Some
                        &&& final(self).pos == stop->0 + 1
                        &&& v@ == crate::numstr::bytes_as_chars(
                            low7(old(self).data@.subrange(old(self).pos as int, stop->0 + 1)),
                        )
                    }
                },
                Err(e) => e is UnexpectedEof && find_stop(old(self).data@, old(self).pos as int)
                    is None && final(self).pos == old(self).data@.len(),
            },
    {
        let ghost from = self.pos as int;
        let ghost s = self.data@;
        if self.pos >= self.data.len() {
            self.pos = self.data.len();
            return Err(Error::UnexpectedEof);
        }
        let first = self.data[self.pos];
        if first == 0x80 {
            self.pos = self.pos + 1;
            let empty_buf: Vec<u8> = Vec::new();
            let out = ascii_to_string(empty_buf);
            proof {
                assert(out@ =~= Seq::<char>::empty());
            }
            return Ok(out);
        }
        match self.read_ascii_run() {
            Ok(buf) => Ok(ascii_to_string(buf)),
            Err(e) => Err(e),
        }
    }

    /// Read a nullable ASCII string: `0x80` is null, `0x00 0x80` the empty
    /// string; any other leading `0x00` byte is dropped, as the transfer
    /// encoding's overlong form does.
    pub fn read_ascii_string_nullable(&mut self) -> (r: Result<Option<String>, Error>)
        requires
            old(self).wf(),
        ensures
            final(self).data == old(self).data,
            final(self).wf(),
            final(self).pos >= old(self).pos,
            match r {
                Ok(v) => {
                    let s = old(self).data@;
                    let p = old(self).pos as int;
                    &&& p < s.len()
                    &&& if s[p] == 128 {
                        v is None && final(self).pos == p + 1
                    } else if s[p] == 0 {
                        &&& p + 1 < s.len()
                        &&& if s[p + 1] == 128 {
                            v is Some && v->0@ == Seq::<char>::empty() && final(self).pos == p + 2
                        } else {
                            let stop = find_stop(s, p + 1);
                            &&& stop is Some
                            &&& final(self).pos == stop->0 + 1
                            &&& v is Some
                            &&& v->0@ == crate::numstr::bytes_as_chars(
                                low7(s.subrange(p + 1, stop->0 + 1)),
                            )
                        }
                    } else {
                        let stop = find_stop(s, p);
                        &&& stop is Some
                        &&& final(self).pos == stop->0 + 1
                        &&& v is Some
                        &&& v->0@ == crate::numstr::bytes_as_chars(
                            low7(s.subrange(p, stop->0 + 1)),
                        )
                    }
                },
                Err(e) => e is UnexpectedEof,
            },
    {
        if self.pos >= self.data.len() {
            self.pos = self.data.len();
            return Err(Error::UnexpectedEof);
        }
        let first = self.data[self.pos];
        if first == 0x80 {
            self.pos = self.pos + 1;
            return Ok(None);
        }
        if first == 0x00 {
            self.pos = self.pos + 1;
            if self.pos >= self.data.len() {
                self.pos = self.data.len();
                return Err(Error::UnexpectedEof);
            }
            let second = self.data[self.pos];
            if second == 0x80 {
                self.pos = self.pos + 1;
                let empty_buf: Vec<u8> = Vec::new();
                let out = ascii_to_string(empty_buf);
                proof {
                    assert(out@ =~= Seq::<char>::empty());
                }
                return Ok(Some(out));
            }
            match self.read_ascii_run() {
                Ok(buf) => Ok(Some(ascii_to_string(buf))),
                Err(e) => Err(e),
            }
        } else {
            match self.read_ascii_run() {
                Ok(buf) => Ok(Some(ascii_to_string(buf))),
                Err(e) => Err(e),
            }
        }
    }

    /// Collect the 7-bit payloads of a stop-bit run.
    fn read_ascii_run(&mut self) -> (r: Result<Vec<u8>, Error>)
        requires
            old(self).wf(),
        ensures
            final(self).data == old(self).data,
            final(self).wf(),
            final(self).pos >= old(self).pos,
            match r {
                Ok(v) => {
                    let stop = find_stop(old(self).data@, old(self).pos as int);
                    &&& stop is Some
                    &&& final(self).pos == stop->0 + 1
                    &&& v@ == low7(old(self).data@.subrange(old(self).pos as int, stop->0 + 1))
                    &&& forall|j: int| 0 <= j < v@.len() ==> v@[j] < 128
                },
                Err(e) => e is UnexpectedEof && find_stop(old(self).data@, old(self).pos as int)
                    is None && final(self).pos == old(self).data@.len(),
            },
    {
        let ghost from = self.pos as int;
        let ghost s = self.data@;
        let mut buf: Vec<u8> = Vec::new();
        let mut i: usize = self.pos;
        proof {
            assert(low7(s.subrange(from, from)) =~= Seq::<u8>::empty());
        }
        while i < self.data.len()
            invariant
                self.wf(),
                self.data == old(self).data,
                s == self.data@,
                from == old(self).pos,
                from <= i <= s.len(),
                self.pos == i,
                buf@ == low7(s.subrange(from, i as int)),
                forall|j: int| 0 <= j < buf@.len() ==> buf@[j] < 128,
                find_stop(s, from) == find_stop(s, i as int),
            decreases s.len() - i,
        {
            let b = self.data[i];
            buf.push(b % 128);
            i = i + 1;
            self.pos = i;
            proof {
                assert(s.subrange(from, i as int).drop_last() =~= s.subrange(from, i - 1));
                assert(buf@ =~= low7(s.subrange(from, i as int)));
            }
            if b >= 128 {
                return Ok(buf);
            }
        }
        Err(Error::UnexpectedEof)
    }

    /// Read a mandatory byte vector: an unsigned length, then the raw bytes.
    pub fn read_bytes(&mut self) -> (r: Result<Vec<u8>, Error>)
        requires
            old(self).wf(),
        ensures
            final(self).data == old(self).data,
            final(self).wf(),
            final(self).pos >= old(self).pos,
            match r {
                Ok(v) => {
                    let stop = find_stop(old(self).data@, old(self).pos as int);
                    let len = uval64(old(self).data@.subrange(old(self).pos as int, stop->0 + 1));
                    &&& stop is Some
                    &&& stop->0 + 1 + len <= old(self).data@.len()
                    &&& final(self).pos == stop->0 + 1 + len
                    &&& v@ == old(self).data@.subrange(stop->0 + 1, stop->0 + 1 + len)
                },
                Err(e) => e is UnexpectedEof,
            },
    {
        let len = match self.read_uint() {
            Ok(l) => l,
            Err(e) => {
                return Err(e);
            },
        };
        self.take_bytes(len)
    }

    /// Read a nullable byte vector: a nullable length, then the raw bytes.
    pub fn read_bytes_nullable(&mut self) -> (r: Result<Option<Vec<u8>>, Error>)
        requires
            old(self).wf(),
        ensures
            final(self).data == old(self).data,
            final(self).wf(),
            final(self).pos >= old(self).pos,
            match r {
                Ok(v) => {
                    let stop = find_stop(old(self).data@, old(self).pos as int);
                    let raw = uval64(old(self).data@.subrange(old(self).pos as int, stop->0 + 1));
                    &&& stop is Some
                    &&& if raw == 0 {
                        v is None && final(self).pos == stop->0 + 1
                    } else {
                        &&& stop->0 + raw <= old(self).data@.len()
                        &&& final(self).pos == stop->0 + raw
                        &&& v is Some
                        &&& v->0@ == old(self).data@.subrange(stop->0 + 1, stop->0 + raw)
                    }
                },
                Err(e) => e is UnexpectedEof,
            },
    {
        let raw = match self.read_uint() {
            Ok(l) => l,
            Err(e) => {
                return Err(e);
            },
        };
        if raw == 0 {
            return Ok(None);
        }
        match self.take_bytes(raw - 1) {
            Ok(v) => Ok(Some(v)),
            Err(e) => Err(e),
        }
    }

    /// Read a mandatory Unicode string: a byte vector that must be UTF-8.
    pub fn read_unicode_string(&mut self) -> (r: Result<String, Error>)
        requires
            old(self).wf(),
        ensures
            final(self).data == old(self).data,
            final(self).wf(),
            final(self).pos >= old(self).pos,
            match r {
                Ok(v) => {
                    let stop = find_stop(old(self).data@, old(self).pos as int);
                    let len = uval64(old(self).data@.subrange(old(self).pos as int, stop->0 + 1));
                    let raw = old(self).data@.subrange(stop->0 + 1, stop->0 + 1 + len);
                    &&& stop is Some
                    &&& stop->0 + 1 + len <= old(self).data@.len()
                    &&& final(self).pos == stop->0 + 1 + len
                    &&& valid_utf8(raw)
                    &&& v@ == decode_utf8(raw)
                },
                Err(e) => e is UnexpectedEof || e is Dynamic,
            },
    {
        match self.read_bytes() {
            Ok(b) => utf8_to_string(b),
            Err(e) => Err(e),
        }
    }

    /// Read a nullable Unicode string.
    pub fn read_unicode_string_nullable(&mut self) -> (r: Result<Option<String>, Error>)
        requires
            old(self).wf(),
        ensures
            final(self).data == old(self).data,
            final(self).wf(),
            final(self).pos >= old(self).pos,
            match r {
                Ok(v) => {
                    let stop = find_stop(old(self).data@, old(self).pos as int);
                    let raw = uval64(old(self).data@.subrange(old(self).pos as int, stop->0 + 1));
                    &&& stop is Some
                    &&& if raw == 0 {
                        v is None && final(self).pos == stop->0 + 1
                    } else {
                        let bytes = old(self).data@.subrange(stop->0 + 1, stop->0 + raw);
                        &&& stop->0 + raw <= old(self).data@.len()
                        &&& final(self).pos == stop->0 + raw
                        &&& v is Some
                        &&& valid_utf8(bytes)
                        &&& v->0@ == decode_utf8(bytes)
                    }
                },
                Err(e) => e is UnexpectedEof || e is Dynamic,
            },
    {
        match self.read_bytes_nullable() {
            Ok(None) => Ok(None),
            Ok(Some(b)) => match utf8_to_string(b) {
                Ok(s) => Ok(Some(s)),
                Err(e) => Err(e),
            },
            Err(e) => Err(e),
        }
    }

    /// Copy the next `len` bytes out of the buffer.
    fn take_bytes(&mut self, len: u64) -> (r: Result<Vec<u8>, Error>)
        requires
            old(self).wf(),
        ensures
            final(self).data == old(self).data,
            final(self).wf(),
            final(self).pos >= old(self).pos,
            match r {
                Ok(v) => old(self).pos + len <= old(self).data@.len() && final(self).pos == old(self).pos + len && v@ == old(self).data@.subrange(
                    old(self).pos as int,
                    old(self).pos + len,
                ),
                Err(e) => e is UnexpectedEof && old(self).pos + len > old(self).data@.len()
                    && final(self).pos == old(self).data@.len(),
            },
    {
        let avail = self.data.len() - self.pos;
        if len > avail as u64 {
            self.pos = self.data.len();
            return Err(Error::UnexpectedEof);
        }
        let n = len as usize;
        let mut out: Vec<u8> = Vec::new();
        let ghost from = self.pos as int;
        let mut i: usize = 0;
        while i < n
            invariant
                self.wf(),
                self.data == old(self).data,
                from == old(self).pos,
                n == len,
                from + n <= self.data@.len(),
                self.pos == from,
                i <= n,
                out@ == self.data@.subrange(from, from + i),
            decreases n - i,
        {
            out.push(self.data[self.pos + i]);
            i = i + 1;
            proof {
                assert(out@ =~= self.data@.subrange(from, from + i));
            }
        }
        self.pos = self.pos + n;
        Ok(out)
    }
}

proof fn lemma_uval64_step(s: Seq<u8>, from: int, i: int)
    requires
        0 <= from <= i < s.len(),
    ensures
        uval64(s.subrange(from, i + 1)) == (uval64(s.subrange(from, i)) * 128 + (s[i] % 128))
            % 0x1_0000_0000_0000_0000,
{
    assert(s.subrange(from, i + 1).drop_last() =~= s.subrange(from, i));
    assert(s.subrange(from, i + 1).last() == s[i]);
}

proof fn lemma_uval64_from_step(init: nat, s: Seq<u8>, from: int, i: int)
    requires
        0 <= from <= i < s.len(),
    ensures
        uval64_from(init, s.subrange(from, i + 1)) == (uval64_from(init, s.subrange(from, i)) * 128
            + (s[i] % 128)) % 0x1_0000_0000_0000_0000,
{
    assert(s.subrange(from, i + 1).drop_last() =~= s.subrange(from, i));
    assert(s.subrange(from, i + 1).last() == s[i]);
}

} // verus!
