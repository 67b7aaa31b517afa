//! The primitive codec: endianness-aware reads and writes of integers,
//! booleans, GUIDs and length-prefixed strings over a position-tracked byte
//! stream.
//!
//! Every read states which bytes it consumed, as the little-endian encoding
//! of the value it returned; every write states which bytes it appended.
//! Chaining those contracts yields byte-exact round trips for whole property
//! trees.

use vstd::prelude::*;
use vstd::bytes::{
    spec_u32_to_le_bytes, spec_u64_to_le_bytes, u32_from_le_bytes, u32_to_le_bytes,
    u64_from_le_bytes, u64_to_le_bytes, lemma_auto_spec_u32_to_from_le_bytes,
    lemma_auto_spec_u64_to_from_le_bytes,
};

use crate::error::{Error, ErrorCode};
use vstd::string::StrSliceExecFns;

verus! {

broadcast use vstd::string::is_ascii_spec_bytes;

/// Relies on String::push: appends the given character to the end of the
/// string.
pub assume_specification[ String::push ](s: &mut String, ch: char)
    ensures
        final(s)@ == old(s)@.push(ch),
;

/// The 32-bit value whose little-endian encoding is the given four bytes.
pub open spec fn dec_u32(b: Seq<u8>) -> u32 {
    choose|x: u32| spec_u32_to_le_bytes(x) == b
}

/// `dec_u32` inverts the little-endian encoding.
pub proof fn lemma_dec_u32_inverse(x: u32)
    ensures
        dec_u32(spec_u32_to_le_bytes(x)) == x,
{
    lemma_auto_spec_u32_to_from_le_bytes();
    let b = spec_u32_to_le_bytes(x);
    assert(spec_u32_to_le_bytes(x) == b);
    let y = dec_u32(b);
    assert(spec_u32_to_le_bytes(y) == b);
    assert(vstd::bytes::spec_u32_from_le_bytes(spec_u32_to_le_bytes(y)) == y);
    assert(vstd::bytes::spec_u32_from_le_bytes(spec_u32_to_le_bytes(x)) == x);
}

/// The little-endian wire form of a signed 32-bit integer.
pub open spec fn le_i32(x: i32) -> Seq<u8> {
    spec_u32_to_le_bytes(x as u32)
}

/// The little-endian wire form of an unsigned 64-bit integer.
pub open spec fn le_u64(x: u64) -> Seq<u8> {
    spec_u64_to_le_bytes(x)
}

/// True of character sequences this codec can carry in a length-prefixed
/// string: printable-range ASCII without an embedded terminator, short
/// enough for the 32-bit length prefix.
pub open spec fn wf_chars(cs: Seq<char>) -> bool {
    &&& forall|i: int| 0 <= i < cs.len() ==> '\u{1}' <= #[trigger] cs[i] <= '\u{7f}'
    &&& cs.len() + 1 <= i32::MAX
}

/// The bytes of a character sequence, one byte per ASCII character.
pub open spec fn chars_bytes(cs: Seq<char>) -> Seq<u8> {
    Seq::new(cs.len(), |i: int| cs[i] as u8)
}

/// The wire form of an optional length-prefixed string: a 32-bit length of
/// zero for the absent string, else content length plus one, the content
/// bytes, and a zero terminator.
pub open spec fn string_bytes(s: Option<Seq<char>>) -> Seq<u8> {
    match s {
        None => le_i32(0),
        Some(cs) => le_i32((cs.len() + 1) as i32) + chars_bytes(cs) + seq![0u8],
    }
}

/// The signed 32-bit value whose little-endian encoding is the given four
/// bytes.
pub open spec fn dec_i32(b: Seq<u8>) -> i32 {
    dec_u32(b) as i32
}

/// `dec_i32` inverts the little-endian encoding.
pub proof fn lemma_dec_le_i32(x: i32)
    ensures
        dec_i32(le_i32(x)) == x,
{
    lemma_dec_u32_inverse(x as u32);
    assert(((x as u32) as i32) == x) by (bit_vector);
}

/// The 64-bit value whose little-endian encoding is the given eight bytes.
pub open spec fn dec_u64(b: Seq<u8>) -> u64 {
    choose|x: u64| spec_u64_to_le_bytes(x) == b
}

/// `dec_u64` inverts the little-endian encoding.
pub proof fn lemma_dec_u64_inverse(x: u64)
    ensures
        dec_u64(spec_u64_to_le_bytes(x)) == x,
{
    lemma_auto_spec_u64_to_from_le_bytes();
    let b = spec_u64_to_le_bytes(x);
    assert(spec_u64_to_le_bytes(x) == b);
    let y = dec_u64(b);
    assert(spec_u64_to_le_bytes(y) == b);
    assert(vstd::bytes::spec_u64_from_le_bytes(spec_u64_to_le_bytes(y)) == y);
    assert(vstd::bytes::spec_u64_from_le_bytes(spec_u64_to_le_bytes(x)) == x);
}

/// The character sequences of an optional string value.
pub open spec fn opt_str_view(s: Option<String>) -> Option<Seq<char>> {
    match s {
        None => None,
        Some(st) => Some(st@),
    }
}

/// The length prefix at the head of a string wire form, once four bytes are
/// present.
pub open spec fn string_prefix(b: Seq<u8>) -> u32 {
    dec_u32(b.take(4))
}

/// True of byte streams whose head is a well-formed string wire form: a zero
/// length, or a positive length covered by the stream whose content bytes
/// are plain ASCII and whose last byte is the zero terminator.
pub open spec fn string_parse_ok(b: Seq<u8>) -> bool {
    &&& b.len() >= 4
    &&& {
        let l = string_prefix(b) as int;
        ||| l == 0
        ||| {
            &&& l < 0x8000_0000
            &&& b.len() >= 4 + l
            &&& b[4 + l - 1] == 0
            &&& forall|i: int| 4 <= i < 4 + l - 1 ==> 1 <= #[trigger] b[i] <= 127
        }
    }
}

/// True when a failing string parse ran off the end of the stream, as
/// opposed to meeting malformed content.
pub open spec fn string_parse_truncated(b: Seq<u8>) -> bool {
    ||| b.len() < 4
    ||| {
        let l = string_prefix(b) as int;
        &&& l != 0
        &&& l < 0x8000_0000
        &&& b.len() < 4 + l
    }
}

/// The characters of the string wire form at the head of `b`, for a
/// positive length prefix.
pub open spec fn string_parse_chars(b: Seq<u8>) -> Seq<char> {
    Seq::new((string_prefix(b) - 1) as nat, |i: int| b[4 + i] as char)
}

/// The wire form of an optional GUID behind its one-byte presence flag.
pub open spec fn guid_opt_bytes(g: Option<crate::types::Guid>) -> Seq<u8> {
    match g {
        None => seq![0u8],
        Some(guid) => seq![1u8] + guid@,
    }
}

/// True of byte streams whose head is a well-formed optional GUID: an
/// absent-flag byte, or a present-flag byte covered by sixteen GUID bytes.
pub open spec fn guid_parse_ok(b: Seq<u8>) -> bool {
    &&& b.len() >= 1
    &&& (b[0] == 0 || (b[0] == 1 && b.len() >= 17))
}

/// True when a failing optional-GUID parse ran off the end of the stream.
pub open spec fn guid_parse_truncated(b: Seq<u8>) -> bool {
    b.len() < 1 || (b[0] == 1 && b.len() < 17)
}

/// Splitting a contiguous byte range at an interior position splits its
/// contents.
pub proof fn lemma_subrange_concat(s: Seq<u8>, a: int, b: int, c: int)
    requires
        0 <= a <= b <= c <= s.len(),
    ensures
        s.subrange(a, c) == s.subrange(a, b) + s.subrange(b, c),
{
    assert(s.subrange(a, c) =~= s.subrange(a, b) + s.subrange(b, c));
}

/// A position-tracked reader over an in-memory byte stream. The position
/// only advances on actual reads; a failed read leaves it unchanged.
pub struct ByteReader {
    pub data: Vec<u8>,
    pub pos: usize,
}

impl ByteReader {
    /// The position never runs past the end of the stream.
    pub open spec fn wf(self) -> bool {
        self.pos <= self.data@.len()
    }

    /// How many bytes are left to read.
    pub open spec fn remaining(self) -> int {
        self.data@.len() - self.pos
    }

    /// The bytes left to read, from the current position to the end.
    pub open spec fn rest(self) -> Seq<u8> {
        self.data@.subrange(self.pos as int, self.data@.len() as int)
    }

    /// The bytes a read consumed, between its pre- and post-state.
    pub open spec fn taken(pre: ByteReader, post: ByteReader) -> Seq<u8> {
        pre.data@.subrange(pre.pos as int, post.pos as int)
    }

    /// True when `post` continues `pre`: same stream, position advanced.
    pub open spec fn advanced(pre: ByteReader, post: ByteReader) -> bool {
        &&& post.data == pre.data
        &&& pre.pos <= post.pos
        &&& post.wf()
    }

    pub fn new(data: Vec<u8>) -> (r: ByteReader)
        ensures
            r.data == data,
            r.pos == 0,
            r.wf(),
    {
        ByteReader { data, pos: 0 }
    }

    /// The current stream position.
    pub fn position(&self) -> (r: usize)
        ensures
            r == self.pos,
    {
        self.pos
    }

    /// Reads one byte.
    pub fn read_u8(&mut self) -> (r: Result<u8, Error>)
        requires
            old(self).wf(),
        ensures
            Self::advanced(*old(self), *final(self)),
            r is Ok <==> old(self).remaining() >= 1,
            match r {
                Ok(b) => final(self).pos == old(self).pos + 1
                    && Self::taken(*old(self), *final(self)) == seq![b]
                    && old(self).data@[old(self).pos as int] == b,
                Err(e) => *final(self) == *old(self) && e.is_io(),
            },
    {
        if self.pos < self.data.len() {
            let b = self.data[self.pos];
            self.pos = self.pos + 1;
            proof {
                assert(Self::taken(*old(self), *self) =~= seq![b]);
            }
            Ok(b)
        } else {
            Err(Error::io("stream ended while reading a byte".to_owned()))
        }
    }

    /// Reads `n` bytes verbatim.
    pub fn read_bytes(&mut self, n: usize) -> (r: Result<Vec<u8>, Error>)
        requires
            old(self).wf(),
        ensures
            Self::advanced(*old(self), *final(self)),
            r is Ok <==> old(self).remaining() >= n,
            match r {
                Ok(v) => final(self).pos == old(self).pos + n
                    && v@ == Self::taken(*old(self), *final(self))
                    && v@.len() == n,
                Err(e) => *final(self) == *old(self) && e.is_io(),
            },
    {
        if n <= self.data.len() - self.pos {
            let mut v: Vec<u8> = Vec::new();
            let end: usize = self.pos + n;
            let mut j: usize = self.pos;
            while j < end
                invariant
                    self.pos <= j <= end,
                    end == self.pos + n,
                    end <= self.data@.len(),
                    *self == *old(self),
                    v@ =~= self.data@.subrange(self.pos as int, j as int),
                decreases end - j,
            {
                v.push(self.data[j]);
                j = j + 1;
            }
            self.pos = self.pos + n;
            proof {
                assert(v@ =~= Self::taken(*old(self), *self));
            }
            Ok(v)
        } else {
            Err(Error::io("stream ended while reading raw bytes".to_owned()))
        }
    }

    /// Reads a little-endian unsigned 32-bit integer.
    pub fn read_u32(&mut self) -> (r: Result<u32, Error>)
        requires
            old(self).wf(),
        ensures
            Self::advanced(*old(self), *final(self)),
            r is Ok <==> old(self).remaining() >= 4,
            match r {
                Ok(x) => final(self).pos == old(self).pos + 4
                    && Self::taken(*old(self), *final(self)) == spec_u32_to_le_bytes(x),
                Err(e) => *final(self) == *old(self) && e.is_io(),
            },
    {
        let ghost pre = *self;
        match self.read_bytes(4) {
            Ok(v) => {
                let x = u32_from_le_bytes(v.as_slice());
                proof {
                    lemma_auto_spec_u32_to_from_le_bytes();
                    assert(spec_u32_to_le_bytes(x) == v@);
                }
                Ok(x)
            },
            Err(e) => Err(e),
        }
    }

    /// Reads a little-endian signed 32-bit integer.
    pub fn read_i32(&mut self) -> (r: Result<i32, Error>)
        requires
            old(self).wf(),
        ensures
            Self::advanced(*old(self), *final(self)),
            r is Ok <==> old(self).remaining() >= 4,
            match r {
                Ok(x) => final(self).pos == old(self).pos + 4
                    && Self::taken(*old(self), *final(self)) == le_i32(x)
                    && dec_i32(Self::taken(*old(self), *final(self))) == x,
                Err(e) => *final(self) == *old(self) && e.is_io(),
            },
    {
        match self.read_u32() {
            Ok(x) => {
                proof {
                    assert(((x as i32) as u32) == x) by (bit_vector);
                    lemma_dec_u32_inverse(x);
                }
                Ok(#[verifier::truncate] (x as i32))
            },
            Err(e) => Err(e),
        }
    }

    /// Reads a little-endian unsigned 64-bit integer.
    pub fn read_u64(&mut self) -> (r: Result<u64, Error>)
        requires
            old(self).wf(),
        ensures
            Self::advanced(*old(self), *final(self)),
            r is Ok <==> old(self).remaining() >= 8,
            match r {
                Ok(x) => final(self).pos == old(self).pos + 8
                    && Self::taken(*old(self), *final(self)) == le_u64(x)
                    && dec_u64(Self::taken(*old(self), *final(self))) == x,
                Err(e) => *final(self) == *old(self) && e.is_io(),
            },
    {
        match self.read_bytes(8) {
            Ok(v) => {
                let x = u64_from_le_bytes(v.as_slice());
                proof {
                    lemma_auto_spec_u64_to_from_le_bytes();
                    assert(spec_u64_to_le_bytes(x) == v@);
                    lemma_dec_u64_inverse(x);
                }
                Ok(x)
            },
            Err(e) => Err(e),
        }
    }

    /// Reads an optional GUID behind its one-byte presence flag: an absent
    /// flag consumes nothing further, a present flag is followed by the
    /// sixteen GUID bytes; any other flag byte is malformed.
    pub fn read_property_guid(&mut self) -> (r: Result<Option<crate::types::Guid>, Error>)
        requires
            old(self).wf(),
        ensures
            Self::advanced(*old(self), *final(self)),
            r is Ok <==> guid_parse_ok(old(self).rest()),
            match r {
                Ok(g) => {
                    &&& Self::taken(*old(self), *final(self)) == guid_opt_bytes(g)
                    &&& (g is Some <==> old(self).rest()[0] == 1)
                    &&& final(self).pos == old(self).pos + (if g is Some {
                        17int
                    } else {
                        1int
                    })
                },
                Err(e) => e.is_io() == guid_parse_truncated(old(self).rest())
                    && e.is_invalid_file() == !guid_parse_truncated(old(self).rest()),
            },
    {
        let ghost rest0 = old(self).rest();
        let ghost p0 = self.pos as int;
        let flag = match self.read_u8() {
            Ok(b) => b,
            Err(e) => {
                return Err(e);
            },
        };
        proof {
            assert(rest0[0] == flag);
        }
        if flag == 0 {
            proof {
                assert(Self::taken(*old(self), *self) =~= guid_opt_bytes(None));
            }
            Ok(None)
        } else if flag == 1 {
            match self.read_guid() {
                Ok(g) => {
                    proof {
                        lemma_subrange_concat(
                            old(self).data@,
                            p0,
                            p0 + 1,
                            p0 + 17,
                        );
                        assert(old(self).data@.subrange(p0, p0 + 1) =~= seq![1u8]);
                        assert(Self::taken(*old(self), *self) =~= guid_opt_bytes(Some(g)));
                    }
                    Ok(Some(g))
                },
                Err(e) => Err(e),
            }
        } else {
            Err(Error::invalid_file("the GUID presence flag is not zero or one".to_owned()))
        }
    }

    /// Reads an optional length-prefixed string. A zero length prefix is the
    /// absent string; a positive prefix counts the ASCII content bytes plus
    /// the zero terminator. Wide (negative-length) strings are rejected as
    /// malformed.
    pub fn read_string(&mut self) -> (r: Result<Option<String>, Error>)
        requires
            old(self).wf(),
        ensures
            Self::advanced(*old(self), *final(self)),
            r is Ok <==> string_parse_ok(old(self).rest()),
            match r {
                Ok(s) => {
                    &&& Self::taken(*old(self), *final(self)) == string_bytes(opt_str_view(s))
                    &&& match s {
                        None => string_prefix(old(self).rest()) == 0,
                        Some(st) => st@ == string_parse_chars(old(self).rest())
                            && wf_chars(st@) && string_prefix(old(self).rest()) != 0,
                    }
                },
                Err(e) => e.is_io() == string_parse_truncated(old(self).rest())
                    && e.is_invalid_file() == !string_parse_truncated(old(self).rest()),
            },
    {
        let ghost rest0 = old(self).rest();
        let ghost p0 = self.pos as int;
        let x = match self.read_u32() {
            Ok(x) => x,
            Err(e) => {
                return Err(e);
            },
        };
        proof {
            assert(rest0.take(4) =~= Self::taken(*old(self), *self));
            lemma_dec_u32_inverse(x);
            assert(string_prefix(rest0) == x);
        }
        if x == 0 {
            proof {
                assert((0i32 as u32) == 0u32) by (bit_vector);
            }
            return Ok(None);
        }
        if x >= 0x8000_0000u32 {
            return Err(Error::invalid_file("wide or negative string length is not supported".to_owned()));
        }
        let l = x as usize;
        if self.data.len() - self.pos < l {
            return Err(Error::io("stream ended while reading a string".to_owned()));
        }
        let content_len = l - 1;
        let mut s = String::new();
        let mut i: usize = 0;
        while i < content_len
            invariant
                i <= content_len,
                content_len == l - 1,
                1 <= l < 0x8000_0000,
                x as int == l,
                self.data == old(self).data,
                self.wf(),
                self.pos as int == p0 + 4 + i,
                p0 + 4 + l <= self.data@.len(),
                rest0 == old(self).data@.subrange(p0, old(self).data@.len() as int),
                p0 == old(self).pos as int,
                string_prefix(rest0) == x,
                s@.len() == i,
                forall|k: int| 0 <= k < i ==> {
                    &&& #[trigger] s@[k] == rest0[4 + k] as char
                    &&& 1 <= rest0[4 + k] <= 127
                    &&& s@[k] as u8 == rest0[4 + k]
                    &&& '\u{1}' <= s@[k] <= '\u{7f}'
                },
            decreases content_len - i,
        {
            let b = match self.read_u8() {
                Ok(b) => b,
                Err(e) => {
                    proof {
                        assert(false);
                    }
                    return Err(e);
                },
            };
            proof {
                assert(rest0[4 + i] == old(self).data@[p0 + 4 + i]);
                assert(rest0[4 + i] == b);
            }
            if b == 0 || b > 127 {
                proof {
                    assert(!(1 <= rest0[4 + i] <= 127));
                    assert(rest0.len() >= 4 + l);
                    assert(!string_parse_ok(rest0));
                    assert(!string_parse_truncated(rest0));
                }
                return Err(Error::invalid_file("string content is not plain ASCII".to_owned()));
            }
            let c = b as char;
            proof {
                assert(c as u8 == b);
                assert('\u{1}' <= c <= '\u{7f}');
            }
            s.push(c);
            i = i + 1;
        }
        let t = match self.read_u8() {
            Ok(b) => b,
            Err(e) => {
                proof {
                    assert(false);
                }
                return Err(e);
            },
        };
        proof {
            assert(rest0[4 + l - 1] == old(self).data@[p0 + 4 + l - 1]);
            assert(rest0[4 + l - 1] == t);
        }
        if t != 0 {
            proof {
                assert(!string_parse_ok(rest0));
                assert(!string_parse_truncated(rest0));
            }
            return Err(Error::invalid_file("string terminator is missing".to_owned()));
        }
        proof {
            let d = old(self).data@;
            lemma_subrange_concat(d, p0, p0 + 4, p0 + 4 + l);
            lemma_subrange_concat(d, p0 + 4, p0 + 4 + content_len, p0 + 4 + l);
            assert(d.subrange(p0, p0 + 4) == spec_u32_to_le_bytes(x));
            assert(((x as i32) as u32) == x) by (bit_vector);
            assert(d.subrange(p0 + 4, p0 + 4 + content_len) =~= chars_bytes(s@));
            assert(d.subrange(p0 + 4 + content_len, p0 + 4 + l) =~= seq![0u8]);
            assert(Self::taken(*old(self), *self)
                == le_i32((s@.len() + 1) as i32) + chars_bytes(s@) + seq![0u8]);
            assert(s@ =~= string_parse_chars(rest0));
            assert(string_parse_ok(rest0));
        }
        Ok(Some(s))
    }

    /// Reads a 16-byte GUID verbatim.
    pub fn read_guid(&mut self) -> (r: Result<crate::types::Guid, Error>)
        requires
            old(self).wf(),
        ensures
            Self::advanced(*old(self), *final(self)),
            r is Ok <==> old(self).remaining() >= 16,
            match r {
                Ok(g) => final(self).pos == old(self).pos + 16
                    && Self::taken(*old(self), *final(self)) == g@,
                Err(e) => *final(self) == *old(self) && e.is_io(),
            },
    {
        match self.read_bytes(16) {
            Ok(v) => {
                let g: crate::types::Guid = [
                    v[0], v[1], v[2], v[3], v[4], v[5], v[6], v[7],
                    v[8], v[9], v[10], v[11], v[12], v[13], v[14], v[15],
                ];
                proof {
                    assert(g@ =~= v@);
                }
                Ok(g)
            },
            Err(e) => Err(e),
        }
    }
}

/// An append-only writer that accumulates the output byte stream.
pub struct ByteWriter {
    pub data: Vec<u8>,
}

impl ByteWriter {
    pub fn new() -> (r: ByteWriter)
        ensures
            r.data@.len() == 0,
    {
        ByteWriter { data: Vec::new() }
    }

    /// How many bytes have been written so far.
    pub fn position(&self) -> (r: usize)
        ensures
            r == self.data@.len(),
    {
        self.data.len()
    }

    /// Hands the accumulated bytes out.
    pub fn into_bytes(self) -> (r: Vec<u8>)
        ensures
            r == self.data,
    {
        self.data
    }

    /// Appends one byte.
    pub fn write_u8(&mut self, b: u8)
        ensures
            final(self).data@ == old(self).data@ + seq![b],
    {
        self.data.push(b);
    }

    /// Appends bytes verbatim.
    pub fn write_bytes(&mut self, v: &Vec<u8>)
        ensures
            final(self).data@ == old(self).data@ + v@,
    {
        let mut i: usize = 0;
        while i < v.len()
            invariant
                i <= v@.len(),
                self.data@ =~= old(self).data@ + v@.subrange(0, i as int),
            decreases v@.len() - i,
        {
            self.data.push(v[i]);
            i = i + 1;
        }
        proof {
            assert(self.data@ =~= old(self).data@ + v@);
        }
    }

    /// Appends a little-endian unsigned 32-bit integer.
    pub fn write_u32(&mut self, x: u32)
        ensures
            final(self).data@ == old(self).data@ + spec_u32_to_le_bytes(x),
    {
        let v = u32_to_le_bytes(x);
        self.write_bytes(&v);
    }

    /// Appends a little-endian signed 32-bit integer.
    pub fn write_i32(&mut self, x: i32)
        ensures
            final(self).data@ == old(self).data@ + le_i32(x),
    {
        proof {
            assert((x as u32) as i32 == x) by (bit_vector);
        }
        self.write_u32(x as u32);
    }

    /// Appends a little-endian unsigned 64-bit integer.
    pub fn write_u64(&mut self, x: u64)
        ensures
            final(self).data@ == old(self).data@ + le_u64(x),
    {
        let v = u64_to_le_bytes(x);
        self.write_bytes(&v);
    }

    /// Appends an optional GUID behind its one-byte presence flag.
    pub fn write_property_guid(&mut self, g: &Option<crate::types::Guid>)
        ensures
            final(self).data@ == old(self).data@ + guid_opt_bytes(*g),
    {
        match g {
            None => {
                self.write_u8(0);
            },
            Some(guid) => {
                self.write_u8(1);
                self.write_guid(guid);
                proof {
                    assert(final(self).data@ =~= old(self).data@ + guid_opt_bytes(Some(*guid)));
                }
            },
        }
    }

    /// Appends an optional length-prefixed string: a zero length for the
    /// absent string, else content length plus one, the ASCII content bytes,
    /// and a zero terminator.
    pub fn write_string(&mut self, s: &Option<String>)
        requires
            match *s {
                None => true,
                Some(st) => wf_chars(st@),
            },
        ensures
            final(self).data@ == old(self).data@ + string_bytes(opt_str_view(*s)),
    {
        match s {
            None => {
                self.write_i32(0);
                proof {
                    assert((0i32 as u32) == 0u32) by (bit_vector);
                }
            },
            Some(st) => {
                let sl = st.as_str();
                proof {
                    assert(vstd::utf8::is_ascii_chars(sl@)) by {
                        assert(sl@ == st@);
                        assert forall|i: int| 0 <= i < sl@.len() implies '\0' <= #[trigger] sl@[i]
                            <= '\u{7f}' by {
                            assert('\u{1}' <= st@[i] <= '\u{7f}');
                            assert(sl@[i] == st@[i]);
                            assert('\0' <= '\u{1}');
                        }
                    }
                    assert(vstd::string::is_ascii(sl));
                }
                let v = sl.as_bytes_vec();
                proof {
                    assert(v@ =~= chars_bytes(st@));
                }
                let l = v.len();
                let li: i32 = (l as i32) + 1;
                self.write_i32(li);
                self.write_bytes(&v);
                self.write_u8(0);
                proof {
                    assert(li as int == st@.len() + 1);
                    assert(final(self).data@ =~= old(self).data@ + string_bytes(Some(st@)));
                }
            },
        }
    }

    /// Appends a 16-byte GUID verbatim.
    pub fn write_guid(&mut self, g: &crate::types::Guid)
        ensures
            final(self).data@ == old(self).data@ + g@,
    {
        let mut i: usize = 0;
        while i < 16
            invariant
                i <= 16,
                g@.len() == 16,
                self.data@ =~= old(self).data@ + g@.subrange(0, i as int),
            decreases 16 - i,
        {
            self.data.push(g[i]);
            i = i + 1;
        }
        proof {
            assert(self.data@ =~= old(self).data@ + g@);
        }
    }
}

} // verus!
