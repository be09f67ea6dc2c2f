//! Reading records from bytes in memory.
//!
//! An archive or a plugin is read into memory by the caller and parsed
//! from there. A stream is a byte string with a position; reading moves
//! the position forward.

use crate::error::IoError;
use crate::error::IoErrorKind;
use vstd::prelude::*;

verus! {

/// Why a record could not be read.
#[derive(Debug)]
pub enum TryFromArchiveError {
    /// The record does not begin with the tag that it has to begin with.
    InvalidTag,
    /// A size that the record states cannot be right.
    BogusSize,
    /// A field of the record holds a value that it cannot take.
    ParseError,
    /// The bytes ended before the record did.
    Io(IoError),
}

/// A stretch of a file: where it begins and how long it is.
#[derive(Debug, Clone, Copy, PartialEq, Eq, Structural)]
pub struct ReadSpan {
    pub offset: u64,
    pub size: usize,
}

/// The unsigned number that `bytes` are in little-endian order.
pub open spec fn le_value(bytes: Seq<u8>) -> nat
    decreases bytes.len(),
{
    if bytes.len() == 0 {
        0
    } else {
        bytes[0] as nat + 256 * le_value(bytes.drop_first())
    }
}

/// The unsigned number that `bytes` are in big-endian order.
pub open spec fn be_value(bytes: Seq<u8>) -> nat
    decreases bytes.len(),
{
    if bytes.len() == 0 {
        0
    } else {
        256 * be_value(bytes.drop_last()) + bytes.last() as nat
    }
}

/// The value of two bytes in little-endian order.
pub proof fn lemma_le_value_2(b: Seq<u8>)
    requires
        b.len() == 2,
    ensures
        le_value(b) == b[0] + 256 * b[1],
{
    reveal_with_fuel(le_value, 3);
    assert(b.drop_first().drop_first().len() == 0);
}

/// The value of four bytes in little-endian order.
pub proof fn lemma_le_value_4(b: Seq<u8>)
    requires
        b.len() == 4,
    ensures
        le_value(b) == b[0] + 256 * b[1] + 65536 * b[2] + 16777216 * b[3],
{
    reveal_with_fuel(le_value, 5);
    let t1 = b.drop_first();
    let t2 = t1.drop_first();
    let t3 = t2.drop_first();
    assert(t3.drop_first().len() == 0);
}

/// The value of eight bytes in little-endian order, from that of its two
/// halves.
pub proof fn lemma_le_value_8(b: Seq<u8>)
    requires
        b.len() == 8,
    ensures
        le_value(b) == le_value(b.subrange(0, 4)) + 4294967296 * le_value(b.subrange(4, 8)),
{
    reveal_with_fuel(le_value, 9);
    let lo = b.subrange(0, 4);
    let hi = b.subrange(4, 8);
    lemma_le_value_4(lo);
    lemma_le_value_4(hi);
    let t1 = b.drop_first();
    let t2 = t1.drop_first();
    let t3 = t2.drop_first();
    let t4 = t3.drop_first();
    assert(t4 =~= hi);
}

/// The value of four bytes in big-endian order.
pub proof fn lemma_be_value_4(b: Seq<u8>)
    requires
        b.len() == 4,
    ensures
        be_value(b) == 16777216 * b[0] + 65536 * b[1] + 256 * b[2] + b[3],
{
    reveal_with_fuel(be_value, 5);
    let t1 = b.drop_last();
    let t2 = t1.drop_last();
    let t3 = t2.drop_last();
    assert(t3.drop_last().len() == 0);
}

/// The value of eight bytes in big-endian order, from that of its two
/// halves.
pub proof fn lemma_be_value_8(b: Seq<u8>)
    requires
        b.len() == 8,
    ensures
        be_value(b) == 4294967296 * be_value(b.subrange(0, 4)) + be_value(b.subrange(4, 8)),
{
    reveal_with_fuel(be_value, 9);
    let hi = b.subrange(0, 4);
    let lo = b.subrange(4, 8);
    lemma_be_value_4(lo);
    lemma_be_value_4(hi);
    let t1 = b.drop_last();
    let t2 = t1.drop_last();
    let t3 = t2.drop_last();
    let t4 = t3.drop_last();
    assert(t4 =~= hi);
}

/// The number that four bytes are, in little-endian order where `big` is
/// false and in big-endian order where it is true.
pub fn u32_of(b: &[u8], big: bool) -> (x: u32)
    requires
        b@.len() == 4,
    ensures
        x == if big {
            be_value(b@)
        } else {
            le_value(b@)
        },
{
    proof {
        lemma_le_value_4(b@);
        lemma_be_value_4(b@);
    }
    if big {
        (b[0] as u32) * 16777216 + (b[1] as u32) * 65536 + (b[2] as u32) * 256 + (b[3] as u32)
    } else {
        (b[0] as u32) + (b[1] as u32) * 256 + (b[2] as u32) * 65536 + (b[3] as u32) * 16777216
    }
}

/// The number that two bytes are in little-endian order.
pub fn u16_of(b: &[u8]) -> (x: u16)
    requires
        b@.len() == 2,
    ensures
        x == le_value(b@),
{
    proof {
        lemma_le_value_2(b@);
    }
    (b[0] as u16) + (b[1] as u16) * 256
}

/// A copy of the bytes of `b` from `from` up to `to`.
pub fn copy_range(b: &[u8], from: usize, to: usize) -> (r: Vec<u8>)
    requires
        from <= to <= b@.len(),
    ensures
        r@ == b@.subrange(from as int, to as int),
{
    let mut r: Vec<u8> = Vec::new();
    let mut i: usize = from;
    while i < to
        invariant
            from <= i <= to <= b@.len(),
            r@ == b@.subrange(from as int, i as int),
        decreases to - i,
    {
        r.push(b[i]);
        proof {
            assert(b@.subrange(from as int, i + 1) =~= b@.subrange(from as int, i as int).push(
                b@[i as int],
            ));
        }
        i += 1;
    }
    r
}

/// The number that eight bytes are, in little-endian order where `big` is
/// false and in big-endian order where it is true.
pub fn u64_of(b: &[u8], big: bool) -> (x: u64)
    requires
        b@.len() == 8,
    ensures
        x == if big {
            be_value(b@)
        } else {
            le_value(b@)
        },
{
    let first = copy_range(b, 0, 4);
    let second = copy_range(b, 4, 8);
    proof {
        lemma_le_value_8(b@);
        lemma_be_value_8(b@);
        lemma_le_value_4(first@);
        lemma_le_value_4(second@);
        lemma_be_value_4(first@);
        lemma_be_value_4(second@);
    }
    let a = u32_of(first.as_slice(), big);
    let c = u32_of(second.as_slice(), big);
    if big {
        (a as u64) * 4294967296 + (c as u64)
    } else {
        (a as u64) + (c as u64) * 4294967296
    }
}

/// A byte string that is read from front to back.
#[derive(Debug)]
pub struct ParseStream {
    data: Vec<u8>,
    pos: usize,
}

/// The failure to read bytes that are not there.
pub fn unexpected_eof() -> (e: IoError)
    ensures
        e.kind == IoErrorKind::Other,
{
    IoError { kind: IoErrorKind::Other, message: "failed to fill whole buffer".to_owned() }
}

impl ParseStream {
    /// All the bytes of the stream.
    pub closed spec fn data(&self) -> Seq<u8> {
        self.data@
    }

    /// How many bytes have been read or skipped.
    pub closed spec fn pos(&self) -> int {
        self.pos as int
    }

    /// The invariant: the position lies within the bytes or at their end.
    pub open spec fn wf(&self) -> bool {
        0 <= self.pos() <= self.data().len()
    }

    /// The bytes that are still to be read.
    pub open spec fn remaining(&self) -> Seq<u8> {
        self.data().skip(self.pos())
    }

    /// A stream over `data`, at its beginning.
    pub fn new(data: Vec<u8>) -> (s: ParseStream)
        ensures
            s.wf(),
            s.data() == data@,
            s.pos() == 0,
    {
        ParseStream { data, pos: 0 }
    }

    /// The bytes of the stream, all of them.
    pub fn into_inner(self) -> (data: Vec<u8>)
        ensures
            data@ == self.data(),
    {
        self.data
    }

    /// How many bytes have been read or skipped.
    pub fn position(&self) -> (p: usize)
        ensures
            p == self.pos(),
    {
        self.pos
    }

    /// How many bytes are still to be read.
    pub fn remaining_len(&self) -> (n: usize)
        requires
            self.wf(),
        ensures
            n == self.remaining().len(),
    {
        self.data.len() - self.pos
    }

    /// Reads up to `max` bytes: as many as are left, if that is fewer.
    pub fn read(&mut self, max: usize) -> (bytes: Vec<u8>)
        requires
            old(self).wf(),
        ensures
            final(self).wf(),
            final(self).data() == old(self).data(),
            bytes@.len() == if max <= old(self).remaining().len() {
                max as int
            } else {
                old(self).remaining().len() as int
            },
            bytes@ == old(self).remaining().take(bytes@.len() as int),
            final(self).pos() == old(self).pos() + bytes@.len(),
    {
        let left = self.data.len() - self.pos;
        let n = if max <= left {
            max
        } else {
            left
        };
        let bytes = copy_range(self.data.as_slice(), self.pos, self.pos + n);
        proof {
            assert(bytes@ =~= self.remaining().take(n as int));
        }
        self.pos = self.pos + n;
        bytes
    }

    /// Reads exactly `n` bytes. Where fewer are left, the call fails and
    /// the stream is at its end.
    pub fn parse_bytes(&mut self, n: usize) -> (r: Result<Vec<u8>, IoError>)
        requires
            old(self).wf(),
        ensures
            final(self).wf(),
            final(self).data() == old(self).data(),
            match r {
                Ok(bytes) => {
                    &&& n <= old(self).remaining().len()
                    &&& bytes@ == old(self).remaining().take(n as int)
                    &&& final(self).pos() == old(self).pos() + n
                },
                Err(_) => {
                    &&& n > old(self).remaining().len()
                    &&& final(self).pos() == old(self).data().len()
                },
            },
    {
        let left = self.data.len() - self.pos;
        if n > left {
            self.pos = self.data.len();
            return Err(unexpected_eof());
        }
        let bytes = copy_range(self.data.as_slice(), self.pos, self.pos + n);
        proof {
            assert(bytes@ =~= self.remaining().take(n as int));
        }
        self.pos = self.pos + n;
        Ok(bytes)
    }

    /// Passes over `n` bytes. Where fewer are left, the call fails and the
    /// stream is at its end.
    pub fn skip(&mut self, n: u64) -> (r: Result<(), IoError>)
        requires
            old(self).wf(),
        ensures
            final(self).wf(),
            final(self).data() == old(self).data(),
            match r {
                Ok(()) => {
                    &&& n <= old(self).remaining().len()
                    &&& final(self).pos() == old(self).pos() + n
                },
                Err(_) => {
                    &&& n > old(self).remaining().len()
                    &&& final(self).pos() == old(self).data().len()
                },
            },
    {
        let left = self.data.len() - self.pos;
        if n > left as u64 {
            self.pos = self.data.len();
            return Err(unexpected_eof());
        }
        self.pos = self.pos + (n as usize);
        Ok(())
    }

    /// Moves to the position `pos`, counted from the beginning. A position
    /// behind the end is the end.
    pub fn unconditionally_seek(&mut self, pos: u64) -> (p: u64)
        requires
            old(self).wf(),
        ensures
            final(self).wf(),
            final(self).data() == old(self).data(),
            final(self).pos() == if pos <= old(self).data().len() {
                pos as int
            } else {
                old(self).data().len() as int
            },
            p == final(self).pos(),
    {
        if pos <= self.data.len() as u64 {
            self.pos = pos as usize;
        } else {
            self.pos = self.data.len();
        }
        self.pos as u64
    }

    /// Where a span begins in the stream: at its offset, or at the end of
    /// the stream where the offset lies behind that.
    pub open spec fn span_start(&self, span: ReadSpan) -> int {
        if span.offset <= self.data().len() {
            span.offset as int
        } else {
            self.data().len() as int
        }
    }

    /// Reads the bytes of a span: moves to where it begins and reads as
    /// many bytes as it is long.
    pub fn parse_from_span(&mut self, span: ReadSpan) -> (r: Result<Vec<u8>, IoError>)
        requires
            old(self).wf(),
        ensures
            final(self).wf(),
            final(self).data() == old(self).data(),
            match r {
                Ok(bytes) => {
                    &&& old(self).span_start(span) + span.size <= old(self).data().len()
                    &&& bytes@ == old(self).data().subrange(
                        old(self).span_start(span),
                        old(self).span_start(span) + span.size,
                    )
                    &&& final(self).pos() == old(self).span_start(span) + span.size
                },
                Err(_) => {
                    &&& old(self).span_start(span) + span.size > old(self).data().len()
                    &&& final(self).pos() == old(self).data().len()
                },
            },
    {
        self.unconditionally_seek(span.offset);
        let r = self.parse_bytes(span.size);
        proof {
            if r is Ok {
                let start = old(self).span_start(span);
                assert(old(self).data().skip(start).take(span.size as int) =~= old(
                    self,
                ).data().subrange(start, start + span.size));
            }
        }
        r
    }

    /// Reads one byte.
    pub fn read_u8(&mut self) -> (r: Result<u8, IoError>)
        requires
            old(self).wf(),
        ensures
            final(self).wf(),
            final(self).data() == old(self).data(),
            match r {
                Ok(x) => {
                    &&& 1 <= old(self).remaining().len()
                    &&& x == old(self).remaining()[0]
                    &&& final(self).pos() == old(self).pos() + 1
                },
                Err(_) => {
                    &&& old(self).remaining().len() < 1
                    &&& final(self).pos() == old(self).data().len()
                },
            },
    {
        match self.parse_bytes(1) {
            Ok(bytes) => Ok(bytes[0]),
            Err(e) => Err(e),
        }
    }

    /// Reads a number of two bytes in little-endian order.
    pub fn read_u16(&mut self) -> (r: Result<u16, IoError>)
        requires
            old(self).wf(),
        ensures
            final(self).wf(),
            final(self).data() == old(self).data(),
            match r {
                Ok(x) => {
                    &&& 2 <= old(self).remaining().len()
                    &&& x == le_value(old(self).remaining().take(2))
                    &&& final(self).pos() == old(self).pos() + 2
                },
                Err(_) => {
                    &&& old(self).remaining().len() < 2
                    &&& final(self).pos() == old(self).data().len()
                },
            },
    {
        match self.parse_bytes(2) {
            Ok(bytes) => Ok(u16_of(bytes.as_slice())),
            Err(e) => Err(e),
        }
    }

    /// Reads a number of four bytes, in big-endian order where `big` is
    /// true and in little-endian order where it is not.
    pub fn read_u32(&mut self, big: bool) -> (r: Result<u32, IoError>)
        requires
            old(self).wf(),
        ensures
            final(self).wf(),
            final(self).data() == old(self).data(),
            match r {
                Ok(x) => {
                    &&& 4 <= old(self).remaining().len()
                    &&& x == if big {
                        be_value(old(self).remaining().take(4))
                    } else {
                        le_value(old(self).remaining().take(4))
                    }
                    &&& final(self).pos() == old(self).pos() + 4
                },
                Err(_) => {
                    &&& old(self).remaining().len() < 4
                    &&& final(self).pos() == old(self).data().len()
                },
            },
    {
        match self.parse_bytes(4) {
            Ok(bytes) => Ok(u32_of(bytes.as_slice(), big)),
            Err(e) => Err(e),
        }
    }

    /// Reads a number of eight bytes, in big-endian order where `big` is
    /// true and in little-endian order where it is not.
    pub fn read_u64(&mut self, big: bool) -> (r: Result<u64, IoError>)
        requires
            old(self).wf(),
        ensures
            final(self).wf(),
            final(self).data() == old(self).data(),
            match r {
                Ok(x) => {
                    &&& 8 <= old(self).remaining().len()
                    &&& x == if big {
                        be_value(old(self).remaining().take(8))
                    } else {
                        le_value(old(self).remaining().take(8))
                    }
                    &&& final(self).pos() == old(self).pos() + 8
                },
                Err(_) => {
                    &&& old(self).remaining().len() < 8
                    &&& final(self).pos() == old(self).data().len()
                },
            },
    {
        match self.parse_bytes(8) {
            Ok(bytes) => Ok(u64_of(bytes.as_slice(), big)),
            Err(e) => Err(e),
        }
    }

    /// Reads as many bytes as `tag` has and holds them against it.
    pub fn eat_tag(&mut self, tag: &[u8]) -> (r: Result<Vec<u8>, TryFromArchiveError>)
        requires
            old(self).wf(),
        ensures
            final(self).wf(),
            final(self).data() == old(self).data(),
            match r {
                Ok(bytes) => {
                    &&& tag@.len() <= old(self).remaining().len()
                    &&& old(self).remaining().take(tag@.len() as int) == tag@
                    &&& bytes@ == tag@
                    &&& final(self).pos() == old(self).pos() + tag@.len()
                },
                Err(TryFromArchiveError::InvalidTag) => {
                    &&& tag@.len() <= old(self).remaining().len()
                    &&& old(self).remaining().take(tag@.len() as int) != tag@
                    &&& final(self).pos() == old(self).pos() + tag@.len()
                },
                Err(TryFromArchiveError::Io(_)) => {
                    &&& tag@.len() > old(self).remaining().len()
                    &&& final(self).pos() == old(self).data().len()
                },
                Err(_) => false,
            },
    {
        let bytes = match self.parse_bytes(tag.len()) {
            Ok(bytes) => bytes,
            Err(e) => {
                return Err(TryFromArchiveError::Io(e));
            },
        };
        match crate::names::compare_bytes(bytes.as_slice(), tag) {
            crate::names::NameOrder::Same => Ok(bytes),
            _ => Err(TryFromArchiveError::InvalidTag),
        }
    }

    /// Reads a string that is preceded by its length in one byte and
    /// closed by a zero byte, which the length counts in, and returns its
    /// bytes without the zero byte. The string is refused where it has no
    /// closing zero byte or has a zero byte before its end.
    pub fn parse_bzstring(&mut self) -> (r: Result<Vec<u8>, TryFromArchiveError>)
        requires
            old(self).wf(),
        ensures
            final(self).wf(),
            final(self).data() == old(self).data(),
            match r {
                Ok(bytes) => {
                    &&& 1 <= old(self).remaining().len()
                    &&& 1 + old(self).remaining()[0] <= old(self).remaining().len()
                    &&& crate::bsa::is_c_string(
                        old(self).remaining().subrange(1, 1 + old(self).remaining()[0]),
                    )
                    &&& bytes@ == old(self).remaining().subrange(
                        1,
                        1 + old(self).remaining()[0],
                    ).drop_last()
                    &&& final(self).pos() == old(self).pos() + 1 + old(self).remaining()[0]
                },
                Err(TryFromArchiveError::ParseError) => {
                    &&& 1 <= old(self).remaining().len()
                    &&& 1 + old(self).remaining()[0] <= old(self).remaining().len()
                    &&& !crate::bsa::is_c_string(
                        old(self).remaining().subrange(1, 1 + old(self).remaining()[0]),
                    )
                    &&& final(self).pos() == old(self).pos() + 1 + old(self).remaining()[0]
                },
                Err(TryFromArchiveError::Io(_)) => {
                    &&& old(self).remaining().len() < 1 || 1 + old(self).remaining()[0] > old(
                        self,
                    ).remaining().len()
                    &&& final(self).pos() == old(self).data().len()
                },
                Err(_) => false,
            },
    {
        let result = match self.parse_bstring() {
            Ok(result) => result,
            Err(e) => {
                return Err(e);
            },
        };
        match crate::bsa::c_string_content(result.as_slice()) {
            Some(content) => Ok(content),
            None => Err(TryFromArchiveError::ParseError),
        }
    }

    /// Reads a string that is preceded by its length in one byte.
    pub fn parse_bstring(&mut self) -> (r: Result<Vec<u8>, TryFromArchiveError>)
        requires
            old(self).wf(),
        ensures
            final(self).wf(),
            final(self).data() == old(self).data(),
            match r {
                Ok(bytes) => {
                    &&& 1 <= old(self).remaining().len()
                    &&& 1 + old(self).remaining()[0] <= old(self).remaining().len()
                    &&& bytes@ == old(self).remaining().subrange(1, 1 + old(self).remaining()[0])
                    &&& final(self).pos() == old(self).pos() + 1 + old(self).remaining()[0]
                },
                Err(TryFromArchiveError::Io(_)) => {
                    &&& old(self).remaining().len() < 1 || 1 + old(self).remaining()[0] > old(
                        self,
                    ).remaining().len()
                    &&& final(self).pos() == old(self).data().len()
                },
                Err(_) => false,
            },
    {
        let len = match self.read_u8() {
            Ok(len) => len,
            Err(e) => {
                return Err(TryFromArchiveError::Io(e));
            },
        };
        match self.parse_bytes(len as usize) {
            Ok(bytes) => {
                proof {
                    assert(old(self).remaining().skip(1).take(len as int) =~= old(
                        self,
                    ).remaining().subrange(1, 1 + len));
                    assert(self.data().skip(old(self).pos() + 1) =~= old(self).remaining().skip(1));
                }
                Ok(bytes)
            },
            Err(e) => Err(TryFromArchiveError::Io(e)),
        }
    }
}

} // verus!
