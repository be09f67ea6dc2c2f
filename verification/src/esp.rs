//! Reading plugin files: the headers of records and groups, and the first
//! field of a record.

use crate::bsa::le_at;
use crate::stream::u16_of;
use crate::stream::u32_of;
use crate::stream::ParseStream;
use crate::stream::TryFromArchiveError;
use vstd::prelude::*;
use vstd::slice::slice_subrange;

verus! {

/// The size of the header of a group.
pub const GROUP_SIZE: usize = 24;

/// The size of the header of a record.
pub const RECORD_SIZE: usize = 24;

/// The size of the header of a field.
pub const FIELD_HEADER_SIZE: usize = 6;

/// A record whose size is the same in every file.
pub trait ConstantSizedRecord {
    /// The size of the record in a file.
    spec fn spec_size() -> usize;

    /// The size of the record in a file.
    fn size() -> (n: usize)
        ensures
            n == Self::spec_size(),
    ;
}

/// A record that is held in a file in a layout of its own.
pub trait RawRecord {
    /// The record as the file holds it.
    type Raw;
}

/// A reader that can be moved to a position.
pub trait SeekPredicate {
    /// Whether the reader is in order.
    spec fn seekable(&self) -> bool;

    /// Where the reader stands when it is moved to `pos`.
    spec fn seek_target(&self, pos: u64) -> u64;

    /// Moves the reader to the position `pos`, counted from the
    /// beginning, and returns where it stands then.
    fn unconditionally_seek(&mut self, pos: u64) -> (p: u64)
        requires
            old(self).seekable(),
        ensures
            final(self).seekable(),
            p == old(self).seek_target(pos),
    ;
}

impl SeekPredicate for ParseStream {
    open spec fn seekable(&self) -> bool {
        self.wf()
    }

    open spec fn seek_target(&self, pos: u64) -> u64 {
        if pos <= self.data().len() {
            pos
        } else {
            self.data().len() as u64
        }
    }

    fn unconditionally_seek(&mut self, pos: u64) -> (p: u64) {
        ParseStream::unconditionally_seek(self, pos)
    }
}

/// A record of a plugin that can be read from a stream.
pub trait ParseEsp: Sized {
    /// Whether the record holds what the bytes say.
    spec fn describes(&self, remaining: Seq<u8>) -> bool;

    /// How many bytes the record takes.
    spec fn length() -> nat;

    /// Reads a record from the stream. It fails where the stream has too
    /// few bytes left, and only then; the stream is at its end then.
    fn parse(input: &mut ParseStream) -> (r: Result<Self, TryFromArchiveError>)
        requires
            old(input).wf(),
        ensures
            final(input).wf(),
            final(input).data() == old(input).data(),
            match r {
                Ok(record) => {
                    &&& old(input).remaining().len() >= Self::length()
                    &&& record.describes(old(input).remaining())
                    &&& final(input).pos() == old(input).pos() + Self::length()
                },
                Err(e) => {
                    &&& e is Io
                    &&& old(input).remaining().len() < Self::length()
                    &&& final(input).pos() == old(input).data().len()
                },
            },
    ;
}

/// The header of a record, without the two bytes of unknown use behind
/// it.
#[derive(Debug, Clone, Copy)]
pub struct RecordHeader {
    pub typ: [u8; 4],
    pub data_size: u32,
    pub flags: u32,
    pub form_id: u32,
    pub timestamp: u16,
    pub vcs_info: u16,
    pub internal_version: u16,
}

/// The header of a record as a file holds it.
#[derive(Debug, Clone, Copy)]
pub struct RawRecordHeader {
    pub typ: [u8; 4],
    pub data_size: u32,
    pub flags: u32,
    pub form_id: u32,
    pub timestamp: u16,
    pub vcs_info: u16,
    pub internal_version: u16,
    pub unknown: u16,
}

/// The header of a group, without the four bytes of unknown use behind
/// it.
#[derive(Debug, Clone, Copy)]
pub struct GroupHeader {
    pub typ: [u8; 4],
    pub group_size: u32,
    pub label: [u8; 4],
    pub group_type: u32,
    pub timestamp: u16,
    pub vcs_info: u16,
}

/// The header of a group as a file holds it.
#[derive(Debug, Clone, Copy)]
pub struct RawGroupHeader {
    pub typ: [u8; 4],
    pub group_size: u32,
    pub label: [u8; 4],
    pub group_type: u32,
    pub timestamp: u16,
    pub vcs_info: u16,
    pub unknown: u32,
}

/// The header of a field as a file holds it. The size that it states is
/// not always that of the field.
#[derive(Debug, Clone, Copy)]
pub struct RawFieldHeader {
    pub typ: [u8; 4],
    pub field_size: u16,
}

/// The header of a field.
#[derive(Debug, Clone, Copy)]
pub struct FieldHeader {
    pub typ: [u8; 4],
    pub field_size: u16,
}

/// A record: its header and the bytes of its fields.
#[derive(Debug)]
pub struct Record {
    pub header: RawRecordHeader,
    pub data: Vec<u8>,
}

/// A group: its header and the bytes of its records.
#[derive(Debug)]
pub struct Group {
    pub header: RawGroupHeader,
    pub data: Vec<u8>,
}

/// A field: its header and its bytes.
#[derive(Debug)]
pub struct Field {
    pub header: RawFieldHeader,
    pub data: Vec<u8>,
}

/// The four bytes of `b` from `from` on.
fn tag_at(b: &[u8], from: usize) -> (tag: [u8; 4])
    requires
        from + 4 <= b@.len(),
    ensures
        tag@ == b@.subrange(from as int, from + 4),
{
    let tag: [u8; 4] = [b[from], b[from + 1], b[from + 2], b[from + 3]];
    proof {
        assert(tag@ =~= b@.subrange(from as int, from + 4));
    }
    tag
}

impl ConstantSizedRecord for RecordHeader {
    open spec fn spec_size() -> usize {
        RECORD_SIZE
    }

    fn size() -> (n: usize) {
        RECORD_SIZE
    }
}

impl RawRecord for RecordHeader {
    type Raw = RawRecordHeader;
}

impl ParseEsp for RecordHeader {
    open spec fn describes(&self, remaining: Seq<u8>) -> bool {
        &&& self.typ@ == remaining.subrange(0, 4)
        &&& self.data_size == le_at(remaining, 4, 4)
        &&& self.flags == le_at(remaining, 8, 4)
        &&& self.form_id == le_at(remaining, 12, 4)
        &&& self.timestamp == le_at(remaining, 16, 2)
        &&& self.vcs_info == le_at(remaining, 18, 2)
        &&& self.internal_version == le_at(remaining, 20, 2)
    }

    open spec fn length() -> nat {
        RECORD_SIZE as nat
    }

    fn parse(input: &mut ParseStream) -> (r: Result<Self, TryFromArchiveError>) {
        let ghost start = input.remaining();
        let bytes = match input.parse_bytes(RECORD_SIZE) {
            Ok(bytes) => bytes,
            Err(e) => {
                return Err(TryFromArchiveError::Io(e));
            },
        };
        let b = bytes.as_slice();
        proof {
            lemma_fields_of_prefix(start, bytes@);
        }
        Ok(
            RecordHeader {
                typ: tag_at(b, 0),
                data_size: u32_of(slice_subrange(b, 4, 8), false),
                flags: u32_of(slice_subrange(b, 8, 12), false),
                form_id: u32_of(slice_subrange(b, 12, 16), false),
                timestamp: u16_of(slice_subrange(b, 16, 18)),
                vcs_info: u16_of(slice_subrange(b, 18, 20)),
                internal_version: u16_of(slice_subrange(b, 20, 22)),
            },
        )
    }
}

impl ConstantSizedRecord for GroupHeader {
    open spec fn spec_size() -> usize {
        GROUP_SIZE
    }

    fn size() -> (n: usize) {
        GROUP_SIZE
    }
}

impl RawRecord for GroupHeader {
    type Raw = RawGroupHeader;
}

impl ParseEsp for GroupHeader {
    open spec fn describes(&self, remaining: Seq<u8>) -> bool {
        &&& self.typ@ == remaining.subrange(0, 4)
        &&& self.group_size == le_at(remaining, 4, 4)
        &&& self.label@ == remaining.subrange(8, 12)
        &&& self.group_type == le_at(remaining, 12, 4)
        &&& self.timestamp == le_at(remaining, 16, 2)
        &&& self.vcs_info == le_at(remaining, 18, 2)
    }

    open spec fn length() -> nat {
        GROUP_SIZE as nat
    }

    fn parse(input: &mut ParseStream) -> (r: Result<Self, TryFromArchiveError>) {
        let ghost start = input.remaining();
        let bytes = match input.parse_bytes(GROUP_SIZE) {
            Ok(bytes) => bytes,
            Err(e) => {
                return Err(TryFromArchiveError::Io(e));
            },
        };
        let b = bytes.as_slice();
        proof {
            lemma_fields_of_prefix(start, bytes@);
        }
        Ok(
            GroupHeader {
                typ: tag_at(b, 0),
                group_size: u32_of(slice_subrange(b, 4, 8), false),
                label: tag_at(b, 8),
                group_type: u32_of(slice_subrange(b, 12, 16), false),
                timestamp: u16_of(slice_subrange(b, 16, 18)),
                vcs_info: u16_of(slice_subrange(b, 18, 20)),
            },
        )
    }
}

/// The fields of a header are read from the bytes that were taken for it:
/// the bytes behind them make no difference.
pub proof fn lemma_fields_of_prefix(whole: Seq<u8>, prefix: Seq<u8>)
    requires
        prefix.len() == 24,
        prefix.len() <= whole.len(),
        prefix == whole.take(24),
    ensures
        prefix.subrange(0, 4) == whole.subrange(0, 4),
        prefix.subrange(8, 12) == whole.subrange(8, 12),
        le_at(prefix, 4, 4) == le_at(whole, 4, 4),
        le_at(prefix, 8, 4) == le_at(whole, 8, 4),
        le_at(prefix, 12, 4) == le_at(whole, 12, 4),
        le_at(prefix, 16, 2) == le_at(whole, 16, 2),
        le_at(prefix, 18, 2) == le_at(whole, 18, 2),
        le_at(prefix, 20, 2) == le_at(whole, 20, 2),
{
    assert(prefix.subrange(0, 4) =~= whole.subrange(0, 4));
    assert(prefix.subrange(8, 12) =~= whole.subrange(8, 12));
    assert(prefix.subrange(4, 4 + 4int) =~= whole.subrange(4, 4 + 4int));
    assert(prefix.subrange(8, 8 + 4int) =~= whole.subrange(8, 8 + 4int));
    assert(prefix.subrange(12, 12 + 4int) =~= whole.subrange(12, 12 + 4int));
    assert(prefix.subrange(16, 16 + 2int) =~= whole.subrange(16, 16 + 2int));
    assert(prefix.subrange(18, 18 + 2int) =~= whole.subrange(18, 18 + 2int));
    assert(prefix.subrange(20, 20 + 2int) =~= whole.subrange(20, 20 + 2int));
}

impl Record {
    /// The first field of the record: the header that the record's data
    /// begins with, and as many bytes behind it as the header says. There
    /// is none where the data is too short for a header, or for the field
    /// that the header announces.
    pub fn first_field(&self) -> (r: Option<Field>)
        ensures
            match r {
                Some(field) => {
                    &&& self.data@.len() >= FIELD_HEADER_SIZE + le_at(self.data@, 4, 2)
                    &&& field.header.typ@ == self.data@.subrange(0, 4)
                    &&& field.header.field_size == le_at(self.data@, 4, 2)
                    &&& field.data@ == self.data@.subrange(
                        FIELD_HEADER_SIZE as int,
                        FIELD_HEADER_SIZE + le_at(self.data@, 4, 2),
                    )
                },
                None => self.data@.len() < FIELD_HEADER_SIZE || self.data@.len() < FIELD_HEADER_SIZE
                    + le_at(self.data@, 4, 2),
            },
    {
        let b = self.data.as_slice();
        if b.len() < FIELD_HEADER_SIZE {
            return None;
        }
        let header = RawFieldHeader { typ: tag_at(b, 0), field_size: u16_of(slice_subrange(b, 4, 6)) };
        let size = header.field_size as usize;
        if b.len() - FIELD_HEADER_SIZE < size {
            return None;
        }
        let data = crate::stream::copy_range(b, FIELD_HEADER_SIZE, FIELD_HEADER_SIZE + size);
        Some(Field { header, data })
    }
}

} // verus!
