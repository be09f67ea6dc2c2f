//! Reading Bethesda archives: the header, and the records of folders and
//! files.

use crate::error::IoError;
use crate::stream::be_value;
use crate::stream::le_value;
use crate::stream::u16_of;
use crate::stream::u32_of;
use crate::stream::u64_of;
use crate::stream::ParseStream;
use crate::stream::TryFromArchiveError;
use vstd::prelude::*;
use vstd::slice::slice_subrange;

verus! {

/// The archive holds the names of its directories.
pub const INCLUDE_DIR_NAMES: u32 = 0x001;

/// The archive holds the names of its files.
pub const INCLUDE_FILE_NAMES: u32 = 0x002;

/// The files of the archive are compressed, but for those that say
/// otherwise.
pub const COMPRESSED_ARCHIVE: u32 = 0x004;

pub const RETAIN_DIRECTORY_NAMES: u32 = 0x008;

pub const RETAIN_FILE_NAMES: u32 = 0x010;

pub const RETAIN_FILE_NAME_OFFSETS: u32 = 0x020;

/// The archive is for the Xbox 360: its records are in big-endian order.
pub const XBOX360_ARCHIVE: u32 = 0x040;

pub const RETAIN_STRINGS_DURING_STARTUP: u32 = 0x080;

pub const EMBED_FILE_NAMES: u32 = 0x100;

pub const XMEM_CODEC: u32 = 0x200;

/// All the flags that an archive can have.
pub const ALL_ARCHIVE_FLAGS: u32 = 0x3ff;

/// All the flags that say what kinds of file an archive holds: meshes,
/// textures, menus, sounds, voices, shaders, trees, fonts and the rest.
pub const ALL_FILE_FLAGS: u16 = 0x1ff;

/// The bit of a file's size that turns the archive's compression around
/// for that file.
pub const COMPRESSION_TOGGLE: u32 = 0x40000000;

/// The flags of an archive. Only known flags are ever set.
#[derive(Debug, Clone, Copy, PartialEq, Eq, Structural)]
pub struct ArchiveFlags {
    bits: u32,
}

impl ArchiveFlags {
    /// The flags as a number.
    pub closed spec fn spec_bits(self) -> u32 {
        self.bits
    }

    /// The flags as a number.
    #[verifier::when_used_as_spec(spec_bits)]
    pub fn bits(self) -> (b: u32)
        ensures
            b == self.spec_bits(),
    {
        self.bits
    }

    /// The flags that `bits` stand for, unless a bit is set that is no
    /// flag.
    pub fn from_bits(bits: u32) -> (r: Option<ArchiveFlags>)
        ensures
            match r {
                Some(flags) => bits & !ALL_ARCHIVE_FLAGS == 0 && flags.spec_bits() == bits,
                None => bits & !ALL_ARCHIVE_FLAGS != 0,
            },
    {
        if bits & !ALL_ARCHIVE_FLAGS == 0 {
            Some(ArchiveFlags { bits })
        } else {
            None
        }
    }

    /// Whether all the flags of `mask` are set.
    pub fn contains(self, mask: u32) -> (r: bool)
        ensures
            r == (self.spec_bits() & mask == mask),
    {
        self.bits & mask == mask
    }
}

/// The flags that say what kinds of file an archive holds. Only known
/// flags are ever set.
#[derive(Debug, Clone, Copy, PartialEq, Eq, Structural)]
pub struct FileFlags {
    bits: u16,
}

impl FileFlags {
    /// The flags as a number.
    pub closed spec fn spec_bits(self) -> u16 {
        self.bits
    }

    /// The flags as a number.
    #[verifier::when_used_as_spec(spec_bits)]
    pub fn bits(self) -> (b: u16)
        ensures
            b == self.spec_bits(),
    {
        self.bits
    }

    /// The flags that `bits` stand for, unless a bit is set that is no
    /// flag.
    pub fn from_bits(bits: u16) -> (r: Option<FileFlags>)
        ensures
            match r {
                Some(flags) => bits & !ALL_FILE_FLAGS == 0 && flags.spec_bits() == bits,
                None => bits & !ALL_FILE_FLAGS != 0,
            },
    {
        if bits & !ALL_FILE_FLAGS == 0 {
            Some(FileFlags { bits })
        } else {
            None
        }
    }

    /// Whether all the flags of `mask` are set.
    pub fn contains(self, mask: u16) -> (r: bool)
        ensures
            r == (self.spec_bits() & mask == mask),
    {
        self.bits & mask == mask
    }
}

/// The game that an archive was made for.
#[derive(Debug, Clone, Copy, PartialEq, Eq, Structural)]
pub enum ArchiveVersion {
    Oblivion,
    Skyrim,
    SkyrimSE,
}

/// A number that is not that of any variant.
#[derive(Debug, Clone, Copy)]
pub struct EnumTryFromIntError(pub(crate) ());

impl ArchiveVersion {
    /// The number by which an archive names the version.
    pub open spec fn number(self) -> u32 {
        match self {
            ArchiveVersion::Oblivion => 103,
            ArchiveVersion::Skyrim => 104,
            ArchiveVersion::SkyrimSE => 105,
        }
    }

    /// Whether the game is a 64-bit program, whose archives leave room for
    /// wider pointers in their folder records.
    pub open spec fn spec_is_64_bit(&self) -> bool {
        *self == ArchiveVersion::SkyrimSE
    }

    /// Whether the game is a 64-bit program.
    #[verifier::when_used_as_spec(spec_is_64_bit)]
    pub fn is_64_bit(&self) -> (r: bool)
        ensures
            r == self.spec_is_64_bit(),
    {
        match self {
            ArchiveVersion::Oblivion => false,
            ArchiveVersion::Skyrim => false,
            ArchiveVersion::SkyrimSE => true,
        }
    }

    /// The version with the given number.
    pub fn from_primitive(value: u32) -> (r: Option<ArchiveVersion>)
        ensures
            match r {
                Some(v) => v.number() == value,
                None => value < 103 || value > 105,
            },
    {
        if value == 103 {
            Some(ArchiveVersion::Oblivion)
        } else if value == 104 {
            Some(ArchiveVersion::Skyrim)
        } else if value == 105 {
            Some(ArchiveVersion::SkyrimSE)
        } else {
            None
        }
    }

    /// The version with the given number.
    pub fn try_from(value: u32) -> (r: Result<ArchiveVersion, EnumTryFromIntError>)
        ensures
            match r {
                Ok(v) => v.number() == value,
                Err(_) => value < 103 || value > 105,
            },
    {
        match Self::from_primitive(value) {
            Some(v) => Ok(v),
            None => Err(EnumTryFromIntError(())),
        }
    }
}

/// The header of an archive.
#[derive(Debug)]
pub struct ArchiveHeader {
    pub tag: [u8; 4],
    pub version: ArchiveVersion,
    pub offset: u32,
    pub flags: ArchiveFlags,
    pub folder_count: u32,
    pub file_count: u32,
    pub total_folder_name_length: u32,
    pub total_file_name_length: u32,
    pub file_flags: FileFlags,
}

/// The number of bytes of the header's fields, without the padding behind
/// them.
pub const HEADER_FIELDS_SIZE: usize = 34;

/// What is wrong with the fields of a header.
#[derive(Debug, Clone, Copy, PartialEq, Eq, Structural)]
pub enum ErrorKind {
    /// The bytes end before the fields do.
    Eof,
    /// The header does not begin with the tag of an archive.
    Tag,
    /// The version, the flags or the file flags hold a value that they
    /// cannot take.
    MapOpt,
}

/// The tag that every archive begins with.
pub open spec fn archive_tag() -> Seq<u8> {
    seq![66u8, 83u8, 65u8, 0u8]
}

/// The number in little-endian order that `n` bytes of `b` from `from` on
/// are.
pub open spec fn le_at(b: Seq<u8>, from: int, n: int) -> nat {
    le_value(b.subrange(from, from + n))
}

/// The number in big-endian order that `n` bytes of `b` from `from` on
/// are.
pub open spec fn be_at(b: Seq<u8>, from: int, n: int) -> nat {
    be_value(b.subrange(from, from + n))
}

/// What is wrong with the fields of the header that `b` begins with, if
/// anything: the first of a wrong tag, an unknown version, unknown flags,
/// unknown file flags.
pub open spec fn header_fault(b: Seq<u8>) -> Option<ErrorKind> {
    if b.len() < HEADER_FIELDS_SIZE {
        Some(ErrorKind::Eof)
    } else if b.subrange(0, 4) != archive_tag() {
        Some(ErrorKind::Tag)
    } else if le_at(b, 4, 4) < 103 || le_at(b, 4, 4) > 105 {
        Some(ErrorKind::MapOpt)
    } else if (le_at(b, 12, 4) as u32) & !ALL_ARCHIVE_FLAGS != 0 {
        Some(ErrorKind::MapOpt)
    } else if (le_at(b, 32, 2) as u16) & !ALL_FILE_FLAGS != 0 {
        Some(ErrorKind::MapOpt)
    } else {
        None
    }
}

impl ArchiveHeader {
    /// Whether the header holds what the fields in `b` say. The header is
    /// in little-endian order whatever the archive is for.
    pub open spec fn holds(&self, b: Seq<u8>) -> bool {
        &&& self.tag@ == archive_tag()
        &&& self.version.number() == le_at(b, 4, 4)
        &&& self.offset == le_at(b, 8, 4)
        &&& self.flags.spec_bits() == le_at(b, 12, 4)
        &&& self.folder_count == le_at(b, 16, 4)
        &&& self.file_count == le_at(b, 20, 4)
        &&& self.total_folder_name_length == le_at(b, 24, 4)
        &&& self.total_file_name_length == le_at(b, 28, 4)
        &&& self.file_flags.spec_bits() == le_at(b, 32, 2)
    }

    /// The size of the header in an archive.
    pub const SIZE: u32 = 36;

    /// Reads the fields of a header from the beginning of `input` and
    /// returns them with the rest of the input. The padding behind the
    /// fields is part of the rest.
    pub fn parse_from_bytes(input: &[u8]) -> (r: Result<(&[u8], ArchiveHeader), ErrorKind>)
        ensures
            match r {
                Ok(found) => {
                    &&& header_fault(input@) is None
                    &&& found.0@ == input@.skip(HEADER_FIELDS_SIZE as int)
                    &&& found.1.holds(input@)
                },
                Err(kind) => header_fault(input@) == Some(kind),
            },
    {
        if input.len() < HEADER_FIELDS_SIZE {
            return Err(ErrorKind::Eof);
        }
        let tag_bytes = slice_subrange(input, 0, 4);
        if tag_bytes[0] != 66 || tag_bytes[1] != 83 || tag_bytes[2] != 65 || tag_bytes[3] != 0 {
            proof {
                assert(input@.subrange(0, 4) != archive_tag()) by {
                    if input@.subrange(0, 4) == archive_tag() {
                        assert(archive_tag()[0] == 66 && archive_tag()[1] == 83 && archive_tag()[2]
                            == 65 && archive_tag()[3] == 0);
                    }
                }
            }
            return Err(ErrorKind::Tag);
        }
        proof {
            assert(input@.subrange(0, 4) =~= archive_tag());
        }
        let tag: [u8; 4] = [66, 83, 65, 0];
        let version = match ArchiveVersion::from_primitive(
            u32_of(slice_subrange(input, 4, 8), false),
        ) {
            Some(v) => v,
            None => {
                return Err(ErrorKind::MapOpt);
            },
        };
        let offset = u32_of(slice_subrange(input, 8, 12), false);
        let flags = match ArchiveFlags::from_bits(u32_of(slice_subrange(input, 12, 16), false)) {
            Some(f) => f,
            None => {
                return Err(ErrorKind::MapOpt);
            },
        };
        let folder_count = u32_of(slice_subrange(input, 16, 20), false);
        let file_count = u32_of(slice_subrange(input, 20, 24), false);
        let total_folder_name_length = u32_of(slice_subrange(input, 24, 28), false);
        let total_file_name_length = u32_of(slice_subrange(input, 28, 32), false);
        let file_flags = match FileFlags::from_bits(u16_of(slice_subrange(input, 32, 34))) {
            Some(f) => f,
            None => {
                return Err(ErrorKind::MapOpt);
            },
        };
        let rest = slice_subrange(input, HEADER_FIELDS_SIZE, input.len());
        proof {
            assert(rest@ =~= input@.skip(HEADER_FIELDS_SIZE as int));
            assert(tag@ =~= archive_tag());
        }
        Ok(
            (
                rest,
                ArchiveHeader {
                    tag,
                    version,
                    offset,
                    flags,
                    folder_count,
                    file_count,
                    total_folder_name_length,
                    total_file_name_length,
                    file_flags,
                },
            ),
        )
    }

    /// Reads a header from the next 36 bytes of the stream, which have to
    /// be there. A header is refused for a wrong tag, for an unknown
    /// version or unknown flags, and for an offset that is not the size of
    /// a header.
    pub fn try_parse_buf(value: &mut ParseStream) -> (r: Result<ArchiveHeader, TryFromArchiveError>)
        requires
            old(value).wf(),
            old(value).remaining().len() >= ArchiveHeader::SIZE,
        ensures
            final(value).wf(),
            final(value).data() == old(value).data(),
            final(value).pos() == old(value).pos() + ArchiveHeader::SIZE,
            match r {
                Ok(header) => {
                    &&& header_fault(old(value).remaining()) is None
                    &&& header.holds(old(value).remaining())
                    &&& header.offset == ArchiveHeader::SIZE
                },
                Err(TryFromArchiveError::InvalidTag) => header_fault(old(value).remaining())
                    == Some(ErrorKind::Tag),
                Err(TryFromArchiveError::ParseError) => header_fault(old(value).remaining())
                    == Some(ErrorKind::MapOpt),
                Err(TryFromArchiveError::BogusSize) => {
                    &&& header_fault(old(value).remaining()) is None
                    &&& le_at(old(value).remaining(), 8, 4) != ArchiveHeader::SIZE
                },
                Err(_) => false,
            },
    {
        let ghost start = value.remaining();
        let bytes = match value.parse_bytes(36) {
            Ok(bytes) => bytes,
            Err(_) => vstd::pervasive::unreached(),
        };
        proof {
            lemma_header_prefix(start, bytes@);
        }
        match Self::parse_from_bytes(bytes.as_slice()) {
            Ok(found) => {
                if found.1.offset != Self::SIZE {
                    Err(TryFromArchiveError::BogusSize)
                } else {
                    Ok(found.1)
                }
            },
            Err(ErrorKind::Tag) => Err(TryFromArchiveError::InvalidTag),
            Err(_) => Err(TryFromArchiveError::ParseError),
        }
    }

    /// Reads a header from the stream. Where fewer than 36 bytes are left
    /// the call fails and the stream is at its end.
    pub fn try_parse(input: &mut ParseStream) -> (r: Result<ArchiveHeader, TryFromArchiveError>)
        requires
            old(input).wf(),
        ensures
            final(input).wf(),
            final(input).data() == old(input).data(),
            match r {
                Ok(header) => {
                    &&& old(input).remaining().len() >= ArchiveHeader::SIZE
                    &&& header_fault(old(input).remaining()) is None
                    &&& header.holds(old(input).remaining())
                    &&& header.offset == ArchiveHeader::SIZE
                    &&& final(input).pos() == old(input).pos() + ArchiveHeader::SIZE
                },
                Err(TryFromArchiveError::Io(_)) => {
                    &&& old(input).remaining().len() < ArchiveHeader::SIZE
                    &&& final(input).pos() == old(input).data().len()
                },
                Err(TryFromArchiveError::InvalidTag) => {
                    &&& old(input).remaining().len() >= ArchiveHeader::SIZE
                    &&& header_fault(old(input).remaining()) == Some(ErrorKind::Tag)
                },
                Err(TryFromArchiveError::ParseError) => {
                    &&& old(input).remaining().len() >= ArchiveHeader::SIZE
                    &&& header_fault(old(input).remaining()) == Some(ErrorKind::MapOpt)
                },
                Err(TryFromArchiveError::BogusSize) => {
                    &&& old(input).remaining().len() >= ArchiveHeader::SIZE
                    &&& header_fault(old(input).remaining()) is None
                    &&& le_at(old(input).remaining(), 8, 4) != ArchiveHeader::SIZE
                },
            },
    {
        if input.remaining_len() < 36 {
            match input.parse_bytes(36) {
                Ok(_) => vstd::pervasive::unreached(),
                Err(e) => Err(TryFromArchiveError::Io(e)),
            }
        } else {
            Self::try_parse_buf(input)
        }
    }
}

/// A record that can be read from a stream.
pub trait ParseBsa: Sized {
    /// Whether a record can be read from the bytes that are left.
    spec fn accepts(remaining: Seq<u8>) -> bool;

    /// How many bytes a record takes.
    spec fn length() -> nat;

    /// Whether the record holds what the bytes say.
    spec fn describes(&self, remaining: Seq<u8>) -> bool;

    /// Reads a record from the stream. Where that fails for want of bytes
    /// the stream is at its end.
    fn parse(input: &mut ParseStream) -> (r: Result<Self, TryFromArchiveError>)
        requires
            old(input).wf(),
        ensures
            final(input).wf(),
            final(input).data() == old(input).data(),
            match r {
                Ok(record) => {
                    &&& Self::accepts(old(input).remaining())
                    &&& record.describes(old(input).remaining())
                    &&& final(input).pos() == old(input).pos() + Self::length()
                },
                Err(_) => !Self::accepts(old(input).remaining()),
            },
    ;
}

/// A record whose size depends on the version of the archive.
pub trait SizedRecord {
    /// The size of the record in an archive of the given version.
    spec fn spec_size(ver: ArchiveVersion) -> usize;

    /// The size of the record in an archive of the given version.
    fn size(ver: ArchiveVersion) -> (n: usize)
        ensures
            n == Self::spec_size(ver),
    ;
}

impl ParseBsa for ArchiveHeader {
    open spec fn accepts(remaining: Seq<u8>) -> bool {
        remaining.len() >= ArchiveHeader::SIZE && header_fault(remaining) is None
    }

    open spec fn length() -> nat {
        ArchiveHeader::SIZE as nat
    }

    open spec fn describes(&self, remaining: Seq<u8>) -> bool {
        self.holds(remaining)
    }

    fn parse(input: &mut ParseStream) -> (r: Result<Self, TryFromArchiveError>) {
        let ghost start = input.remaining();
        let bytes = match input.parse_bytes(36) {
            Ok(bytes) => bytes,
            Err(e) => {
                return Err(TryFromArchiveError::Io(e));
            },
        };
        proof {
            lemma_header_prefix(start, bytes@);
        }
        match Self::parse_from_bytes(bytes.as_slice()) {
            Ok(found) => Ok(found.1),
            Err(ErrorKind::Tag) => Err(TryFromArchiveError::InvalidTag),
            Err(_) => Err(TryFromArchiveError::ParseError),
        }
    }
}

impl SizedRecord for ArchiveHeader {
    open spec fn spec_size(ver: ArchiveVersion) -> usize {
        36
    }

    fn size(ver: ArchiveVersion) -> (n: usize) {
        36
    }
}

/// The number that `n` bytes of `b` from `from` on are, in big-endian
/// order where `big` is true and in little-endian order where it is not.
pub open spec fn number_at(b: Seq<u8>, from: int, n: int, big: bool) -> nat {
    if big {
        be_at(b, from, n)
    } else {
        le_at(b, from, n)
    }
}

/// The record of a folder as archives of the 64-bit games hold it.
#[derive(Debug, Clone, Copy, PartialEq, Eq, Structural)]
pub struct RawFolderRecord105 {
    pub hash: u64,
    pub count: u32,
    pub pad1: u32,
    pub offset: u32,
    pub pad2: u32,
}

/// The record of a folder as archives of the 32-bit games hold it.
#[derive(Debug, Clone, Copy, PartialEq, Eq, Structural)]
pub struct RawFolderRecord104 {
    pub hash: u64,
    pub count: u32,
    pub offset: u32,
}

/// The record of a folder: the hash of its name, how many files it has,
/// and where their records begin.
#[derive(Debug, Clone, Copy, PartialEq, Eq, Structural)]
pub struct FolderRecord {
    pub hash: u64,
    pub count: u32,
    pub offset: u32,
}

/// The record of a folder under the name that the directory listing of an
/// archive gives it.
#[derive(Debug, Clone, Copy, PartialEq, Eq, Structural)]
pub struct DirectoryRecord {
    pub hash: u64,
    pub count: u32,
    pub offset: u32,
}

/// The record of a file: the hash of its name, its size, and where its
/// data begins.
#[derive(Debug, Clone, Copy, PartialEq, Eq, Structural)]
pub struct FileRecord {
    pub hash: u64,
    pub size: u32,
    pub offset: u32,
}

/// The size of a folder record in an archive of the given version: the
/// 64-bit games leave four bytes free before the offset and four behind
/// it.
pub open spec fn folder_record_size(ver: ArchiveVersion) -> nat {
    if ver.spec_is_64_bit() {
        24
    } else {
        16
    }
}

/// Where the offset stands in a folder record.
pub open spec fn folder_offset_at(ver: ArchiveVersion) -> int {
    if ver.spec_is_64_bit() {
        16
    } else {
        12
    }
}

/// Whether the archive's records are in big-endian order: they are where
/// its flags say that it is for the Xbox 360, and say nothing else.
pub open spec fn is_big_endian(header: &ArchiveHeader) -> bool {
    header.flags.spec_bits() == XBOX360_ARCHIVE
}

impl FolderRecord {
    /// The size of a folder record in an archive of a 64-bit game.
    pub const SIZE: u32 = 24;

    /// Whether the record holds what the bytes in `b` say.
    pub open spec fn holds(&self, b: Seq<u8>, ver: ArchiveVersion, big: bool) -> bool {
        &&& self.hash == number_at(b, 0, 8, big)
        &&& self.count == number_at(b, 8, 4, big)
        &&& self.offset == number_at(b, folder_offset_at(ver), 4, big)
    }

    /// Reads a folder record of an archive of the given version.
    pub fn parse_endian(value: &mut ParseStream, ver: ArchiveVersion, big: bool) -> (r: Result<
        FolderRecord,
        TryFromArchiveError,
    >)
        requires
            old(value).wf(),
        ensures
            final(value).wf(),
            final(value).data() == old(value).data(),
            match r {
                Ok(record) => {
                    &&& old(value).remaining().len() >= folder_record_size(ver)
                    &&& record.holds(old(value).remaining(), ver, big)
                    &&& final(value).pos() == old(value).pos() + folder_record_size(ver)
                },
                Err(e) => {
                    &&& e is Io
                    &&& old(value).remaining().len() < folder_record_size(ver)
                    &&& final(value).pos() == old(value).data().len()
                },
            },
    {
        let ghost start = value.remaining();
        let n: usize = if ver.is_64_bit() {
            24
        } else {
            16
        };
        let bytes = match value.parse_bytes(n) {
            Ok(bytes) => bytes,
            Err(e) => {
                return Err(TryFromArchiveError::Io(e));
            },
        };
        let b = bytes.as_slice();
        let at: usize = if ver.is_64_bit() {
            16
        } else {
            12
        };
        proof {
            lemma_take_fields(start, bytes@);
            assert(number_at(bytes@, 0, 8, big) == number_at(start, 0, 8, big));
            assert(number_at(bytes@, 8, 4, big) == number_at(start, 8, 4, big));
            assert(number_at(bytes@, at as int, 4, big) == number_at(start, at as int, 4, big));
        }
        Ok(
            FolderRecord {
                hash: u64_of(slice_subrange(b, 0, 8), big),
                count: u32_of(slice_subrange(b, 8, 12), big),
                offset: u32_of(slice_subrange(b, at, at + 4), big),
            },
        )
    }

    /// Reads a folder record of the archive with the given header.
    pub fn parse_given(input: &mut ParseStream, header: &ArchiveHeader) -> (r: Result<
        FolderRecord,
        TryFromArchiveError,
    >)
        requires
            old(input).wf(),
        ensures
            final(input).wf(),
            final(input).data() == old(input).data(),
            match r {
                Ok(record) => {
                    &&& old(input).remaining().len() >= folder_record_size(header.version)
                    &&& record.holds(old(input).remaining(), header.version, is_big_endian(header))
                    &&& final(input).pos() == old(input).pos() + folder_record_size(header.version)
                },
                Err(e) => {
                    &&& e is Io
                    &&& old(input).remaining().len() < folder_record_size(header.version)
                    &&& final(input).pos() == old(input).data().len()
                },
            },
    {
        Self::parse_endian(input, header.version, header.flags.bits() == XBOX360_ARCHIVE)
    }

    /// Reads a folder record of an archive of a 64-bit game from the next
    /// 24 bytes of the stream, which have to be there.
    pub fn from_endian(value: &mut ParseStream, big: bool) -> (record: FolderRecord)
        requires
            old(value).wf(),
            old(value).remaining().len() >= FolderRecord::SIZE,
        ensures
            final(value).wf(),
            final(value).data() == old(value).data(),
            final(value).pos() == old(value).pos() + FolderRecord::SIZE,
            record.holds(old(value).remaining(), ArchiveVersion::SkyrimSE, big),
    {
        match Self::parse_endian(value, ArchiveVersion::SkyrimSE, big) {
            Ok(record) => record,
            Err(_) => vstd::pervasive::unreached(),
        }
    }
}

impl SizedRecord for FolderRecord {
    open spec fn spec_size(ver: ArchiveVersion) -> usize {
        folder_record_size(ver) as usize
    }

    fn size(ver: ArchiveVersion) -> (n: usize) {
        if ver.is_64_bit() {
            24
        } else {
            16
        }
    }
}

impl DirectoryRecord {
    /// The distance from one folder record to the next in the archives
    /// that are read by their directory listing.
    pub const RECORD_SIZE: usize = 24;

    /// Whether the record holds what the bytes in `b` say, in
    /// little-endian order.
    pub open spec fn holds(&self, b: Seq<u8>, ver: ArchiveVersion) -> bool {
        &&& self.hash == le_at(b, 0, 8)
        &&& self.count == le_at(b, 8, 4)
        &&& self.offset == le_at(b, folder_offset_at(ver), 4)
    }

    /// Reads a folder record from the beginning of `i` and returns it with
    /// the rest of the input, which begins right behind the offset.
    pub fn parse_from_bytes(i: &[u8], ver: ArchiveVersion) -> (r: Result<
        (&[u8], DirectoryRecord),
        ErrorKind,
    >)
        ensures
            match r {
                Ok(found) => {
                    &&& i@.len() >= folder_offset_at(ver) + 4
                    &&& found.0@ == i@.skip(folder_offset_at(ver) + 4)
                    &&& found.1.holds(i@, ver)
                },
                Err(kind) => kind == ErrorKind::Eof && i@.len() < folder_offset_at(ver) + 4,
            },
    {
        let at: usize = if ver.is_64_bit() {
            16
        } else {
            12
        };
        if i.len() < at + 4 {
            return Err(ErrorKind::Eof);
        }
        let rest = slice_subrange(i, at + 4, i.len());
        proof {
            assert(rest@ =~= i@.skip(at + 4));
        }
        Ok(
            (
                rest,
                DirectoryRecord {
                    hash: u64_of(slice_subrange(i, 0, 8), false),
                    count: u32_of(slice_subrange(i, 8, 12), false),
                    offset: u32_of(slice_subrange(i, at, at + 4), false),
                },
            ),
        )
    }
}

impl FileRecord {
    /// The size of a file record.
    pub const SIZE: u32 = 16;

    /// Whether the record holds what the bytes in `b` say.
    pub open spec fn holds(&self, b: Seq<u8>, big: bool) -> bool {
        &&& self.hash == number_at(b, 0, 8, big)
        &&& self.size == number_at(b, 8, 4, big)
        &&& self.offset == number_at(b, 12, 4, big)
    }

    /// Reads a file record.
    pub fn parse_endian(value: &mut ParseStream, big: bool) -> (r: Result<
        FileRecord,
        TryFromArchiveError,
    >)
        requires
            old(value).wf(),
        ensures
            final(value).wf(),
            final(value).data() == old(value).data(),
            match r {
                Ok(record) => {
                    &&& old(value).remaining().len() >= FileRecord::SIZE
                    &&& record.holds(old(value).remaining(), big)
                    &&& final(value).pos() == old(value).pos() + FileRecord::SIZE
                },
                Err(e) => {
                    &&& e is Io
                    &&& old(value).remaining().len() < FileRecord::SIZE
                    &&& final(value).pos() == old(value).data().len()
                },
            },
    {
        let ghost start = value.remaining();
        let bytes = match value.parse_bytes(16) {
            Ok(bytes) => bytes,
            Err(e) => {
                return Err(TryFromArchiveError::Io(e));
            },
        };
        let b = bytes.as_slice();
        proof {
            lemma_take_fields(start, bytes@);
            assert(number_at(bytes@, 0, 8, big) == number_at(start, 0, 8, big));
            assert(number_at(bytes@, 8, 4, big) == number_at(start, 8, 4, big));
            assert(number_at(bytes@, 12, 4, big) == number_at(start, 12, 4, big));
        }
        Ok(
            FileRecord {
                hash: u64_of(slice_subrange(b, 0, 8), big),
                size: u32_of(slice_subrange(b, 8, 12), big),
                offset: u32_of(slice_subrange(b, 12, 16), big),
            },
        )
    }

    /// Reads a file record of the archive with the given header.
    pub fn parse_given(input: &mut ParseStream, header: &ArchiveHeader) -> (r: Result<
        FileRecord,
        TryFromArchiveError,
    >)
        requires
            old(input).wf(),
        ensures
            final(input).wf(),
            final(input).data() == old(input).data(),
            match r {
                Ok(record) => {
                    &&& old(input).remaining().len() >= FileRecord::SIZE
                    &&& record.holds(old(input).remaining(), is_big_endian(header))
                    &&& final(input).pos() == old(input).pos() + FileRecord::SIZE
                },
                Err(e) => {
                    &&& e is Io
                    &&& old(input).remaining().len() < FileRecord::SIZE
                    &&& final(input).pos() == old(input).data().len()
                },
            },
    {
        Self::parse_endian(input, header.flags.bits() == XBOX360_ARCHIVE)
    }

    /// Reads a file record from the next 16 bytes of the stream, which
    /// have to be there.
    pub fn from_endian(value: &mut ParseStream, big: bool) -> (record: FileRecord)
        requires
            old(value).wf(),
            old(value).remaining().len() >= FileRecord::SIZE,
        ensures
            final(value).wf(),
            final(value).data() == old(value).data(),
            final(value).pos() == old(value).pos() + FileRecord::SIZE,
            record.holds(old(value).remaining(), big),
    {
        match Self::parse_endian(value, big) {
            Ok(record) => record,
            Err(_) => vstd::pervasive::unreached(),
        }
    }

    /// Reads a file record in little-endian order from the beginning of
    /// `input` and returns it with the rest of the input.
    pub fn parse_from_bytes(input: &[u8]) -> (r: Result<(&[u8], FileRecord), ErrorKind>)
        ensures
            match r {
                Ok(found) => {
                    &&& input@.len() >= FileRecord::SIZE
                    &&& found.0@ == input@.skip(FileRecord::SIZE as int)
                    &&& found.1.holds(input@, false)
                },
                Err(kind) => kind == ErrorKind::Eof && input@.len() < FileRecord::SIZE,
            },
    {
        if input.len() < 16 {
            return Err(ErrorKind::Eof);
        }
        let rest = slice_subrange(input, 16, input.len());
        proof {
            assert(rest@ =~= input@.skip(16));
        }
        Ok(
            (
                rest,
                FileRecord {
                    hash: u64_of(slice_subrange(input, 0, 8), false),
                    size: u32_of(slice_subrange(input, 8, 12), false),
                    offset: u32_of(slice_subrange(input, 12, 16), false),
                },
            ),
        )
    }

    /// Whether the file's data is compressed: it is where the archive
    /// compresses its files, unless the file's size says the opposite.
    pub fn is_compressed(&self, header: &ArchiveHeader) -> (r: bool)
        ensures
            r == ((header.flags.spec_bits() & COMPRESSED_ARCHIVE == COMPRESSED_ARCHIVE) != (self.size
                & COMPRESSION_TOGGLE != 0)),
    {
        header.flags.contains(COMPRESSED_ARCHIVE) ^ (self.size & COMPRESSION_TOGGLE != 0)
    }
}

/// The fields of a record are read from the bytes that were taken for it:
/// the bytes behind them make no difference.
pub proof fn lemma_take_fields(whole: Seq<u8>, prefix: Seq<u8>)
    requires
        prefix.len() <= whole.len(),
        prefix == whole.take(prefix.len() as int),
    ensures
        forall|from: int, n: int, big: bool|
            0 <= from && 0 <= n && from + n <= prefix.len() ==> #[trigger] number_at(
                prefix,
                from,
                n,
                big,
            ) == number_at(whole, from, n, big),
{
    assert forall|from: int, n: int, big: bool|
        0 <= from && 0 <= n && from + n <= prefix.len() implies #[trigger] number_at(
        prefix,
        from,
        n,
        big,
    ) == number_at(whole, from, n, big) by {
        assert(prefix.subrange(from, from + n) =~= whole.subrange(from, from + n));
    }
}

/// A reader of an archive: its bytes, and its header once read.
#[derive(Debug)]
pub struct ArchiveReader {
    input: ParseStream,
    header: ArchiveHeader,
}

impl ArchiveReader {
    /// The bytes of the archive.
    pub closed spec fn input(&self) -> ParseStream {
        self.input
    }

    /// The header of the archive.
    pub closed spec fn spec_header(&self) -> ArchiveHeader {
        self.header
    }

    /// Gives the bytes of the archive back.
    pub fn into_inner(self) -> (input: ParseStream)
        ensures
            input == self.input(),
    {
        self.input
    }

    /// A reader of the archive in `input`, whose header is read on the
    /// spot.
    pub fn try_new(input: ParseStream) -> (r: Result<ArchiveReader, TryFromArchiveError>)
        requires
            input.wf(),
        ensures
            match r {
                Ok(reader) => {
                    &&& input.remaining().len() >= ArchiveHeader::SIZE
                    &&& header_fault(input.remaining()) is None
                    &&& reader.spec_header().holds(input.remaining())
                    &&& reader.spec_header().offset == ArchiveHeader::SIZE
                    &&& reader.input().wf()
                    &&& reader.input().data() == input.data()
                    &&& reader.input().pos() == input.pos() + ArchiveHeader::SIZE
                },
                Err(TryFromArchiveError::Io(_)) => input.remaining().len() < ArchiveHeader::SIZE,
                Err(TryFromArchiveError::InvalidTag) => {
                    &&& input.remaining().len() >= ArchiveHeader::SIZE
                    &&& header_fault(input.remaining()) == Some(ErrorKind::Tag)
                },
                Err(TryFromArchiveError::ParseError) => {
                    &&& input.remaining().len() >= ArchiveHeader::SIZE
                    &&& header_fault(input.remaining()) == Some(ErrorKind::MapOpt)
                },
                Err(TryFromArchiveError::BogusSize) => {
                    &&& input.remaining().len() >= ArchiveHeader::SIZE
                    &&& header_fault(input.remaining()) is None
                    &&& le_at(input.remaining(), 8, 4) != ArchiveHeader::SIZE
                },
            },
    {
        let mut input = input;
        let header = match ArchiveHeader::try_parse(&mut input) {
            Ok(header) => header,
            Err(e) => {
                return Err(e);
            },
        };
        Ok(ArchiveReader { input, header })
    }

    /// The header of the archive.
    pub fn header(&self) -> (h: &ArchiveHeader)
        ensures
            *h == self.spec_header(),
    {
        &self.header
    }

    /// Reads the record of folder `n`, which lies behind the header and
    /// the records of the folders before it.
    pub fn get_folder(&mut self, n: u32) -> (r: Result<FolderRecord, IoError>)
        requires
            old(self).input().wf(),
            ArchiveHeader::SIZE + FolderRecord::SIZE * n <= u32::MAX,
        ensures
            final(self).input().wf(),
            final(self).input().data() == old(self).input().data(),
            final(self).spec_header() == old(self).spec_header(),
            match r {
                Ok(record) => {
                    &&& ArchiveHeader::SIZE + FolderRecord::SIZE * n + FolderRecord::SIZE <= old(
                        self,
                    ).input().data().len()
                    &&& record.holds(
                        old(self).input().data().skip(ArchiveHeader::SIZE + FolderRecord::SIZE * n),
                        ArchiveVersion::SkyrimSE,
                        is_big_endian(&old(self).spec_header()),
                    )
                },
                Err(_) => ArchiveHeader::SIZE + FolderRecord::SIZE * n + FolderRecord::SIZE > old(
                    self,
                ).input().data().len(),
            },
    {
        let offset: u32 = 36 + 24 * n;
        self.input.unconditionally_seek(offset as u64);
        if self.input.remaining_len() < 24 {
            return Err(crate::stream::unexpected_eof());
        }
        Ok(FolderRecord::from_endian(&mut self.input, self.header.flags.bits() == XBOX360_ARCHIVE))
    }
}

/// Why the name of a folder could not be read.
#[derive(Debug)]
pub enum NameError {
    /// The name does not end with a zero byte, or has one before its end.
    FromBytesUntilNulError,
    /// The bytes ended before the name did.
    Io(IoError),
}

/// Whether `bytes` are a string with its closing zero byte: they end with
/// a zero byte and hold no other.
pub open spec fn is_c_string(bytes: Seq<u8>) -> bool {
    &&& bytes.len() >= 1
    &&& bytes.last() == 0
    &&& forall|i: int| 0 <= i < bytes.len() - 1 ==> #[trigger] bytes[i] != 0
}

/// The bytes of a string without its closing zero byte, where `bytes` are
/// a string with one.
pub fn c_string_content(bytes: &[u8]) -> (r: Option<Vec<u8>>)
    ensures
        match r {
            Some(content) => is_c_string(bytes@) && content@ == bytes@.drop_last(),
            None => !is_c_string(bytes@),
        },
{
    let n = bytes.len();
    if n == 0 {
        return None;
    }
    if bytes[n - 1] != 0 {
        return None;
    }
    let mut i: usize = 0;
    while i < n - 1
        invariant
            n == bytes@.len(),
            n >= 1,
            i <= n - 1,
            forall|j: int| 0 <= j < i ==> #[trigger] bytes@[j] != 0,
        decreases n - 1 - i,
    {
        if bytes[i] == 0 {
            return None;
        }
        i += 1;
    }
    let content = crate::stream::copy_range(bytes, 0, n - 1);
    proof {
        assert(content@ =~= bytes@.drop_last());
    }
    Some(content)
}

/// A string as archives hold it: one byte that gives its length, then its
/// bytes, the last of which is zero.
#[derive(Debug)]
pub struct BzString {
    data: Vec<u8>,
}

impl BzString {
    /// The bytes of the string, with the byte that gives its length.
    pub closed spec fn data(&self) -> Seq<u8> {
        self.data@
    }

    /// The string that `data` holds.
    pub fn new(data: Vec<u8>) -> (s: BzString)
        ensures
            s.data() == data@,
    {
        BzString { data }
    }

    /// The bytes of the string without the byte that gives its length and
    /// without its closing zero byte. The string is refused where it has
    /// no closing zero byte or has a zero byte before its end.
    pub fn to_bytes(&self) -> (r: Result<Vec<u8>, NameError>)
        ensures
            match r {
                Ok(content) => {
                    &&& self.data().len() >= 1
                    &&& is_c_string(self.data().skip(1))
                    &&& content@ == self.data().skip(1).drop_last()
                },
                Err(e) => {
                    &&& e is FromBytesUntilNulError
                    &&& self.data().len() < 1 || !is_c_string(self.data().skip(1))
                },
            },
    {
        if self.data.len() < 1 {
            return Err(NameError::FromBytesUntilNulError);
        }
        let tail = slice_subrange(self.data.as_slice(), 1, self.data.len());
        proof {
            assert(tail@ =~= self.data().skip(1));
        }
        match c_string_content(tail) {
            Some(content) => Ok(content),
            None => Err(NameError::FromBytesUntilNulError),
        }
    }
}

/// A reader of one folder of an archive.
#[derive(Debug)]
pub struct DirectoryReader {
    inner: ArchiveReader,
    header: FolderRecord,
}

impl DirectoryReader {
    /// The reader of the archive.
    pub closed spec fn inner(&self) -> ArchiveReader {
        self.inner
    }

    /// The record of the folder.
    pub closed spec fn record(&self) -> FolderRecord {
        self.header
    }

    /// A reader of the folder with the given record.
    pub fn new(inner: ArchiveReader, header: FolderRecord) -> (reader: DirectoryReader)
        ensures
            reader.inner() == inner,
            reader.record() == header,
    {
        DirectoryReader { inner, header }
    }

    /// Gives the reader of the archive back.
    pub fn into_inner(self) -> (inner: ArchiveReader)
        ensures
            inner == self.inner(),
    {
        self.inner
    }

    /// Where the folder's name and file records begin in the archive: its
    /// offset counts the names of all files in, which lie elsewhere.
    pub fn real_offset(&self) -> (offset: u32)
        requires
            self.record().offset >= self.inner().spec_header().total_file_name_length,
        ensures
            offset == self.record().offset - self.inner().spec_header().total_file_name_length,
    {
        self.header.offset - self.inner.header.total_file_name_length
    }

    /// The bytes of the archive from where the folder's name begins.
    pub open spec fn name_area(&self) -> Seq<u8> {
        let at = self.record().offset - self.inner().spec_header().total_file_name_length;
        if at <= self.inner().input().data().len() {
            self.inner().input().data().skip(at)
        } else {
            Seq::empty()
        }
    }

    /// The length that the folder's name is held with, where the archive
    /// holds that many bytes behind it.
    pub open spec fn name_length(&self) -> Option<int> {
        let area = self.name_area();
        if area.len() >= 1 && 1 + area[0] <= area.len() {
            Some(area[0] as int)
        } else {
            None
        }
    }

    /// The bytes that the folder's name is held as.
    pub open spec fn name_bytes(&self) -> Seq<u8> {
        self.name_area().subrange(1, 1 + self.name_length()->0)
    }

    /// Reads the name of the folder, which the archive has to hold: a
    /// string preceded by its length, with a closing zero byte.
    pub fn name(&mut self) -> (r: Result<Vec<u8>, NameError>)
        requires
            old(self).inner().input().wf(),
            old(self).inner().spec_header().flags.spec_bits() & INCLUDE_DIR_NAMES
                == INCLUDE_DIR_NAMES,
            old(self).record().offset >= old(self).inner().spec_header().total_file_name_length,
        ensures
            final(self).inner().input().wf(),
            final(self).inner().input().data() == old(self).inner().input().data(),
            final(self).inner().spec_header() == old(self).inner().spec_header(),
            final(self).record() == old(self).record(),
            match r {
                Ok(name) => {
                    &&& old(self).name_length() is Some
                    &&& is_c_string(old(self).name_bytes())
                    &&& name@ == old(self).name_bytes().drop_last()
                },
                Err(NameError::Io(_)) => old(self).name_length() is None,
                Err(NameError::FromBytesUntilNulError) => {
                    &&& old(self).name_length() is Some
                    &&& !is_c_string(old(self).name_bytes())
                },
            },
    {
        let at = self.real_offset();
        self.inner.input.unconditionally_seek(at as u64);
        proof {
            assert(self.inner.input.remaining() =~= old(self).name_area());
        }
        let bytes = match self.inner.input.parse_bstring() {
            Ok(bytes) => bytes,
            Err(TryFromArchiveError::Io(e)) => {
                return Err(NameError::Io(e));
            },
            Err(_) => {
                return Err(NameError::FromBytesUntilNulError);
            },
        };
        match c_string_content(bytes.as_slice()) {
            Some(name) => Ok(name),
            None => Err(NameError::FromBytesUntilNulError),
        }
    }
}

/// The name of a folder with the records of its files.
#[derive(Debug)]
pub struct FileRecordHeader<'a> {
    pub name: Vec<u8>,
    pub file_records: Vec<&'a FileRecord>,
}

/// A walk over the folders of an archive with the given header.
#[derive(Debug)]
pub struct DirectoryIterator<'a> {
    pub arch: &'a ArchiveHeader,
}

/// A folder of an archive that was read in full: its name, the hash of
/// its name, and where its files begin among all files of the archive.
#[derive(Debug)]
pub struct IndexedFolder {
    pub name: Vec<u8>,
    pub hash: u64,
    pub first_file_idx: u32,
}

/// A file of an archive that was read in full: its path, where the
/// archive holds names, and the size of its data.
#[derive(Debug)]
pub struct IndexedFile {
    pub path: Option<Vec<u8>>,
    pub data_size: u64,
}

/// An archive that was read in full.
#[derive(Debug)]
pub struct IndexedArchive {
    pub header: ArchiveHeader,
    pub file_hashes: Vec<u64>,
    pub file_names: Vec<Vec<u8>>,
    pub folders: Vec<IndexedFolder>,
}

/// An archive held in memory: its bytes, and its header once read.
#[derive(Debug)]
pub struct Archive {
    inner: Vec<u8>,
    header: ArchiveHeader,
}

/// The folder records of an archive.
#[derive(Debug)]
pub struct Directories<'a> {
    arch: &'a Archive,
}

/// One folder of an archive.
#[derive(Debug)]
pub struct Directory<'a> {
    arch: &'a Archive,
    dir: DirectoryRecord,
}

impl Archive {
    /// The bytes of the archive.
    pub closed spec fn bytes(&self) -> Seq<u8> {
        self.inner@
    }

    /// The header of the archive.
    pub closed spec fn spec_header(&self) -> ArchiveHeader {
        self.header
    }

    /// The header of the archive.
    pub fn header(&self) -> (h: &ArchiveHeader)
        ensures
            *h == self.spec_header(),
    {
        &self.header
    }

    /// The archive that `value` holds. Its header is read on the spot.
    pub fn try_from(value: Vec<u8>) -> (r: Result<Archive, ErrorKind>)
        ensures
            match r {
                Ok(archive) => {
                    &&& header_fault(value@) is None
                    &&& archive.spec_header().holds(value@)
                    &&& archive.bytes() == value@
                },
                Err(kind) => header_fault(value@) == Some(kind),
            },
    {
        let header = match ArchiveHeader::parse_from_bytes(value.as_slice()) {
            Ok(found) => found.1,
            Err(kind) => {
                return Err(kind);
            },
        };
        Ok(Archive { inner: value, header })
    }

    /// The folder records of the archive.
    pub fn directories(&self) -> (d: Directories<'_>)
        ensures
            d.archive() == self,
    {
        Directories { arch: self }
    }
}

impl<'a> Directories<'a> {
    /// The archive whose folder records these are.
    pub closed spec fn archive(&self) -> &Archive {
        self.arch
    }

    /// Where the record of folder `n` begins in the archive.
    pub open spec fn record_start(&self, n: u32) -> int {
        self.archive().spec_header().offset + n * DirectoryRecord::RECORD_SIZE
    }

    /// The number of folders of the archive.
    pub fn len(&self) -> (n: u32)
        ensures
            n == self.archive().spec_header().folder_count,
    {
        self.arch.header.folder_count
    }

    /// The record of folder `n`: the one that begins behind the header
    /// and the records of the folders before it. There is none where the
    /// archive ends before the record does.
    pub fn get(&self, n: u32) -> (r: Option<DirectoryRecord>)
        ensures
            match r {
                Some(record) => {
                    &&& self.record_start(n) + folder_offset_at(self.archive().spec_header().version) + 4
                        <= self.archive().bytes().len()
                    &&& record.holds(
                        self.archive().bytes().skip(self.record_start(n)),
                        self.archive().spec_header().version,
                    )
                },
                None => self.record_start(n) + folder_offset_at(self.archive().spec_header().version) + 4
                    > self.archive().bytes().len(),
            },
    {
        let start: u64 = self.arch.header.offset as u64 + (n as u64) * 24;
        if start > self.arch.inner.len() as u64 {
            return None;
        }
        let rest = slice_subrange(self.arch.inner.as_slice(), start as usize, self.arch.inner.len());
        proof {
            assert(rest@ =~= self.archive().bytes().skip(self.record_start(n)));
        }
        match DirectoryRecord::parse_from_bytes(rest, self.arch.header.version) {
            Ok(found) => Some(found.1),
            Err(_) => None,
        }
    }

    /// Folder `n` of the archive, where the archive holds its record.
    pub fn directory(&self, n: u32) -> (r: Option<Directory<'a>>)
        ensures
            match r {
                Some(directory) => {
                    &&& self.record_start(n) + folder_offset_at(self.archive().spec_header().version) + 4
                        <= self.archive().bytes().len()
                    &&& directory.record().holds(
                        self.archive().bytes().skip(self.record_start(n)),
                        self.archive().spec_header().version,
                    )
                },
                None => self.record_start(n) + folder_offset_at(self.archive().spec_header().version) + 4
                    > self.archive().bytes().len(),
            },
    {
        match self.get(n) {
            Some(dir) => Some(Directory { arch: self.arch, dir }),
            None => None,
        }
    }
}

impl<'a> Directory<'a> {
    /// The record of the folder.
    pub closed spec fn record(&self) -> DirectoryRecord {
        self.dir
    }

    /// The number of files of the folder.
    pub fn len(&self) -> (n: u32)
        ensures
            n == self.record().count,
    {
        self.dir.count
    }
}

impl TryFromArchiveError {
    /// What the failure is called.
    pub fn to_string(&self) -> (text: String)
        ensures
            text@ == match self {
                TryFromArchiveError::InvalidTag => "Invalid Type Tag"@,
                TryFromArchiveError::BogusSize => "Bogus size in archive data"@,
                TryFromArchiveError::ParseError => "Parsing error"@,
                TryFromArchiveError::Io(_) => "IO Error"@,
            },
    {
        match self {
            TryFromArchiveError::InvalidTag => "Invalid Type Tag".to_owned(),
            TryFromArchiveError::BogusSize => "Bogus size in archive data".to_owned(),
            TryFromArchiveError::ParseError => "Parsing error".to_owned(),
            TryFromArchiveError::Io(_) => "IO Error".to_owned(),
        }
    }
}

/// The fields of a header are read from its first 34 bytes: bytes behind
/// them make no difference.
pub proof fn lemma_header_prefix(whole: Seq<u8>, prefix: Seq<u8>)
    requires
        prefix.len() >= HEADER_FIELDS_SIZE,
        prefix.len() <= whole.len(),
        prefix == whole.take(prefix.len() as int),
    ensures
        header_fault(prefix) == header_fault(whole),
        forall|from: int, n: int|
            0 <= from && 0 <= n && from + n <= prefix.len() ==> #[trigger] le_at(prefix, from, n)
                == le_at(whole, from, n),
        forall|from: int, n: int|
            0 <= from && 0 <= n && from + n <= prefix.len() ==> #[trigger] be_at(prefix, from, n)
                == be_at(whole, from, n),
{
    assert forall|from: int, n: int|
        0 <= from && 0 <= n && from + n <= prefix.len() implies prefix.subrange(from, from + n)
        == #[trigger] whole.subrange(from, from + n) by {
        assert(prefix.subrange(from, from + n) =~= whole.subrange(from, from + n));
    }
    assert(prefix.subrange(0, 4) == whole.subrange(0, 4));
    assert(prefix.subrange(4, 4 + 4int) == whole.subrange(4, 4 + 4int));
    assert(prefix.subrange(12, 12 + 4int) == whole.subrange(12, 12 + 4int));
    assert(prefix.subrange(32, 32 + 2int) == whole.subrange(32, 32 + 2int));
}

} // verus!
