use mm_store::archive::{
    extraction_outcome, ArchiveOptions, CompressionMethod, EntryMetadata, EntryMetadataData, ExtractError,
    SevenZExitCode,
};
use mm_store::bsa::{
    c_string_content, ArchiveFlags, ArchiveHeader, ArchiveReader, ArchiveVersion, BzString,
    DirectoryReader, DirectoryRecord, ErrorKind, FileFlags, FileRecord, FolderRecord, ParseBsa,
    SizedRecord, COMPRESSED_ARCHIVE, INCLUDE_DIR_NAMES, INCLUDE_FILE_NAMES, XBOX360_ARCHIVE,
};
use mm_store::esp::{
    ConstantSizedRecord, GroupHeader, ParseEsp, RawRecordHeader, Record, RecordHeader, SeekPredicate,
    GROUP_SIZE,
};
use mm_store::bsa::NameError;
use mm_store::launcher::{make_exe_version, make_u32array, make_u8array, ModEnvironment};
use mm_store::name_map::NameMap;
use mm_store::names::{compare_bytes, compare_names, same_name, NameOrder};
use mm_store::nexus::NexusApi;
use mm_store::perms::{
    access_mask_to_unix_perms, get_owner_permissions, get_unixy_mode, unix_perms_to_access_mask,
    EffectiveRights,
    PermissionsExtExt, UnixMode, FILE_GENERIC_EXECUTE, FILE_GENERIC_READ, FILE_GENERIC_WRITE,
};
use mm_store::stream::{u16_of, u32_of, u64_of, ParseStream, ReadSpan, TryFromArchiveError};

fn header_bytes(version: u32, flags: u32) -> Vec<u8> {
    let mut b = Vec::new();
    b.extend_from_slice(b"BSA\0");
    b.extend_from_slice(&version.to_le_bytes());
    b.extend_from_slice(&36u32.to_le_bytes());
    b.extend_from_slice(&flags.to_le_bytes());
    b.extend_from_slice(&2u32.to_le_bytes());
    b.extend_from_slice(&5u32.to_le_bytes());
    b.extend_from_slice(&11u32.to_le_bytes());
    b.extend_from_slice(&40u32.to_le_bytes());
    b.extend_from_slice(&3u16.to_le_bytes());
    b.extend_from_slice(&[0, 0]);
    b
}

fn folder_bytes(hash: u64, count: u32, offset: u32) -> Vec<u8> {
    let mut b = Vec::new();
    b.extend_from_slice(&hash.to_le_bytes());
    b.extend_from_slice(&count.to_le_bytes());
    b.extend_from_slice(&[0xee; 4]);
    b.extend_from_slice(&offset.to_le_bytes());
    b.extend_from_slice(&[0xee; 4]);
    b
}

fn test_archive() -> Vec<u8> {
    let mut b = header_bytes(105, INCLUDE_DIR_NAMES | INCLUDE_FILE_NAMES);
    b.extend(folder_bytes(0x1111, 3, 36 + 48 + 40));
    b.extend(folder_bytes(0x2222, 2, 36 + 48 + 40 + 60));
    b.extend_from_slice(&[6]);
    b.extend_from_slice(b"hello\0");
    b.extend_from_slice(&[0; 16]);
    b
}

#[test]
fn test_bzstring() {
    let test_data = [5, b'h', b'e', b'l', b'l', b'o', 0];
    let test_bz = BzString::new(test_data.to_vec());
    let test_cstr = test_bz.to_bytes().unwrap();
    assert_eq!(std::str::from_utf8(&test_cstr).unwrap(), "hello");
    let test_cstring: Vec<u8> = test_bz.to_bytes().unwrap();
    assert_eq!(String::from_utf8(test_cstring).unwrap(), "hello");
}

#[test]
fn bzstring_needs_its_closing_zero() {
    assert!(BzString::new(vec![5, b'h', b'i']).to_bytes().is_err());
    assert!(BzString::new(vec![5, b'h', 0, b'i', 0]).to_bytes().is_err());
    assert!(BzString::new(vec![]).to_bytes().is_err());
    assert!(BzString::new(vec![0]).to_bytes().is_err());
    assert_eq!(BzString::new(vec![1, 0]).to_bytes().unwrap(), Vec::<u8>::new());
    assert_eq!(c_string_content(b"ab\0").unwrap(), b"ab");
    assert!(c_string_content(b"ab").is_none());
}

#[test]
fn raw_test_archive_header() {
    let mut input = ParseStream::new(test_archive());
    let hdr = ArchiveHeader::try_parse(&mut input).unwrap();
    assert_eq!(&hdr.tag, b"BSA\0");
    assert_eq!(hdr.version, ArchiveVersion::SkyrimSE);
    assert_eq!(hdr.offset, 36);
    assert_eq!(hdr.flags.bits(), 3);
    assert_eq!(hdr.folder_count, 2);
    assert_eq!(hdr.file_count, 5);
    assert_eq!(hdr.total_folder_name_length, 11);
    assert_eq!(hdr.total_file_name_length, 40);
    assert_eq!(hdr.file_flags.bits(), 3);
    assert_eq!(input.position(), 36);
}

#[test]
fn raw_test_archive_reader() {
    let mut reader = ArchiveReader::try_new(ParseStream::new(test_archive())).unwrap();
    assert_eq!(reader.header().folder_count, 2);
    let folder = reader.get_folder(1).unwrap();
    assert_eq!(folder, FolderRecord { hash: 0x2222, count: 2, offset: 36 + 48 + 40 + 60 });
    let first = reader.get_folder(0).unwrap();
    assert_eq!(first, FolderRecord { hash: 0x1111, count: 3, offset: 36 + 48 + 40 });
    assert!(reader.get_folder(4).is_err());
    let mut dir = DirectoryReader::new(reader, first);
    assert_eq!(dir.real_offset(), 36 + 48);
    assert_eq!(dir.name().unwrap(), b"hello");
    let reader = dir.into_inner();
    assert_eq!(reader.into_inner().into_inner(), test_archive());
}

#[test]
fn bsa_test_archive_header() {
    let mut input = ParseStream::new(test_archive());
    let hdr = <ArchiveHeader as ParseBsa>::parse(&mut input).unwrap();
    assert_eq!(hdr.version, ArchiveVersion::SkyrimSE);
    assert_eq!(hdr.file_count, 5);
}

#[test]
fn bsa_test_archive_reader() {
    let mut input = ParseStream::new(test_archive());
    let reader = <ArchiveHeader as ParseBsa>::parse(&mut input).unwrap();
    let folder = FolderRecord::parse_given(&mut input, &reader).unwrap();
    assert_eq!(folder.hash, 0x1111);
    let folder = FolderRecord::parse_given(&mut input, &reader).unwrap();
    assert_eq!(folder, FolderRecord { hash: 0x2222, count: 2, offset: 184 });
    input.unconditionally_seek(folder.offset as u64 - reader.total_file_name_length as u64 - 60);
    assert_eq!(input.parse_bstring().unwrap(), b"hello\0");
    let file = FileRecord::parse_given(&mut input, &reader).unwrap();
    assert_eq!(file, FileRecord { hash: 0, size: 0, offset: 0 });
}

#[test]
fn archive_header_faults() {
    let good = header_bytes(104, 0);
    let (rest, hdr) = ArchiveHeader::parse_from_bytes(&good).unwrap();
    assert_eq!(rest, &[0, 0]);
    assert_eq!(hdr.version, ArchiveVersion::Skyrim);
    assert_eq!(ArchiveHeader::parse_from_bytes(&good[..33]).unwrap_err(), ErrorKind::Eof);
    let mut bad_tag = good.clone();
    bad_tag[2] = b'B';
    assert_eq!(ArchiveHeader::parse_from_bytes(&bad_tag).unwrap_err(), ErrorKind::Tag);
    assert_eq!(ArchiveHeader::parse_from_bytes(&header_bytes(106, 0)).unwrap_err(), ErrorKind::MapOpt);
    assert_eq!(ArchiveHeader::parse_from_bytes(&header_bytes(105, 0x400)).unwrap_err(), ErrorKind::MapOpt);
    let mut bad_file_flags = good.clone();
    bad_file_flags[33] = 0x02;
    assert_eq!(ArchiveHeader::parse_from_bytes(&bad_file_flags).unwrap_err(), ErrorKind::MapOpt);

    let mut s = ParseStream::new(bad_tag);
    assert!(matches!(ArchiveHeader::try_parse(&mut s), Err(TryFromArchiveError::InvalidTag)));
    let mut s = ParseStream::new(header_bytes(1, 0));
    assert!(matches!(ArchiveHeader::try_parse(&mut s), Err(TryFromArchiveError::ParseError)));
    let mut wrong_offset = good.clone();
    wrong_offset[8] = 37;
    let mut s = ParseStream::new(wrong_offset.clone());
    assert!(matches!(ArchiveHeader::try_parse(&mut s), Err(TryFromArchiveError::BogusSize)));
    let mut s = ParseStream::new(wrong_offset);
    assert_eq!(<ArchiveHeader as ParseBsa>::parse(&mut s).unwrap().offset, 37);
    let mut s = ParseStream::new(good[..20].to_vec());
    assert!(matches!(ArchiveHeader::try_parse(&mut s), Err(TryFromArchiveError::Io(_))));
    assert_eq!(s.position(), 20);
    assert!(matches!(
        ArchiveReader::try_new(ParseStream::new(vec![1, 2, 3])),
        Err(TryFromArchiveError::Io(_))
    ));
}

#[test]
fn archive_version() {
    assert!(!ArchiveVersion::Oblivion.is_64_bit());
    assert!(!ArchiveVersion::Skyrim.is_64_bit());
    assert!(ArchiveVersion::SkyrimSE.is_64_bit());
    assert_eq!(ArchiveVersion::from_primitive(103), Some(ArchiveVersion::Oblivion));
    assert_eq!(ArchiveVersion::from_primitive(104), Some(ArchiveVersion::Skyrim));
    assert_eq!(ArchiveVersion::from_primitive(105), Some(ArchiveVersion::SkyrimSE));
    assert_eq!(ArchiveVersion::from_primitive(102), None);
    assert_eq!(ArchiveVersion::from_primitive(106), None);
    assert!(ArchiveVersion::try_from(0).is_err());
    assert_eq!(ArchiveVersion::try_from(105).unwrap(), ArchiveVersion::SkyrimSE);
}

#[test]
fn archive_flags() {
    assert_eq!(ArchiveFlags::from_bits(0x3ff).unwrap().bits(), 0x3ff);
    assert!(ArchiveFlags::from_bits(0x400).is_none());
    let f = ArchiveFlags::from_bits(COMPRESSED_ARCHIVE | XBOX360_ARCHIVE).unwrap();
    assert!(f.contains(COMPRESSED_ARCHIVE));
    assert!(f.contains(COMPRESSED_ARCHIVE | XBOX360_ARCHIVE));
    assert!(!f.contains(INCLUDE_DIR_NAMES));
    assert_eq!(FileFlags::from_bits(0x1ff).unwrap().bits(), 0x1ff);
    assert!(FileFlags::from_bits(0x200).is_none());
    assert!(FileFlags::from_bits(5).unwrap().contains(4));
}

#[test]
fn folder_records_by_version_and_order() {
    let mut s = ParseStream::new(folder_bytes(0x0102030405060708, 9, 0x0a0b0c0d));
    let r = FolderRecord::parse_endian(&mut s, ArchiveVersion::SkyrimSE, false).unwrap();
    assert_eq!(r, FolderRecord { hash: 0x0102030405060708, count: 9, offset: 0x0a0b0c0d });
    assert_eq!(s.position(), 24);

    let mut short = Vec::new();
    short.extend_from_slice(&7u64.to_le_bytes());
    short.extend_from_slice(&8u32.to_le_bytes());
    short.extend_from_slice(&9u32.to_le_bytes());
    let mut s = ParseStream::new(short.clone());
    let r = FolderRecord::parse_endian(&mut s, ArchiveVersion::Skyrim, false).unwrap();
    assert_eq!(r, FolderRecord { hash: 7, count: 8, offset: 9 });
    assert_eq!(s.position(), 16);
    let mut s = ParseStream::new(short);
    assert!(FolderRecord::parse_endian(&mut s, ArchiveVersion::SkyrimSE, false).is_err());

    let mut big = Vec::new();
    big.extend_from_slice(&0x0102030405060708u64.to_be_bytes());
    big.extend_from_slice(&0x11223344u32.to_be_bytes());
    big.extend_from_slice(&[0; 4]);
    big.extend_from_slice(&0x55667788u32.to_be_bytes());
    big.extend_from_slice(&[0; 4]);
    let mut s = ParseStream::new(big.clone());
    let r = FolderRecord::from_endian(&mut s, true);
    assert_eq!(r, FolderRecord { hash: 0x0102030405060708, count: 0x11223344, offset: 0x55667788 });

    let xbox = ArchiveHeader::parse_from_bytes(&header_bytes(105, XBOX360_ARCHIVE)).unwrap().1;
    let mut s = ParseStream::new(big);
    assert_eq!(FolderRecord::parse_given(&mut s, &xbox).unwrap().count, 0x11223344);
    assert_eq!(<FolderRecord as SizedRecord>::size(ArchiveVersion::SkyrimSE), 24);
    assert_eq!(<FolderRecord as SizedRecord>::size(ArchiveVersion::Oblivion), 16);
    assert_eq!(<ArchiveHeader as SizedRecord>::size(ArchiveVersion::Oblivion), 36);
}

#[test]
fn directory_and_file_records_from_bytes() {
    let bytes = folder_bytes(5, 6, 7);
    let (rest, r) = DirectoryRecord::parse_from_bytes(&bytes, ArchiveVersion::SkyrimSE).unwrap();
    assert_eq!(r, DirectoryRecord { hash: 5, count: 6, offset: 7 });
    assert_eq!(rest, &[0xee; 4]);
    let (rest, r) = DirectoryRecord::parse_from_bytes(&bytes, ArchiveVersion::Skyrim).unwrap();
    assert_eq!(r, DirectoryRecord { hash: 5, count: 6, offset: 0xeeeeeeee });
    assert_eq!(rest.len(), 8);
    assert_eq!(DirectoryRecord::parse_from_bytes(&bytes[..15], ArchiveVersion::Skyrim).unwrap_err(), ErrorKind::Eof);

    let mut f = Vec::new();
    f.extend_from_slice(&1u64.to_le_bytes());
    f.extend_from_slice(&0x40000010u32.to_le_bytes());
    f.extend_from_slice(&99u32.to_le_bytes());
    f.push(0xaa);
    let (rest, r) = FileRecord::parse_from_bytes(&f).unwrap();
    assert_eq!(r, FileRecord { hash: 1, size: 0x40000010, offset: 99 });
    assert_eq!(rest, &[0xaa]);
    assert_eq!(FileRecord::parse_from_bytes(&f[..15]).unwrap_err(), ErrorKind::Eof);
    let mut s = ParseStream::new(f.clone());
    assert_eq!(FileRecord::from_endian(&mut s, false), r);
    let mut s = ParseStream::new(f);
    assert_eq!(FileRecord::parse_endian(&mut s, false).unwrap(), r);

    let plain = ArchiveHeader::parse_from_bytes(&header_bytes(105, 0)).unwrap().1;
    let packed = ArchiveHeader::parse_from_bytes(&header_bytes(105, COMPRESSED_ARCHIVE)).unwrap().1;
    let toggled = FileRecord { hash: 0, size: 0x40000010, offset: 0 };
    let straight = FileRecord { hash: 0, size: 0x10, offset: 0 };
    assert!(toggled.is_compressed(&plain));
    assert!(!toggled.is_compressed(&packed));
    assert!(!straight.is_compressed(&plain));
    assert!(straight.is_compressed(&packed));
}

#[test]
fn numbers_in_both_orders() {
    assert_eq!(u16_of(&[0x34, 0x12]), 0x1234);
    assert_eq!(u32_of(&[0x78, 0x56, 0x34, 0x12], false), 0x12345678);
    assert_eq!(u32_of(&[0x78, 0x56, 0x34, 0x12], true), 0x78563412);
    assert_eq!(u64_of(&[1, 2, 3, 4, 5, 6, 7, 8], false), 0x0807060504030201);
    assert_eq!(u64_of(&[1, 2, 3, 4, 5, 6, 7, 8], true), 0x0102030405060708);
    assert_eq!(u32_of(&[0xff; 4], false), u32::MAX);
    assert_eq!(u64_of(&[0xff; 8], true), u64::MAX);
}

#[test]
fn stream_reads() {
    let mut s = ParseStream::new(vec![1, 2, 3, 4, 5, 6, 7, 8, 9, 10]);
    assert_eq!(s.remaining_len(), 10);
    assert_eq!(s.read_u8().unwrap(), 1);
    assert_eq!(s.read_u16().unwrap(), 0x0302);
    assert_eq!(s.read(2), vec![4, 5]);
    assert_eq!(s.position(), 5);
    s.skip(1).unwrap();
    assert_eq!(s.read_u32(true).unwrap(), 0x0708090a);
    assert!(s.read_u8().is_err());
    assert_eq!(s.read(4), Vec::<u8>::new());
    assert_eq!(s.unconditionally_seek(2), 2);
    assert_eq!(s.read_u64(false).unwrap(), 0x0a09080706050403);
    assert_eq!(s.unconditionally_seek(100), 10);
    s.unconditionally_seek(8);
    assert!(s.parse_bytes(3).is_err());
    assert_eq!(s.position(), 10);
    s.unconditionally_seek(8);
    assert!(s.skip(3).is_err());
    assert_eq!(s.parse_from_span(ReadSpan { offset: 3, size: 4 }).unwrap(), vec![4, 5, 6, 7]);
    assert!(s.parse_from_span(ReadSpan { offset: 8, size: 4 }).is_err());
    assert_eq!(s.parse_from_span(ReadSpan { offset: 50, size: 0 }).unwrap(), Vec::<u8>::new());
    assert_eq!(SeekPredicate::unconditionally_seek(&mut s, 4), 4);
}

#[test]
fn stream_tags_and_strings() {
    let mut s = ParseStream::new(b"TES4\x03abcXYZ".to_vec());
    assert_eq!(s.eat_tag(b"TES4").unwrap(), b"TES4");
    assert_eq!(s.parse_bstring().unwrap(), b"abc");
    assert!(matches!(s.eat_tag(b"XYA"), Err(TryFromArchiveError::InvalidTag)));
    assert!(matches!(s.eat_tag(b"X"), Err(TryFromArchiveError::Io(_))));
    let mut s = ParseStream::new(vec![5, b'a']);
    assert!(matches!(s.parse_bstring(), Err(TryFromArchiveError::Io(_))));
    assert_eq!(s.position(), 2);
    let mut s = ParseStream::new(vec![6, b'h', b'e', b'l', b'l', b'o', 0, 3, b'a', b'b', b'c', 1]);
    assert_eq!(s.parse_bzstring().unwrap(), b"hello");
    assert!(matches!(s.parse_bzstring(), Err(TryFromArchiveError::ParseError)));
    assert_eq!(s.position(), 11);
    assert!(matches!(s.parse_bzstring(), Err(TryFromArchiveError::Io(_))));
}

#[test]
fn first_field() {
    let mut data = Vec::new();
    data.extend_from_slice(b"TES4");
    data.extend_from_slice(&52u32.to_le_bytes());
    data.extend_from_slice(&[0; 16]);
    let mut s = ParseStream::new(data.clone());
    let rec_hdr = RecordHeader::parse(&mut s).unwrap();
    assert_eq!(rec_hdr.typ, [b'T', b'E', b'S', b'4']);
    assert_eq!(rec_hdr.data_size, 52);
    let mut body = Vec::new();
    body.extend_from_slice(b"HEDR");
    body.extend_from_slice(&12u16.to_le_bytes());
    body.extend_from_slice(&[7; 12]);
    body.extend_from_slice(&[9; 34]);
    let record = Record {
        header: RawRecordHeader {
            typ: rec_hdr.typ,
            data_size: rec_hdr.data_size,
            flags: rec_hdr.flags,
            form_id: rec_hdr.form_id,
            timestamp: rec_hdr.timestamp,
            vcs_info: rec_hdr.vcs_info,
            internal_version: rec_hdr.internal_version,
            unknown: 0,
        },
        data: body,
    };
    assert_eq!(record.header.typ, [b'T', b'E', b'S', b'4']);
    assert_eq!(record.header.data_size, 52);
    let field = record.first_field().unwrap();
    assert_eq!(&field.header.typ, b"HEDR");
    assert_eq!(field.header.field_size, 12);
    assert_eq!(field.data, vec![7; 12]);
}

#[test]
fn records_first_field() {
    let header = RawRecordHeader {
        typ: *b"TES4",
        data_size: 52,
        flags: 0,
        form_id: 0,
        timestamp: 0,
        vcs_info: 0,
        internal_version: 0,
        unknown: 0,
    };
    assert_eq!(header.typ, [b'T', b'E', b'S', b'4']);
    assert_eq!(header.data_size, 52);
    let short = Record { header, data: vec![b'H', b'E', b'D', b'R', 12] };
    assert!(short.first_field().is_none());
    let cut = Record { header, data: vec![b'H', b'E', b'D', b'R', 2, 0, 1] };
    assert!(cut.first_field().is_none());
    let exact = Record { header, data: vec![b'H', b'E', b'D', b'R', 2, 0, 1, 2] };
    assert_eq!(exact.header.typ, [b'T', b'E', b'S', b'4']);
    assert_eq!(exact.header.data_size, 52);
    assert_eq!(exact.first_field().unwrap().data, vec![1, 2]);
    let empty = Record { header, data: vec![b'X', b'X', b'X', b'X', 0, 0] };
    assert_eq!(empty.first_field().unwrap().data, Vec::<u8>::new());
}

#[test]
fn plugin_headers() {
    let mut b = Vec::new();
    b.extend_from_slice(b"GRUP");
    b.extend_from_slice(&0x100u32.to_le_bytes());
    b.extend_from_slice(b"WEAP");
    b.extend_from_slice(&3u32.to_le_bytes());
    b.extend_from_slice(&0x1234u16.to_le_bytes());
    b.extend_from_slice(&0x5678u16.to_le_bytes());
    b.extend_from_slice(&[0xff; 4]);
    b.push(1);
    let mut s = ParseStream::new(b.clone());
    let g = GroupHeader::parse(&mut s).unwrap();
    assert_eq!(&g.typ, b"GRUP");
    assert_eq!(g.group_size, 0x100);
    assert_eq!(&g.label, b"WEAP");
    assert_eq!(g.group_type, 3);
    assert_eq!(g.timestamp, 0x1234);
    assert_eq!(g.vcs_info, 0x5678);
    assert_eq!(s.position(), GROUP_SIZE);

    let mut s = ParseStream::new(b.clone());
    let r = RecordHeader::parse(&mut s).unwrap();
    assert_eq!(r.data_size, 0x100);
    assert_eq!(r.flags, u32::from_le_bytes(*b"WEAP"));
    assert_eq!(r.form_id, 3);
    assert_eq!(r.timestamp, 0x1234);
    assert_eq!(r.vcs_info, 0x5678);
    assert_eq!(r.internal_version, 0xffff);
    assert_eq!(s.position(), 24);
    let mut s = ParseStream::new(b[..23].to_vec());
    assert!(matches!(RecordHeader::parse(&mut s), Err(TryFromArchiveError::Io(_))));
    assert_eq!(s.position(), 23);
    assert_eq!(<RecordHeader as ConstantSizedRecord>::size(), 24);
    assert_eq!(<GroupHeader as ConstantSizedRecord>::size(), 24);
}

#[test]
fn names_are_ordered_by_their_bytes() {
    assert_eq!(compare_names("a", "b"), NameOrder::Before);
    assert_eq!(compare_names("b", "a"), NameOrder::After);
    assert_eq!(compare_names("a", "a"), NameOrder::Same);
    assert_eq!(compare_names("", "a"), NameOrder::Before);
    assert_eq!(compare_names("ab", "a"), NameOrder::After);
    assert_eq!(compare_names("Z", "a"), NameOrder::Before);
    assert_eq!(compare_names("z", "é"), NameOrder::Before);
    assert_eq!(compare_bytes(&[1, 2], &[1, 2, 0]), NameOrder::Before);
    assert_eq!(compare_bytes(&[2], &[1, 255]), NameOrder::After);
    assert!(same_name("x", "x"));
    assert!(!same_name("x", "y"));
    let mut names = vec!["b", "é", "", "ab", "a", "Z", "zz"];
    let mut by_library = names.clone();
    names.sort();
    by_library.sort_by(|a, b| match compare_names(a, b) {
        NameOrder::Before => std::cmp::Ordering::Less,
        NameOrder::Same => std::cmp::Ordering::Equal,
        NameOrder::After => std::cmp::Ordering::Greater,
    });
    assert_eq!(names, by_library);
}

#[test]
fn name_map_keeps_names_in_order() {
    let mut m: NameMap<u32> = NameMap::new();
    assert!(m.is_empty());
    assert_eq!(m.insert("m".to_string(), 1), None);
    assert_eq!(m.insert("a".to_string(), 2), None);
    assert_eq!(m.insert("z".to_string(), 3), None);
    assert_eq!(m.insert("m".to_string(), 4), Some(1));
    assert_eq!(m.len(), 3);
    assert_eq!(m.name_at(0), "a");
    assert_eq!(m.name_at(1), "m");
    assert_eq!(m.name_at(2), "z");
    assert_eq!(*m.value_at(1), 4);
    assert_eq!(m.get("z"), Some(&3));
    assert_eq!(m.get("q"), None);
    assert!(m.contains_key("a"));
    assert!(!m.contains_key("b"));
    assert_eq!(m.search("m"), Ok(1));
    assert_eq!(m.search("b"), Err(1));
    assert_eq!(m.search("zz"), Err(3));
    *m.value_mut(0) = 9;
    assert_eq!(m.get("a"), Some(&9));
    m.push_last("zz".to_string(), 5);
    assert_eq!(m.as_slice().len(), 4);
    assert_eq!(m.as_slice()[3], ("zz".to_string(), 5));

    let mut other: NameMap<u32> = NameMap::new();
    for (k, v) in [("zz", 5), ("z", 3), ("a", 9), ("m", 4)] {
        other.insert(k.to_string(), v);
    }
    assert_eq!(m.as_slice(), other.as_slice());
}

#[test]
fn permissions_from_access_masks() {
    assert_eq!(access_mask_to_unix_perms(FILE_GENERIC_READ), 4);
    assert_eq!(access_mask_to_unix_perms(FILE_GENERIC_READ | FILE_GENERIC_EXECUTE), 5);
    assert_eq!(
        access_mask_to_unix_perms(FILE_GENERIC_READ | FILE_GENERIC_WRITE | FILE_GENERIC_EXECUTE),
        7
    );
    assert_eq!(access_mask_to_unix_perms(0), 0);
    assert_eq!(access_mask_to_unix_perms(0x0012_0000), 0);
    assert_eq!(unix_perms_to_access_mask(4), FILE_GENERIC_READ);
    assert_eq!(unix_perms_to_access_mask(3), FILE_GENERIC_WRITE | FILE_GENERIC_EXECUTE);
    assert_eq!(unix_perms_to_access_mask(0), 0);
    for p in 0..8u8 {
        assert_eq!(access_mask_to_unix_perms(unix_perms_to_access_mask(p)), p as u32);
    }
    let rights = EffectiveRights {
        owner: FILE_GENERIC_READ | FILE_GENERIC_WRITE | FILE_GENERIC_EXECUTE,
        group: FILE_GENERIC_READ | FILE_GENERIC_EXECUTE,
        everyone: FILE_GENERIC_READ,
    };
    assert_eq!(get_unixy_mode(rights), 0o754);
    assert_eq!(rights.unixy_permissions().unwrap(), 0o754);
    assert_eq!(UnixMode(0o100644).unixy_permissions().unwrap(), 0o644);
    assert_eq!(get_owner_permissions(rights), 7);
}

#[test]
fn test_w32_owner_perms() {
    let test_f = |rights: u32, perm: u8| {
        let mode = get_unixy_mode(EffectiveRights { owner: rights, group: 0, everyone: 0 });
        assert_eq!(((mode & 0o700) >> 6) as u8, perm);
    };
    test_f(FILE_GENERIC_READ, 4);
    test_f(FILE_GENERIC_READ | FILE_GENERIC_EXECUTE, 5);
    test_f(FILE_GENERIC_READ | FILE_GENERIC_WRITE | FILE_GENERIC_EXECUTE, 7);
}

#[test]
fn seven_zip_exit_codes() {
    assert_eq!(SevenZExitCode::try_from(0), Ok(SevenZExitCode::Success));
    assert_eq!(SevenZExitCode::try_from(1), Ok(SevenZExitCode::Warning));
    assert_eq!(SevenZExitCode::try_from(2), Ok(SevenZExitCode::Fatal));
    assert_eq!(SevenZExitCode::try_from(7), Ok(SevenZExitCode::CommandLine));
    assert_eq!(SevenZExitCode::try_from(8), Ok(SevenZExitCode::OOM));
    assert_eq!(SevenZExitCode::try_from(255), Ok(SevenZExitCode::UserStop));
    assert_eq!(SevenZExitCode::try_from(3), Err(3));
    assert!(extraction_outcome(Some(0)).is_ok());
    assert!(matches!(extraction_outcome(None), Err(ExtractError::Terminated)));
    assert!(matches!(
        extraction_outcome(Some(2)),
        Err(ExtractError::ExtractionFailed(SevenZExitCode::Fatal))
    ));
    assert!(matches!(extraction_outcome(Some(-1)), Err(ExtractError::UnknownExitCode(-1))));
    let options = ArchiveOptions::default();
    assert_eq!(options.dir, None);
    assert_eq!(options.sevenz_path, "7z");
}

#[test]
fn entry_metadata_as_plain_values() {
    let source: EntryMetadataData<u8> = EntryMetadataData {
        is_dir: false,
        is_file: true,
        is_symlink: false,
        len: 42,
        modified: Err(3),
        compression_method: CompressionMethod::Deflate,
        compression_level: Some(9),
    };
    let copy = EntryMetadataData::new(&source);
    assert!(copy.is_file() && !copy.is_dir() && !copy.is_symlink());
    assert_eq!(copy.len(), 42);
    assert_eq!(copy.modified(), Err(3));
    assert_eq!(copy.compression_method(), CompressionMethod::Deflate);
    assert_eq!(copy.compression_level(), Some(9));
}

#[test]
fn nexus_addresses() {
    let file = NexusApi::new("key".to_string()).game("skyrimspecialedition".to_string()).mod_(80974).file(348116);
    assert_eq!(file.id, 348116);
    assert_eq!(file.mod_.id, 80974);
    assert_eq!(file.mod_.game.game_id, "skyrimspecialedition");
    assert_eq!(file.mod_.game.api.apikey, "key");
}

#[test]
fn folder_names_that_cannot_be_read() {
    let reader = |bytes: Vec<u8>| {
        let mut archive = header_bytes(105, INCLUDE_DIR_NAMES);
        archive.extend(bytes);
        let reader = ArchiveReader::try_new(ParseStream::new(archive)).unwrap();
        DirectoryReader::new(reader, FolderRecord { hash: 0, count: 0, offset: 36 + 40 })
    };
    assert_eq!(reader(vec![3, b'a', b'b', 0]).name().unwrap(), b"ab");
    assert!(matches!(reader(vec![3, b'a', b'b', b'c']).name(), Err(NameError::FromBytesUntilNulError)));
    assert!(matches!(reader(vec![3, b'a', 0, 0]).name(), Err(NameError::FromBytesUntilNulError)));
    assert!(matches!(reader(vec![0]).name(), Err(NameError::FromBytesUntilNulError)));
    assert!(matches!(reader(vec![3, b'a']).name(), Err(NameError::Io(_))));
    assert!(matches!(reader(vec![]).name(), Err(NameError::Io(_))));
}

#[test]
fn plugin_versions() {
    assert_eq!(make_exe_version(1, 6, 640), 0x0106_2800);
    assert_eq!(make_exe_version(0xff, 0xff, 0xffff), 0xffff_fff0);
    assert_eq!(make_exe_version(0, 0, 0), 0);
    assert_eq!(make_u8array::<6>(b"abc"), [b'a', b'b', b'c', 0, 0, 0]);
    assert_eq!(make_u8array::<2>(b"ab"), [b'a', b'b']);
    assert_eq!(make_u32array::<4>(&[7, 8]), [7, 8, 0, 0]);
    assert_eq!(make_u32array::<1>(&[]), [0]);
}

#[test]
fn mod_environment_setup_changes_nothing() {
    let mut env = ModEnvironment {
        modDirectories: vec!["a".to_string(), "b".to_string()],
        overrideDirectory: "o".to_string(),
        targetDirectory: "t".to_string(),
    };
    env.setup();
    assert_eq!(env.modDirectories, vec!["a".to_string(), "b".to_string()]);
    assert_eq!(env.overrideDirectory, "o");
    assert_eq!(env.targetDirectory, "t");
}
