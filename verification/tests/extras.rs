use mm_store::archive::SevenZExitCode;
use mm_store::bsa::{Archive, ArchiveVersion, DirectoryRecord, ErrorKind};
use mm_store::checksum::Checksum;
use mm_store::error::{IoError, IoErrorKind, RepoError, RepoErrorKind};
use mm_store::keyfile::{
    escape_char_newline, escape_string_newline, Escape, EscapeState, KeyfileError, Serializer,
};
use mm_store::mutable_tree::{MutableTree, MutableTreeType};
use mm_store::nexus::{download_link, LinkError, NXMFromUrlError, NXMParseError, NXMUrl, NexusApi};
use mm_store::object::{ObjectType, RepoMode};
use mm_store::repo::{CreateDirOutcome, OsTreeRepo};
use mm_store::schema::{Commit, DirMeta, DirTree, DirTreeChecksums};
use mm_store::stream::TryFromArchiveError;
use mm_store::text::{digit_char, parse_u64, push_decimal};
use mm_store::traits::{Decode, RepoRead, RepoReadExt, RepoWrite, RepoWriteObject};
use sha2::{Digest, Sha256};

#[test]
fn test_nxm_from_url() {
    let nxm = NXMUrl::from_str(r"nxm://skyrimspecialedition/mods/80974/files/348116?key=qfKo3dvGjWwdHZJGuJcFxQ&expires=1673851268&user_id=123456").unwrap();
    assert_eq!(nxm.game_id, "skyrimspecialedition");
    assert_eq!(nxm.mod_id, 80974);
    assert_eq!(nxm.file_id, 348116);
    assert_eq!(nxm.key.as_deref(), Some("qfKo3dvGjWwdHZJGuJcFxQ"));
    assert_eq!(nxm.expires, Some(1673851268));
    assert_eq!(nxm.user_id, Some(123456));
}

#[test]
fn nxm_addresses_that_are_refused() {
    assert!(matches!(NXMUrl::from_str("not an address"), Err(NXMParseError::InvalidURL)));
    let refused = [
        "nxm://game/mods/1/files/2?key=k&user_id=3",
        "nxm://game/mods/1/files/2?key=k&expires=3",
        "nxm://game/mods/x/files/2?expires=3&user_id=4",
        "nxm://game/mods/1/files/?expires=3&user_id=4",
        "nxm://game/mods/1/files?expires=3&user_id=4",
        "nxm://game/mods/1/files/2?expires=3&user_id=4&view=maybe",
        "nxm://game/mods/18446744073709551616/files/2?expires=3&user_id=4",
    ];
    for text in refused {
        assert!(
            matches!(NXMUrl::from_str(text), Err(NXMParseError::InvalidNXMUrl(NXMFromUrlError))),
            "{}",
            text
        );
    }
    assert_eq!(NXMFromUrlError.to_string(), "invalid nxm url");
    let long = format!("nxm://g/mods/1/files/2?expires=1&user_id=2&pad={}", "x".repeat(0x0100_0000));
    assert!(matches!(NXMUrl::from_str(&long), Err(NXMParseError::TooLong)));
}

#[test]
fn nxm_query_values() {
    let nxm = NXMUrl::from_str("nxm://g/mods/1/files/2?expires=soon&user_id=7&view=true&a=1&a=2&b=x%20y").unwrap();
    assert_eq!(nxm.game_id, "g");
    assert_eq!(nxm.key, None);
    assert_eq!(nxm.expires, None);
    assert_eq!(nxm.user_id, Some(7));
    assert_eq!(nxm.view, Some(true));
    assert_eq!(nxm.extra_params.get("a"), Some(&"2".to_string()));
    assert_eq!(nxm.extra_params.get("b"), Some(&"x y".to_string()));
    assert_eq!(nxm.extra_params.len(), 5);
    let nxm = NXMUrl::from_str("nxm://g/mods/+1/files/02?expires=1&user_id=7&view=0").unwrap();
    assert_eq!((nxm.mod_id, nxm.file_id), (1, 2));
    assert_eq!(nxm.view, Some(false));
    let nxm = NXMUrl::from_str("nxm://g/mods/1/files/2/more?expires=1&user_id=7&view=12").unwrap();
    assert_eq!(nxm.view, Some(true));
}

#[test]
fn download_link_addresses() {
    let file = NexusApi::new("secret".to_string()).game("skyrimspecialedition".to_string()).mod_(80974).file(348116);
    assert_eq!(
        file.download_link(Some("a key"), Some("1673851268")).unwrap(),
        "https://api.nexusmods.com/v1/games/skyrimspecialedition/mods/80974/files/348116/download_link.json?key=a+key&expires=1673851268"
    );
    assert_eq!(
        file.download_link(None, None).unwrap(),
        "https://api.nexusmods.com/v1/games/skyrimspecialedition/mods/80974/files/348116/download_link.json?"
    );
    assert_eq!(
        download_link("k".to_string(), "game", 2, 1, Some("x&y"), Some(99)).unwrap(),
        "https://api.nexusmods.com/v1/games/game/mods/1/files/2/download_link.json?key=x%26y&expires=99"
    );
    assert_eq!(
        download_link("k".to_string(), "game", 0, 18446744073709551615, None, Some(0)).unwrap(),
        "https://api.nexusmods.com/v1/games/game/mods/18446744073709551615/files/0/download_link.json?expires=0"
    );
    let long = "x".repeat(0x0100_0001);
    assert!(matches!(file.download_link(Some(&long), None), Err(LinkError::TooLong)));
}

#[test]
fn numbers_as_text() {
    let mut s = String::from("n=");
    push_decimal(&mut s, 0);
    s.push(',');
    push_decimal(&mut s, 1234567890);
    s.push(',');
    push_decimal(&mut s, u64::MAX);
    assert_eq!(s, "n=0,1234567890,18446744073709551615");
    assert_eq!(digit_char(7), '7');
    assert_eq!(parse_u64("0"), Some(0));
    assert_eq!(parse_u64("007"), Some(7));
    assert_eq!(parse_u64("+42"), Some(42));
    assert_eq!(parse_u64("18446744073709551615"), Some(u64::MAX));
    assert_eq!(parse_u64("18446744073709551616"), None);
    assert_eq!(parse_u64("99999999999999999999999"), None);
    assert_eq!(parse_u64(""), None);
    assert_eq!(parse_u64("+"), None);
    assert_eq!(parse_u64("-1"), None);
    assert_eq!(parse_u64("1 "), None);
    assert_eq!(parse_u64("１"), None);
    assert_eq!(parse_u64("12a"), None);
    assert_eq!(parse_u64("184467440737095516150x"), None);
    for text in ["0", "+5", "05", "x", "", "18446744073709551615", "18446744073709551616"] {
        assert_eq!(parse_u64(text), text.parse::<u64>().ok(), "{}", text);
    }
}

#[test]
fn escapes() {
    let mut e = escape_char_newline('\n');
    assert_eq!(e.size_hint(), (2, Some(2)));
    assert_eq!(e.next(), Some('\\'));
    assert_eq!(e.size_hint(), (1, Some(1)));
    assert_eq!(e.next(), Some('n'));
    assert_eq!(e.next(), None);
    assert_eq!(e.size_hint(), (0, Some(0)));
    let mut e = escape_char_newline('x');
    assert_eq!(e, Escape { state: EscapeState::Char('x') });
    assert_eq!(e.next(), Some('x'));
    assert_eq!(e.next(), None);
    assert_eq!(escape_char_newline('\n').nth(0), Some('\\'));
    assert_eq!(escape_char_newline('\n').nth(1), Some('n'));
    assert_eq!(escape_char_newline('\n').nth(2), None);
    assert_eq!(escape_char_newline('y').nth(0), Some('y'));
    assert_eq!(escape_char_newline('y').nth(1), None);
    let mut e = escape_char_newline('\n');
    assert_eq!(e.nth(0), Some('\\'));
    assert_eq!(e.nth(0), Some('n'));
    assert_eq!(e.nth(0), None);
    let mut e = escape_char_newline('\n');
    assert_eq!(e.nth(5), None);
    assert_eq!(e.next(), None);
    assert_eq!(escape_string_newline("a\nb\n\nç"), "a\\nb\\n\\nç");
    assert_eq!(escape_string_newline(""), "");
    assert_eq!(escape_string_newline("\\n"), "\\n");
}

#[test]
fn key_file_output() {
    let mut s = Serializer::new();
    s.serialize_struct("core").unwrap();
    s.serialize_field("repo_version").unwrap();
    s.serialize_u64(1).unwrap();
    s.end_field().unwrap();
    s.serialize_field("mode").unwrap();
    s.serialize_unit_variant("bare-user-only").unwrap();
    s.end_field().unwrap();
    s.serialize_field("note").unwrap();
    s.serialize_str("two\nlines").unwrap();
    s.end_field().unwrap();
    s.serialize_field("flag").unwrap();
    s.serialize_bool(true).unwrap();
    s.serialize_bool(false).unwrap();
    s.end_field().unwrap();
    s.serialize_field("delta").unwrap();
    s.serialize_i64(-12).unwrap();
    s.serialize_char('\n').unwrap();
    s.serialize_i64(i64::MIN).unwrap();
    s.serialize_char('c').unwrap();
    s.serialize_i64(7).unwrap();
    s.end_field().unwrap();
    s.serialize_field("raw").unwrap();
    s.serialize_bytes(b"hello world").unwrap();
    s.serialize_none().unwrap();
    s.serialize_unit().unwrap();
    s.end_field().unwrap();
    s.end().unwrap();
    assert!(matches!(s.serialize_seq(), Err(KeyfileError::UnsupportedData)));
    assert_eq!(
        s.into_inner(),
        "[core]\nrepo_version=1\nmode=bare-user-only\nnote=two\\nlines\nflag=truefalse\ndelta=-12\\n-9223372036854775808c7\nraw=aGVsbG8gd29ybGQ\n\n"
    );
}

#[test]
fn base64_without_padding() {
    let enc = |b: &[u8]| {
        let mut s = Serializer::new();
        s.serialize_bytes(b).unwrap();
        s.into_inner()
    };
    assert_eq!(enc(b""), "");
    assert_eq!(enc(b"f"), "Zg");
    assert_eq!(enc(b"fo"), "Zm8");
    assert_eq!(enc(b"foo"), "Zm9v");
    assert_eq!(enc(b"foob"), "Zm9vYg");
    assert_eq!(enc(&[0xfb, 0xff, 0xfe]), "+//+");
    assert_eq!(enc(&[0, 0x10, 0x83]), "ABCD");
}

#[test]
fn error_messages() {
    assert_eq!(RepoErrorKind::AlreadyExists.to_string(), "Repo already exists.");
    assert_eq!(RepoErrorKind::MalformedRepo.to_string(), "Repo is malformed.");
    assert_eq!(RepoErrorKind::Format.to_string(), "Format error");
    assert_eq!(RepoErrorKind::InvalidMtree("x".to_string()).to_string(), "Invalid mutable tree: x");
    assert_eq!(RepoErrorKind::InvalidFilename(vec![0x66, 0xff]).to_string(), "Filename is invalid: 66ff");
    assert_eq!(
        RepoErrorKind::UnsupportedMode(RepoMode::ArchiveZ2).to_string(),
        "Repo mode archive-z2 is not yet supported."
    );
    let io = IoError { kind: IoErrorKind::Other, message: "m".to_string() };
    assert_eq!(RepoError::from(io).to_string(), "IO Error");
    assert_eq!(IoError::not_found().kind, IoErrorKind::NotFound);
    assert_eq!(IoError::not_found().message, "entity not found");
    let e = DirMeta::decode(&[1]).unwrap_err();
    assert_eq!(e.to_string(), "variant error");
    assert!(matches!(e.kind(), RepoErrorKind::Variant(_)));
    let e = RepoError::from(RepoErrorKind::AlreadyExists);
    assert!(matches!(e.source, RepoErrorKind::AlreadyExists));
    assert_eq!(TryFromArchiveError::InvalidTag.to_string(), "Invalid Type Tag");
    assert_eq!(TryFromArchiveError::BogusSize.to_string(), "Bogus size in archive data");
    assert_eq!(TryFromArchiveError::ParseError.to_string(), "Parsing error");
    assert_eq!(SevenZExitCode::OOM.to_string(), "OOM");
    assert_eq!(SevenZExitCode::UserStop.to_string(), "UserStop");
}

#[test]
fn tree_types() {
    assert_eq!(MutableTree::new().tree_type(), MutableTreeType::Whole);
    let lazy = MutableTree::new_lazy_from_repo(DirTreeChecksums {
        checksum: Checksum::hash(b"a"),
        meta_checksum: Checksum::hash(b"b"),
    });
    assert_eq!(lazy.tree_type(), MutableTreeType::Lazy);
}

#[test]
fn test_archive_parse() {
    let mut input = Vec::new();
    input.extend_from_slice(b"BSA\0");
    input.extend_from_slice(&104u32.to_le_bytes());
    input.extend_from_slice(&36u32.to_le_bytes());
    input.extend_from_slice(&[0; 22]);
    input.extend_from_slice(&[0, 0]);
    input.extend_from_slice(&0xfeedu64.to_le_bytes());
    input.extend_from_slice(&9u32.to_le_bytes());
    input.extend_from_slice(&0x1234u32.to_le_bytes());
    let arch = Archive::try_from(input).unwrap();
    assert_eq!(arch.header().version, ArchiveVersion::Skyrim);
    let dir = arch.directories().get(0).unwrap();
    assert_eq!(dir, DirectoryRecord { hash: 0xfeed, count: 9, offset: 0x1234 });
}

#[test]
fn archive_in_memory() {
    let mut b = Vec::new();
    b.extend_from_slice(b"BSA\0");
    b.extend_from_slice(&105u32.to_le_bytes());
    b.extend_from_slice(&36u32.to_le_bytes());
    b.extend_from_slice(&3u32.to_le_bytes());
    b.extend_from_slice(&2u32.to_le_bytes());
    b.extend_from_slice(&[0; 14]);
    b.extend_from_slice(&[0, 0]);
    for (hash, count, offset) in [(1u64, 2u32, 3u32), (4, 5, 6)] {
        b.extend_from_slice(&hash.to_le_bytes());
        b.extend_from_slice(&count.to_le_bytes());
        b.extend_from_slice(&[0; 4]);
        b.extend_from_slice(&offset.to_le_bytes());
        b.extend_from_slice(&[0; 4]);
    }
    let arch = Archive::try_from(b.clone()).unwrap();
    assert_eq!(arch.header().version, ArchiveVersion::SkyrimSE);
    let dirs = arch.directories();
    assert_eq!(dirs.len(), 2);
    assert_eq!(dirs.get(0), Some(DirectoryRecord { hash: 1, count: 2, offset: 3 }));
    assert_eq!(dirs.get(1), Some(DirectoryRecord { hash: 4, count: 5, offset: 6 }));
    assert_eq!(dirs.get(2), None);
    assert_eq!(dirs.get(u32::MAX), None);
    assert_eq!(dirs.directory(1).unwrap().len(), 5);
    assert!(dirs.directory(7).is_none());
    b[0] = b'X';
    assert_eq!(Archive::try_from(b).unwrap_err(), ErrorKind::Tag);
    assert_eq!(Archive::try_from(vec![1, 2]).unwrap_err(), ErrorKind::Eof);
}

#[test]
fn repository_through_its_traits() {
    let mut repo = OsTreeRepo::create(CreateDirOutcome::Created).unwrap();
    let meta = DirMeta { uid: 1, gid: 2, mode: 0o40700, xattrs: Vec::new() };
    let chk = RepoWriteObject::write(&mut repo, &meta).unwrap();
    assert!(RepoRead::contains(&repo, ObjectType::DirMeta, &chk));
    assert!(RepoRead::try_contains(&repo, ObjectType::DirMeta, &chk).unwrap());
    assert!(!RepoRead::contains(&repo, ObjectType::Commit, &chk));
    let loaded: DirMeta = RepoReadExt::try_load(&repo, &chk).unwrap().unwrap();
    assert_eq!((loaded.uid, loaded.gid, loaded.mode), (1, 2, 0o40700));
    let none: Option<DirTree> = RepoReadExt::load(&repo, &chk);
    assert!(none.is_none());
    let missing: Option<Commit> = RepoReadExt::try_load(&repo, &Checksum::hash(b"?")).unwrap();
    assert!(missing.is_none());

    let content: &[u8] = b"file content";
    let file_chk = RepoWriteObject::write(&mut repo, content).unwrap();
    assert_eq!(RepoRead::get(&repo, ObjectType::File, &file_chk).unwrap(), content);
    assert_eq!(RepoRead::try_get(&repo, ObjectType::File, &file_chk).unwrap().unwrap(), content);
    let raw = RepoWrite::write_with_type(&mut repo, content, ObjectType::Commit).unwrap();
    assert_eq!(raw.as_ref(), &Sha256::digest(content)[..]);
    let broken: Result<Option<Commit>, _> = RepoReadExt::try_load(&repo, &raw);
    assert!(broken.is_err());
    let gone: Option<Commit> = RepoReadExt::load(&repo, &raw);
    assert!(gone.is_none());
    assert!(DirMeta::decode_canonical(&[0; 12]).is_ok());
    assert!(DirTree::decode_canonical(&[0xff; 7]).is_err());
}
