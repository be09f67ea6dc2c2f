use mm_store::checksum::{Checksum, ParseError};
use mm_store::error::{IoErrorKind, RepoErrorKind};
use mm_store::ingest::{DirEntry, DirEntryKind};
use mm_store::mutable_tree::{MutableTree, MutableTreeLazy};
use mm_store::object::{loose_path, loose_path_extension, ObjectType, RepoMode};
use mm_store::repo::{
    after_move, hash_file, publish_step, write_header, CreateDirOutcome, MoveOutcome, OsTreeRepo,
    PublishAction, RepoConfig, RepoCoreConfig,
};
use mm_store::schema::{
    canonical_mode, gv_hash, gv_hash_and_val, DirMeta, DirTree, DirTreeChecksums, DirTreeDir,
    DirTreeDirRef, DirTreeFile, DirTreeFileRef, DirTreeRef, Encode, FileHeader, Object,
};
use sha2::{Digest, Sha256};
use zvariant::Type;

fn sha(data: &[u8]) -> Vec<u8> {
    Sha256::digest(data).to_vec()
}

fn new_repo() -> OsTreeRepo {
    OsTreeRepo::create(CreateDirOutcome::Created).unwrap()
}

fn file(name: &str, content: &[u8]) -> DirEntry {
    DirEntry { file_name: name.as_bytes().to_vec(), kind: DirEntryKind::File(content.to_vec()) }
}

fn dir(name: &str, entries: Vec<DirEntry>) -> DirEntry {
    DirEntry { file_name: name.as_bytes().to_vec(), kind: DirEntryKind::Dir(entries) }
}

fn default_header_bytes() -> Vec<u8> {
    vec![0, 0, 0, 0, 0, 0, 0, 0, 0, 0, 0x81, 0xa4, 0, 0, 0, 0, 0, 17]
}

fn default_dirmeta_bytes() -> Vec<u8> {
    vec![0, 0, 0, 0, 0, 0, 0, 0, 0, 0, 0x41, 0xed]
}

#[test]
fn test_repo_mode() {
    assert_eq!(RepoMode::Bare.to_string(), "bare");
    assert_eq!(RepoMode::BareUser.to_string(), "bare-user");
    assert_eq!(RepoMode::ArchiveZ2.to_string(), "archive-z2");
    assert_eq!(RepoMode::BareSplitXattrs.to_string(), "bare-split-xattrs")
}

#[test]
fn repo_test_repo_mode() {
    assert_eq!(RepoMode::Bare.to_string(), "bare");
    assert_eq!(RepoMode::BareUser.to_string(), "bare-user");
    assert_eq!(RepoMode::ArchiveZ2.to_string(), "archive-z2");
    assert_eq!(RepoMode::BareSplitXattrs.to_string(), "bare-split-xattrs")
}

#[test]
fn test_sigs_match_upstream() {
    assert_eq!(DirMeta::signature(), "(uuua(ayay))");
    assert_eq!(FileHeader::signature(), "(uuuusa(ayay))");
    assert_eq!(DirTree::signature(), "(a(say)a(sayay))");
}

#[test]
fn repo_test_sigs_match_upstream() {
    assert_eq!(DirMeta::signature(), "(uuua(ayay))");
    assert_eq!(FileHeader::signature(), "(uuuusa(ayay))");
    assert_eq!(DirTree::signature(), "(a(say)a(sayay))");
}

#[test]
fn test_sigs_match_borrowed() {
    assert_eq!(DirTreeFile::signature(), DirTreeFileRef::signature());
    assert_eq!(DirTreeDir::signature(), DirTreeDirRef::signature());
    assert_eq!(DirTree::signature(), DirTreeRef::signature());
}

#[test]
fn directory_entries_by_reference() {
    let mut tree = DirTree::new();
    tree.files.insert("b".to_string(), Checksum::from(vec![2; 4]));
    tree.files.insert("a".to_string(), Checksum::from(vec![1; 4]));
    tree.dirs.insert(
        "d".to_string(),
        DirTreeChecksums { checksum: Checksum::from(vec![3; 4]), meta_checksum: Checksum::from(vec![4; 4]) },
    );
    let listed = tree.as_ref();
    assert_eq!(listed.files.len(), 2);
    assert_eq!((listed.files[0].name, listed.files[0].checksum), ("a", &[1u8; 4][..]));
    assert_eq!((listed.files[1].name, listed.files[1].checksum), ("b", &[2u8; 4][..]));
    assert_eq!(listed.dirs.len(), 1);
    assert_eq!(listed.dirs[0].name, "d");
    assert_eq!(listed.dirs[0].checksum, &[3u8; 4][..]);
    assert_eq!(listed.dirs[0].meta_checksum, &[4u8; 4][..]);
    assert_eq!(<(String, Vec<u8>)>::signature(), DirTreeFile::signature());
    assert_eq!(<(String, Vec<u8>, Vec<u8>)>::signature(), DirTreeDir::signature());
}

#[test]
fn signatures_are_those_of_the_codec() {
    assert_eq!(<(u32, u32, u32, Vec<(Vec<u8>, Vec<u8>)>)>::signature(), DirMeta::signature());
    assert_eq!(
        <(u32, u32, u32, u32, String, Vec<(Vec<u8>, Vec<u8>)>)>::signature(),
        FileHeader::signature()
    );
    assert_eq!(
        <(Vec<(String, Vec<u8>)>, Vec<(String, Vec<u8>, Vec<u8>)>)>::signature(),
        DirTree::signature()
    );
}

#[test]
fn repo_mode_names_round_trip() {
    for mode in [
        RepoMode::Bare,
        RepoMode::BareUser,
        RepoMode::BareUserOnly,
        RepoMode::ArchiveZ2,
        RepoMode::BareSplitXattrs,
    ] {
        assert_eq!(RepoMode::from_str(&mode.to_string()), Ok(mode));
    }
    assert_eq!(RepoMode::BareUserOnly.to_string(), "bare-user-only");
    assert!(RepoMode::from_str("Bare").is_err());
    assert!(RepoMode::from_str("").is_err());
}

#[test]
fn object_type_names() {
    assert_eq!(ObjectType::File.to_string(), "file");
    assert_eq!(ObjectType::DirTree.to_string(), "dirtree");
    assert_eq!(ObjectType::DirMeta.to_string(), "dirmeta");
    assert_eq!(ObjectType::Commit.to_string(), "commit");
    assert_eq!(ObjectType::TombstoneCommit.to_string(), "tombstonecommit");
    assert_eq!(ObjectType::CommitMeta.to_string(), "commitmeta");
    assert_eq!(ObjectType::PayloadLink.to_string(), "payloadlink");
    assert_eq!(ObjectType::FileXattrs.to_string(), "filexattrs");
    assert_eq!(ObjectType::FileXattrsLink.to_string(), "filexattrslink");
    assert_eq!(ObjectType::from_str("dirtree"), Ok(ObjectType::DirTree));
    assert!(ObjectType::from_str("tree").is_err());
    assert_eq!(ObjectType::Commit.as_ref(), "commit");
}

#[test]
fn object_type_is_meta() {
    assert!(ObjectType::DirMeta.is_meta());
    assert!(ObjectType::Commit.is_meta());
    assert!(ObjectType::TombstoneCommit.is_meta());
    assert!(ObjectType::CommitMeta.is_meta());
    assert!(!ObjectType::File.is_meta());
    assert!(!ObjectType::DirTree.is_meta());
    assert!(!ObjectType::PayloadLink.is_meta());
    assert!(!ObjectType::FileXattrs.is_meta());
    assert!(!ObjectType::FileXattrsLink.is_meta());
}

#[test]
fn checksum_hash_is_sha256() {
    assert_eq!(
        Checksum::hash(b"").to_string(),
        "e3b0c44298fc1c149afbf4c8996fb92427ae41e4649b934ca495991b7852b855"
    );
    assert_eq!(
        Checksum::hash(b"abc").to_string(),
        "ba7816bf8f01cfea414140de5dae2223b00361a396177a9cb410ff61f20015ad"
    );
    assert_eq!(Checksum::hash(b"abc").len(), 32);
}

#[test]
fn checksum_hex_text() {
    let c = Checksum::from(vec![0x00, 0x0f, 0xa5, 0xff]);
    assert_eq!(c.to_string(), "000fa5ff");
    let back = Checksum::from_str("000FA5ff").unwrap();
    assert_eq!(back.as_ref(), &[0x00, 0x0f, 0xa5, 0xff]);
    assert!(back == c);
    assert!(c.same_as(&back));
    assert!(!(Checksum::from(vec![1]) == Checksum::from(vec![1, 0])));
    assert_eq!(Checksum::default().len(), 0);
    assert_eq!(c.to_hex(), "000fa5ff");
    assert!(Checksum::from_hex("000fa5FF").unwrap() == c);
    assert_eq!(Checksum::from_hex("0").unwrap_err(), ParseError::OddLength);
    assert_eq!(c.clone().as_ref(), c.as_ref());
}

#[test]
fn checksum_from_str_errors() {
    assert_eq!(Checksum::from_str("abc").unwrap_err(), ParseError::OddLength);
    assert_eq!(
        Checksum::from_str("12g4").unwrap_err(),
        ParseError::InvalidHexCharacter { c: 'g', index: 2 }
    );
    assert_eq!(
        Checksum::from_str("zz").unwrap_err(),
        ParseError::InvalidHexCharacter { c: 'z', index: 0 }
    );
    assert_eq!(Checksum::from_str("1g3").unwrap_err(), ParseError::OddLength);
    assert_eq!(Checksum::from_str("").unwrap().len(), 0);
}

#[test]
fn checksum_text_round_trip() {
    let c = Checksum::hash(b"round trip");
    let back = Checksum::from_str(&c.to_string()).unwrap();
    assert!(back == c);
}

#[test]
fn loose_path_layout() {
    let c = Checksum::from_str("895a1646b95228a5385fa5500f94507e09046e33d1db921292836db437206f39")
        .unwrap();
    assert_eq!(
        loose_path(&c, ObjectType::File, RepoMode::BareUserOnly),
        "89/5a1646b95228a5385fa5500f94507e09046e33d1db921292836db437206f39.file"
    );
    assert_eq!(
        loose_path(&c, ObjectType::DirTree, RepoMode::BareUserOnly),
        "89/5a1646b95228a5385fa5500f94507e09046e33d1db921292836db437206f39.dirtree"
    );
    assert_eq!(
        loose_path(&c, ObjectType::DirMeta, RepoMode::ArchiveZ2),
        "89/5a1646b95228a5385fa5500f94507e09046e33d1db921292836db437206f39.dirmetaz"
    );
    assert_eq!(
        loose_path(&c, ObjectType::File, RepoMode::ArchiveZ2),
        "89/5a1646b95228a5385fa5500f94507e09046e33d1db921292836db437206f39.file"
    );
    let short = Checksum::from(vec![0xab]);
    assert_eq!(loose_path(&short, ObjectType::Commit, RepoMode::Bare), "ab/.commit");
}

#[test]
fn loose_path_extension_by_mode() {
    assert_eq!(loose_path_extension(ObjectType::Commit, RepoMode::ArchiveZ2), "commitz");
    assert_eq!(loose_path_extension(ObjectType::Commit, RepoMode::BareUserOnly), "commit");
    assert_eq!(loose_path_extension(ObjectType::DirTree, RepoMode::ArchiveZ2), "dirtree");
    assert_eq!(loose_path_extension(ObjectType::TombstoneCommit, RepoMode::ArchiveZ2), "tombstonecommitz");
}

#[test]
fn same_checksum_of_different_kinds_lies_at_different_paths() {
    let c = Checksum::hash(b"x");
    let a = loose_path(&c, ObjectType::File, RepoMode::BareUserOnly);
    let b = loose_path(&c, ObjectType::DirMeta, RepoMode::BareUserOnly);
    assert_ne!(a, b);
    let mut repo = new_repo();
    let chk = repo.write_with_type(b"payload", ObjectType::PayloadLink).unwrap();
    assert!(repo.contains(ObjectType::PayloadLink, &chk));
    assert!(!repo.contains(ObjectType::FileXattrs, &chk));
}

#[test]
fn dirmeta_default() {
    let m = DirMeta::default();
    assert_eq!((m.uid, m.gid, m.mode), (0, 0, 0o40755));
    assert!(m.xattrs.is_empty());
    assert_eq!(DirMeta::object_type(), ObjectType::DirMeta);
    assert_eq!(DirTree::object_type(), ObjectType::DirTree);
}

#[test]
fn file_header_default() {
    let h = FileHeader::default();
    assert_eq!((h.uid, h.gid, h.mode, h.rdev), (0, 0, 0o100644, 0));
    assert_eq!(h.symlink_target, "");
    assert!(h.xattrs.is_empty());
}

#[test]
fn canonical_mode_keeps_type_and_permissions() {
    assert_eq!(canonical_mode(0o100644), 0o100644);
    assert_eq!(canonical_mode(0o104755), 0o100755);
    assert_eq!(canonical_mode(0o7777), 0o777);
    assert_eq!(canonical_mode(0xffff_ffff), 0o170777);
    let h = FileHeader::cannonical_from_file(0o640);
    assert_eq!((h.uid, h.gid, h.mode, h.rdev), (0, 0, 0o640, 0));
}

#[test]
fn dirmeta_encoding_is_big_endian() {
    assert_eq!(DirMeta::default().encode_canonical().unwrap(), default_dirmeta_bytes());
    let m = DirMeta { uid: 1, gid: 0x0102, mode: 0o40700, xattrs: Vec::new() };
    assert_eq!(m.encode_canonical().unwrap(), vec![0, 0, 0, 1, 0, 0, 1, 2, 0, 0, 0x41, 0xc0]);
}

#[test]
fn file_header_encoding() {
    assert_eq!(FileHeader::default().encode_canonical().unwrap(), default_header_bytes());
}

#[test]
fn dirtree_encoding_matches_the_codec() {
    let mut tree = DirTree::new();
    tree.files.insert("b".to_string(), Checksum::from(vec![2; 32]));
    tree.files.insert("a".to_string(), Checksum::from(vec![1; 32]));
    tree.dirs.insert(
        "d".to_string(),
        DirTreeChecksums { checksum: Checksum::from(vec![3; 32]), meta_checksum: Checksum::from(vec![4; 32]) },
    );
    let ctx = zvariant::serialized::Context::new_gvariant(zvariant::Endian::Big, 0);
    let files = vec![("a", vec![1u8; 32]), ("b", vec![2u8; 32])];
    let dirs = vec![("d", vec![3u8; 32], vec![4u8; 32])];
    let expected = zvariant::to_bytes(ctx, &(files, dirs)).unwrap().to_vec();
    let bytes = tree.encode_canonical().unwrap();
    assert_eq!(bytes, expected);
    assert_eq!(&bytes[0..2], b"a\0");
    assert_eq!(&bytes[2..34], &[1u8; 32]);
}

#[test]
fn encoding_refuses_a_name_with_a_zero_byte() {
    let mut tree = DirTree::new();
    tree.files.insert("a\0b".to_string(), Checksum::from(vec![1; 32]));
    let e = tree.encode_canonical().unwrap_err();
    assert!(matches!(e.source, RepoErrorKind::Variant(_)));
    assert!(gv_hash(&tree).is_err());
}

#[test]
fn encoding_is_deterministic() {
    let build = || {
        let mut tree = DirTree::new();
        tree.files.insert("one".to_string(), Checksum::hash(b"1"));
        tree.dirs.insert(
            "sub".to_string(),
            DirTreeChecksums { checksum: Checksum::hash(b"2"), meta_checksum: Checksum::hash(b"3") },
        );
        tree
    };
    let a = build();
    assert_eq!(a.encode_canonical().unwrap(), a.encode_canonical().unwrap());
    assert_eq!(a.encode_canonical().unwrap(), build().encode_canonical().unwrap());
    assert!(gv_hash(&a).unwrap() == gv_hash(&build()).unwrap());
    let m = DirMeta::default();
    assert_eq!(m.encode_canonical().unwrap(), DirMeta::default().encode_canonical().unwrap());
}

#[test]
fn hash_and_value_agree() {
    let m = DirMeta::default();
    let (chk, bytes) = gv_hash_and_val(&m).unwrap();
    assert_eq!(bytes, default_dirmeta_bytes());
    assert_eq!(chk.as_ref(), &sha(&bytes)[..]);
    assert!(gv_hash(&m).unwrap() == chk);
    let (again, same) = mm_store::schema::hash_and_encode(&m).unwrap();
    assert!(again == chk);
    assert_eq!(same, bytes);
}

#[test]
fn dirtree_decode_reads_back_what_was_encoded() {
    let mut tree = DirTree::new();
    tree.files.insert("zeta".to_string(), Checksum::hash(b"z"));
    tree.files.insert("alpha".to_string(), Checksum::hash(b"a"));
    tree.dirs.insert(
        "lib".to_string(),
        DirTreeChecksums { checksum: Checksum::hash(b"l"), meta_checksum: Checksum::hash(b"m") },
    );
    let bytes = tree.encode_canonical().unwrap();
    let back = DirTree::decode(&bytes).unwrap();
    assert_eq!(back.files.len(), 2);
    assert_eq!(back.files.name_at(0), "alpha");
    assert_eq!(back.files.name_at(1), "zeta");
    assert!(*back.files.get("zeta").unwrap() == Checksum::hash(b"z"));
    assert_eq!(back.dirs.len(), 1);
    assert!(back.dirs.get("lib").unwrap().meta_checksum == Checksum::hash(b"m"));
    assert_eq!(back.encode_canonical().unwrap(), bytes);
}

#[test]
fn dirmeta_decode_reads_back_what_was_encoded() {
    let m = DirMeta { uid: 7, gid: 8, mode: 0o40750, xattrs: vec![(b"user.k".to_vec(), b"v".to_vec())] };
    let back = DirMeta::decode(&m.encode_canonical().unwrap()).unwrap();
    assert_eq!((back.uid, back.gid, back.mode), (7, 8, 0o40750));
    assert_eq!(back.xattrs, vec![(b"user.k".to_vec(), b"v".to_vec())]);
}

#[test]
fn decode_refuses_bytes_that_are_no_object() {
    let e = DirMeta::decode(&[1, 2, 3]).unwrap_err();
    assert!(matches!(e.source, RepoErrorKind::Variant(_)));
    assert!(DirTree::decode(&[0xff; 7]).is_err());
}

#[test]
fn dirtree_checksums_new() {
    let tree = DirTree::new();
    let meta = DirMeta::default();
    let c = DirTreeChecksums::new(&tree, &meta).unwrap();
    assert_eq!(c.checksum.as_ref(), &sha(&tree.encode_canonical().unwrap())[..]);
    assert_eq!(c.meta_checksum.as_ref(), &sha(&default_dirmeta_bytes())[..]);
}

#[test]
fn write_header_appends_the_default_header() {
    let mut w = vec![9u8];
    write_header(&mut w).unwrap();
    let mut expected = vec![9u8];
    expected.extend(default_header_bytes());
    assert_eq!(w, expected);
}

#[test]
fn hash_file_is_header_then_content() {
    let mut hashed = default_header_bytes();
    hashed.extend_from_slice(b"hello world");
    assert_eq!(hash_file(b"hello world").unwrap().as_ref(), &sha(&hashed)[..]);
    assert!(!(hash_file(b"a").unwrap() == Checksum::hash(b"a")));
}

#[test]
fn create_and_open() {
    let repo = new_repo();
    assert_eq!(repo.get_config(), RepoConfig::default());
    assert_eq!(repo.get_config().core, RepoCoreConfig { repo_version: 1, mode: RepoMode::BareUserOnly });
    assert_eq!(repo.object_count(), 0);
    let e = OsTreeRepo::create(CreateDirOutcome::AlreadyExists).unwrap_err();
    assert!(matches!(e.source, RepoErrorKind::AlreadyExists));
    let io = mm_store::error::IoError { kind: IoErrorKind::Other, message: "denied".to_string() };
    let e = OsTreeRepo::create(CreateDirOutcome::Failed(io)).unwrap_err();
    assert!(matches!(e.source, RepoErrorKind::Io(_)));

    assert_eq!(
        OsTreeRepo::state_dirs(),
        vec!["tmp", "extensions", "state", "refs", "refs/heads", "refs/mirrors", "refs/remotes", "objects"]
    );
    let all: Vec<String> = OsTreeRepo::state_dirs().iter().map(|d| d.to_string()).collect();
    let config = RepoConfig { core: RepoCoreConfig { repo_version: 1, mode: RepoMode::ArchiveZ2 } };
    let opened = OsTreeRepo::open(&all, Some(config), &Vec::new()).unwrap();
    assert_eq!(opened.get_config(), config);
    let e = OsTreeRepo::open(&all, None, &Vec::new()).unwrap_err();
    assert!(matches!(e.source, RepoErrorKind::MalformedRepo));
    let mut some = all.clone();
    some.retain(|d| d != "refs/mirrors");
    let e = OsTreeRepo::open(&some, Some(config), &Vec::new()).unwrap_err();
    assert!(matches!(e.source, RepoErrorKind::MalformedRepo));
}

#[test]
fn test_user_only_test1() {
    let repo = OsTreeRepo::create(CreateDirOutcome::Created);
    assert!(repo.is_ok());
}

#[test]
fn write_and_read_objects() {
    let mut repo = new_repo();
    let meta = DirMeta::default();
    let chk = repo.write(&meta).unwrap();
    assert_eq!(chk.as_ref(), &sha(&default_dirmeta_bytes())[..]);
    assert!(repo.try_contains(ObjectType::DirMeta, &chk).unwrap());
    assert!(!repo.try_contains(ObjectType::DirTree, &chk).unwrap());
    assert_eq!(repo.try_get(ObjectType::DirMeta, &chk).unwrap().unwrap(), &default_dirmeta_bytes());
    assert!(repo.try_get(ObjectType::Commit, &chk).unwrap().is_none());
    assert!(repo.get(ObjectType::DirMeta, &chk).is_some());
    assert_eq!(repo.object_fd(ObjectType::DirMeta, &chk).unwrap(), &default_dirmeta_bytes());
    let e = repo.object_fd(ObjectType::File, &chk).unwrap_err();
    match e.source {
        RepoErrorKind::Io(io) => assert_eq!(io.kind, IoErrorKind::NotFound),
        _ => panic!("expected an I/O error"),
    }
    assert!(!repo.contains(ObjectType::DirMeta, &Checksum::default()));
    assert!(repo.try_get(ObjectType::DirMeta, &Checksum::default()).unwrap().is_none());
    assert_eq!(repo.object_count(), 1);
    assert_eq!(repo.object_path_at(0), &loose_path(&chk, ObjectType::DirMeta, RepoMode::BareUserOnly));
    assert_eq!(repo.object_data_at(0), &default_dirmeta_bytes());
    let again = repo.write_dirmeta(&meta).unwrap();
    assert!(again == chk);
    assert_eq!(repo.object_count(), 1);
}

#[test]
fn write_raw_file_stores_content_only() {
    let mut repo = new_repo();
    let chk = repo.write_raw_file(b"content").unwrap();
    let mut hashed = default_header_bytes();
    hashed.extend_from_slice(b"content");
    assert_eq!(chk.as_ref(), &sha(&hashed)[..]);
    assert_eq!(repo.try_get(ObjectType::File, &chk).unwrap().unwrap(), b"content");
    let other = repo.write_with_type(b"content", ObjectType::DirMeta).unwrap();
    assert_eq!(other.as_ref(), &sha(b"content")[..]);
}

#[test]
fn reading_in_another_mode_is_refused() {
    let all: Vec<String> = OsTreeRepo::state_dirs().iter().map(|d| d.to_string()).collect();
    let config = RepoConfig { core: RepoCoreConfig { repo_version: 1, mode: RepoMode::ArchiveZ2 } };
    let repo = OsTreeRepo::open(&all, Some(config), &Vec::new()).unwrap();
    let chk = Checksum::hash(b"x");
    let e = repo.try_get(ObjectType::File, &chk).unwrap_err();
    assert!(matches!(e.source, RepoErrorKind::UnsupportedMode(RepoMode::ArchiveZ2)));
    assert!(repo.get(ObjectType::File, &chk).is_none());
    assert!(matches!(
        repo.load_dirtree(&chk).unwrap_err().source,
        RepoErrorKind::UnsupportedMode(RepoMode::ArchiveZ2)
    ));
}

#[test]
fn a_temporary_file_is_seen_only_once_committed() {
    let mut repo = new_repo();
    let chk = Checksum::hash(b"half written");
    let mut tmp = repo.tmpfile_for_type(ObjectType::PayloadLink);
    assert_eq!(tmp.write(b"half "), 5);
    tmp.flush();
    assert_eq!(repo.object_count(), 0);
    assert!(!repo.contains(ObjectType::PayloadLink, &chk));
    drop(tmp);
    assert_eq!(repo.object_count(), 0);

    let mut tmp = repo.tmpfile_for_type(ObjectType::PayloadLink);
    tmp.write(b"half ");
    tmp.write(b"written");
    tmp.commit(&mut repo, &chk);
    assert_eq!(repo.get(ObjectType::PayloadLink, &chk).unwrap(), b"half written");

    let mut second = repo.tmpfile_for_type(ObjectType::PayloadLink);
    second.write(b"something else");
    second.commit(&mut repo, &chk);
    assert_eq!(repo.get(ObjectType::PayloadLink, &chk).unwrap(), b"half written");
    assert_eq!(repo.object_count(), 1);
}

#[test]
fn a_write_that_is_tried_again_gives_the_same_checksum() {
    let mut repo = new_repo();
    let mut abandoned = repo.tmpfile_for_type(ObjectType::File);
    abandoned.write(b"data");
    drop(abandoned);
    let first = repo.write_raw_file(b"data").unwrap();
    let second = repo.write_raw_file(b"data").unwrap();
    assert!(first == second);
    let mut other = new_repo();
    assert!(other.write_raw_file(b"data").unwrap() == first);
    assert_eq!(repo.object_count(), 1);
}

#[test]
fn load_dirtree_errors() {
    let mut repo = new_repo();
    let missing = Checksum::hash(b"nothing");
    match repo.load_dirtree(&missing).unwrap_err().source {
        RepoErrorKind::Io(io) => assert_eq!(io.kind, IoErrorKind::NotFound),
        _ => panic!("expected an I/O error"),
    }
    let chk = repo.write_with_type(&[0xff; 7], ObjectType::DirTree).unwrap();
    assert!(matches!(repo.load_dirtree(&chk).unwrap_err().source, RepoErrorKind::Variant(_)));
}

#[test]
fn mutation_guards() {
    let repo = new_repo();
    let mut tree = MutableTree::new();
    tree.replace_file(&repo, "x", Checksum::hash(b"x")).unwrap();
    match tree.ensure_dir(&repo, "x") {
        Err(e) => match e.source {
            RepoErrorKind::InvalidMtree(m) => assert_eq!(m, "Can't replace file with directory: x"),
            _ => panic!("expected InvalidMtree"),
        },
        Ok(_) => panic!("expected a failure"),
    }
    tree.ensure_dir(&repo, "y").unwrap();
    match tree.replace_file(&repo, "y", Checksum::hash(b"y")) {
        Err(e) => match e.source {
            RepoErrorKind::InvalidMtree(m) => assert_eq!(m, "Can't replace directory with file: y"),
            _ => panic!("expected InvalidMtree"),
        },
        Ok(_) => panic!("expected a failure"),
    }
    match &tree {
        MutableTree::Whole(w) => {
            assert_eq!(w.files.len(), 1);
            assert_eq!(w.subdirs.len(), 1);
        }
        MutableTree::Lazy(_) => panic!("expected a whole tree"),
    }
}

#[test]
fn ensure_dir_finds_or_makes() {
    let repo = new_repo();
    let mut tree = MutableTree::default();
    {
        let child = tree.ensure_dir(&repo, "sub").unwrap();
        child.replace_file(&repo, "inner", Checksum::hash(b"i")).unwrap();
    }
    {
        let child = tree.ensure_dir(&repo, "sub").unwrap();
        match child {
            MutableTree::Whole(w) => assert!(w.files.contains_key("inner")),
            MutableTree::Lazy(_) => panic!("expected a whole tree"),
        }
    }
    tree.replace_file(&repo, "f", Checksum::hash(b"1")).unwrap();
    tree.replace_file(&repo, "f", Checksum::hash(b"2")).unwrap();
    match &tree {
        MutableTree::Whole(w) => {
            assert_eq!(w.files.len(), 1);
            assert!(*w.files.get("f").unwrap() == Checksum::hash(b"2"));
            assert_eq!(w.subdirs.len(), 1);
        }
        MutableTree::Lazy(_) => panic!("expected a whole tree"),
    }
}

fn finalize(tree: MutableTree, repo: &mut OsTreeRepo) -> MutableTreeLazy {
    tree.into_lazy(repo).unwrap()
}

#[test]
fn finalizing_does_not_depend_on_the_order_of_entry() {
    let mut repo = new_repo();
    let b = b"some bytes";
    let mut one = MutableTree::new();
    repo.write_dfd_to_mtree(&vec![file("test1", b)], &mut one).unwrap();
    let mut two = MutableTree::new();
    repo.write_dfd_to_mtree(&vec![file("test1", b)], &mut two).unwrap();
    assert!(finalize(one, &mut repo).checksums.checksum == finalize(two, &mut repo).checksums.checksum);

    let entries = |order: &[&str]| -> Vec<DirEntry> {
        order
            .iter()
            .map(|n| if n.starts_with('d') { dir(n, vec![file("in", n.as_bytes())]) } else { file(n, n.as_bytes()) })
            .collect()
    };
    let mut forward = MutableTree::new();
    repo.write_dfd_to_mtree(&entries(&["a", "b", "d1", "d2", "z"]), &mut forward).unwrap();
    let mut backward = MutableTree::new();
    repo.write_dfd_to_mtree(&entries(&["z", "d2", "b", "d1", "a"]), &mut backward).unwrap();
    let f = finalize(forward, &mut repo);
    let g = finalize(backward, &mut repo);
    assert!(f.checksums.checksum == g.checksums.checksum);
    assert!(f.checksums.meta_checksum == g.checksums.meta_checksum);
}

#[test]
fn end_to_end_single_file() {
    let mut repo = new_repo();
    let content = b"known content\n";
    let mut mtree = MutableTree::new();
    repo.write_dfd_to_mtree(&vec![file("test1", content)], &mut mtree).unwrap();
    let lazy = mtree.into_lazy(&mut repo).unwrap();

    let meta_expected = sha(&DirMeta::default().encode_canonical().unwrap());
    assert_eq!(lazy.checksums.meta_checksum.as_ref(), &meta_expected[..]);

    let mut hashed = FileHeader::default().encode_canonical().unwrap();
    hashed.extend_from_slice(content);
    let file_chk = Checksum::from(sha(&hashed));
    assert!(repo.contains(ObjectType::File, &file_chk));
    assert_eq!(repo.get(ObjectType::File, &file_chk).unwrap(), content);

    let mut dirtree = DirTree::new();
    dirtree.files.insert("test1".to_string(), file_chk.clone());
    let root_expected = sha(&dirtree.encode_canonical().unwrap());
    assert_eq!(lazy.checksums.checksum.as_ref(), &root_expected[..]);
    assert!(repo.contains(ObjectType::DirTree, &lazy.checksums.checksum));
    assert!(repo.contains(ObjectType::DirMeta, &lazy.checksums.meta_checksum));
    assert_eq!(repo.object_count(), 3);
}

#[test]
fn test_write_tree_1() {
    let mut repo = new_repo();
    let mut mtree = MutableTree::new();
    let source = vec![
        file("readme", b"read me"),
        dir("src", vec![file("lib.rs", b"pub fn f() {}"), dir("empty", Vec::new())]),
        DirEntry { file_name: b"link".to_vec(), kind: DirEntryKind::Other },
    ];
    repo.write_dfd_to_mtree(&source, &mut mtree).unwrap();
    match &mtree {
        MutableTree::Whole(w) => {
            assert_eq!(w.files.len(), 1);
            assert!(w.files.contains_key("readme"));
            assert_eq!(w.subdirs.len(), 1);
            assert!(w.subdirs.contains_key("src"));
        }
        MutableTree::Lazy(_) => panic!("expected a whole tree"),
    }
    assert_eq!(repo.object_count(), 2);
}

#[test]
fn ingestion_refuses_names_that_are_not_unicode() {
    let mut repo = new_repo();
    let mut mtree = MutableTree::new();
    let source = vec![
        file("ok", b"1"),
        DirEntry { file_name: vec![0x66, 0xff, 0x6f], kind: DirEntryKind::File(b"2".to_vec()) },
        file("later", b"3"),
    ];
    let e = repo.write_dfd_to_mtree(&source, &mut mtree).unwrap_err();
    match e.source {
        RepoErrorKind::InvalidFilename(raw) => assert_eq!(raw, vec![0x66, 0xff, 0x6f]),
        _ => panic!("expected InvalidFilename"),
    }
    assert_eq!(repo.object_count(), 1);
}

#[test]
fn ingestion_reports_name_collisions() {
    let mut repo = new_repo();
    let mut mtree = MutableTree::new();
    let e = repo
        .write_dfd_to_mtree(&vec![file("n", b"1"), dir("n", Vec::new())], &mut mtree)
        .unwrap_err();
    assert!(matches!(e.source, RepoErrorKind::InvalidMtree(_)));
    let mut mtree = MutableTree::new();
    let e = repo
        .write_dfd_to_mtree(&vec![dir("n", Vec::new()), file("n", b"1")], &mut mtree)
        .unwrap_err();
    assert!(matches!(e.source, RepoErrorKind::InvalidMtree(_)));
}

#[test]
fn a_failed_ingestion_keeps_what_was_written_before() {
    // A file whose name is taken by a directory is written before its
    // name is refused.
    let mut repo = new_repo();
    let mut mtree = MutableTree::new();
    let source = vec![dir("n", vec![file("inner", b"in")]), file("n", b"clash"), file("z", b"never")];
    let e = repo.write_dfd_to_mtree(&source, &mut mtree).unwrap_err();
    match e.source {
        RepoErrorKind::InvalidMtree(message) => assert!(message.contains("n")),
        _ => panic!("expected InvalidMtree"),
    }
    assert_eq!(repo.object_count(), 2);
    assert!(repo.contains(ObjectType::File, &hash_file(b"in").unwrap()));
    assert!(repo.contains(ObjectType::File, &hash_file(b"clash").unwrap()));
    assert!(!repo.contains(ObjectType::File, &hash_file(b"never").unwrap()));

    // A directory whose name is taken by a file fails before anything
    // below it is written.
    let mut repo = new_repo();
    let mut mtree = MutableTree::new();
    let source = vec![file("n", b"first"), dir("n", vec![file("inner", b"in")])];
    assert!(repo.write_dfd_to_mtree(&source, &mut mtree).is_err());
    assert_eq!(repo.object_count(), 1);
    assert!(repo.contains(ObjectType::File, &hash_file(b"first").unwrap()));

    // A failure below a subdirectory keeps what was written there.
    let mut repo = new_repo();
    let source = vec![dir(
        "d",
        vec![
            file("a", b"kept"),
            DirEntry { file_name: vec![0xff], kind: DirEntryKind::File(b"lost".to_vec()) },
        ],
    )];
    assert!(MutableTree::new_recursive_blank(&mut repo, &source).is_err());
    assert_eq!(repo.object_count(), 1);
    assert!(repo.contains(ObjectType::File, &hash_file(b"kept").unwrap()));
}

#[test]
fn an_entry_that_cannot_be_read_ends_ingestion_with_its_failure() {
    let denied = || mm_store::error::IoError { kind: IoErrorKind::Other, message: "denied".to_string() };
    let mut repo = new_repo();
    let mut mtree = MutableTree::new();
    let source = vec![
        file("a", b"1"),
        dir("d", vec![file("b", b"2"), DirEntry { file_name: b"c".to_vec(), kind: DirEntryKind::FileFailed(denied()) }]),
        file("z", b"3"),
    ];
    let e = repo.write_dfd_to_mtree(&source, &mut mtree).unwrap_err();
    match e.source {
        RepoErrorKind::Io(io) => {
            assert_eq!(io.kind, IoErrorKind::Other);
            assert_eq!(io.message, "denied");
        }
        _ => panic!("expected an I/O error"),
    }
    assert_eq!(repo.object_count(), 2);
    assert!(repo.contains(ObjectType::File, &hash_file(b"1").unwrap()));
    assert!(repo.contains(ObjectType::File, &hash_file(b"2").unwrap()));
    assert!(!repo.contains(ObjectType::File, &hash_file(b"3").unwrap()));

    // A subdirectory that cannot be opened is asked for its place first.
    let mut mtree = MutableTree::new();
    let source =
        vec![file("n", b"1"), DirEntry { file_name: b"n".to_vec(), kind: DirEntryKind::DirFailed(denied()) }];
    let e = repo.write_dfd_to_mtree(&source, &mut mtree).unwrap_err();
    assert!(matches!(e.source, RepoErrorKind::InvalidMtree(_)));
    let mut mtree = MutableTree::new();
    let source = vec![DirEntry { file_name: b"m".to_vec(), kind: DirEntryKind::DirFailed(denied()) }];
    let e = repo.write_dfd_to_mtree(&source, &mut mtree).unwrap_err();
    assert!(matches!(e.source, RepoErrorKind::Io(_)));

    // A name that is not Unicode is refused before the failure is looked at.
    let mut mtree = MutableTree::new();
    let source = vec![DirEntry { file_name: vec![0xff], kind: DirEntryKind::FileFailed(denied()) }];
    let e = repo.write_dfd_to_mtree(&source, &mut mtree).unwrap_err();
    assert!(matches!(e.source, RepoErrorKind::InvalidFilename(_)));
}

#[test]
fn lazy_and_whole_hold_the_same() {
    let mut repo = new_repo();
    let mut tree = MutableTree::new();
    let source = vec![file("a", b"1"), file("b", b"2"), dir("d", vec![file("x", b"3")]), dir("e", Vec::new())];
    repo.write_dfd_to_mtree(&source, &mut tree).unwrap();
    let files_before: Vec<(String, Vec<u8>)> = match &tree {
        MutableTree::Whole(w) => (0..w.files.len())
            .map(|i| (w.files.name_at(i).clone(), w.files.value_at(i).as_ref().to_vec()))
            .collect(),
        MutableTree::Lazy(_) => panic!("expected a whole tree"),
    };
    let lazy = tree.into_lazy(&mut repo).unwrap();
    let root = lazy.checksums.clone();
    let mut again = MutableTree::new_lazy_from_repo(lazy.checksums);
    let whole = again.make_whole(&repo).unwrap();
    let files_after: Vec<(String, Vec<u8>)> = (0..whole.files.len())
        .map(|i| (whole.files.name_at(i).clone(), whole.files.value_at(i).as_ref().to_vec()))
        .collect();
    assert_eq!(files_before, files_after);
    assert_eq!(whole.subdirs.len(), 2);
    assert_eq!(whole.subdirs.name_at(0), "d");
    assert_eq!(whole.subdirs.name_at(1), "e");
    assert!(matches!(whole.subdirs.value_at(0), MutableTree::Lazy(_)));

    let mut d = MutableTree::new();
    repo.write_dfd_to_mtree(&vec![file("x", b"3")], &mut d).unwrap();
    let d = d.into_lazy(&mut repo).unwrap();
    match whole.subdirs.value_at(0) {
        MutableTree::Lazy(l) => assert!(l.checksums.checksum == d.checksums.checksum),
        MutableTree::Whole(_) => panic!("expected a lazy tree"),
    }
    let refinalized = again.into_lazy(&mut repo).unwrap();
    assert!(refinalized.checksums.checksum == root.checksum);
    assert!(refinalized.checksums.meta_checksum == root.meta_checksum);
}

#[test]
fn make_whole_of_a_missing_directory_fails_and_changes_nothing() {
    let repo = new_repo();
    let checksums =
        DirTreeChecksums { checksum: Checksum::hash(b"gone"), meta_checksum: Checksum::hash(b"meta") };
    let mut tree = MutableTree::new_lazy_from_repo(checksums.clone());
    assert!(tree.make_whole(&repo).is_err());
    assert!(matches!(tree, MutableTree::Lazy(_)));
    assert!(tree.replace_file(&repo, "f", Checksum::hash(b"f")).is_err());
    assert!(tree.ensure_dir(&repo, "d").is_err());
    let mut repo = repo;
    let lazy = tree.into_lazy(&mut repo).unwrap();
    assert!(lazy.checksums.checksum == checksums.checksum);
    assert_eq!(repo.object_count(), 0);
}

#[test]
fn make_lazy_in_place() {
    let mut repo = new_repo();
    let mut tree = MutableTree::new();
    repo.write_dfd_to_mtree(&vec![file("a", b"1")], &mut tree).unwrap();
    let checksum = tree.make_lazy(&mut repo).unwrap().checksums.checksum.clone();
    assert!(matches!(tree, MutableTree::Lazy(_)));
    let mut same = MutableTree::new();
    repo.write_dfd_to_mtree(&vec![file("a", b"1")], &mut same).unwrap();
    assert!(same.into_lazy(&mut repo).unwrap().checksums.checksum == checksum);
}

#[test]
fn from_dirtree_and_insert_child() {
    let mut repo = new_repo();
    let mut dirtree = DirTree::new();
    dirtree.files.insert("f".to_string(), Checksum::hash(b"f"));
    dirtree.dirs.insert(
        "d".to_string(),
        DirTreeChecksums { checksum: Checksum::hash(b"d"), meta_checksum: Checksum::hash(b"m") },
    );
    let expected = sha(&dirtree.encode_canonical().unwrap());
    let mut tree = MutableTree::from_dirtree_chk(dirtree);
    match &tree {
        MutableTree::Whole(w) => {
            let assembled = w.get_dirtree();
            assert_eq!(sha(&assembled.encode_canonical().unwrap()), expected);
            assert!(w.has_lazy_children());
        }
        MutableTree::Lazy(_) => panic!("expected a whole tree"),
    }
    assert_eq!(sha(&tree.get_dirtree().unwrap().encode_canonical().unwrap()), expected);
    assert_eq!(sha(&tree.as_dirtree().unwrap().encode_canonical().unwrap()), expected);
    tree.insert_child("new".to_string(), MutableTree::new());
    assert!(tree.get_dirtree().is_none());
    match &tree {
        MutableTree::Whole(w) => assert_eq!(w.subdirs.len(), 2),
        MutableTree::Lazy(_) => panic!("expected a whole tree"),
    }
    let lazy = tree.into_lazy(&mut repo).unwrap();
    assert_ne!(lazy.checksums.checksum.as_ref(), &expected[..]);
}

#[test]
fn a_new_tree_from_a_directory() {
    let mut repo = new_repo();
    let source = vec![file("a", b"1"), dir("d", vec![file("x", b"3")])];
    let tree = MutableTree::new_recursive_blank(&mut repo, &source).unwrap();
    let mut same = MutableTree::new();
    repo.write_dfd_to_mtree(&source, &mut same).unwrap();
    let one = tree.into_lazy(&mut repo).unwrap();
    let other = same.into_lazy(&mut repo).unwrap();
    assert!(one.checksums.checksum == other.checksums.checksum);
    assert!(MutableTree::new_recursive_blank(&mut repo, &vec![file("a", b"1"), dir("a", Vec::new())]).is_err());
}

#[test]
fn an_empty_tree_finalizes_to_the_empty_directory() {
    let mut repo = new_repo();
    let lazy = MutableTree::new().into_lazy(&mut repo).unwrap();
    assert!(MutableTree::new().finalize(&mut repo).unwrap().checksums.checksum == lazy.checksums.checksum);
    assert_eq!(lazy.checksums.checksum.as_ref(), &sha(&DirTree::new().encode_canonical().unwrap())[..]);
    assert_eq!(lazy.checksums.meta_checksum.as_ref(), &sha(&default_dirmeta_bytes())[..]);
}

#[test]
fn a_reopened_repository_holds_what_was_written() {
    let mut repo = new_repo();
    let file = repo.write_raw_file(b"content").unwrap();
    let meta = repo.write(&DirMeta::default()).unwrap();
    let mut tree = MutableTree::new();
    tree.replace_file(&repo, "a", file.clone()).unwrap();
    let root = tree.into_lazy(&mut repo).unwrap().checksums;

    let found: Vec<(String, Vec<u8>)> = (0..repo.object_count())
        .map(|i| (repo.object_path_at(i).clone(), repo.object_data_at(i).clone()))
        .collect();
    assert_eq!(found.len(), 3);
    let all: Vec<String> = OsTreeRepo::state_dirs().iter().map(|d| d.to_string()).collect();
    let again = OsTreeRepo::open(&all, Some(repo.get_config()), &found).unwrap();
    assert_eq!(again.object_count(), 3);
    assert!(again.contains(ObjectType::File, &file));
    assert!(again.contains(ObjectType::DirMeta, &meta));
    assert!(again.contains(ObjectType::DirTree, &root.checksum));
    assert!(!again.contains(ObjectType::Commit, &file));
    assert_eq!(again.try_get(ObjectType::File, &file).unwrap().unwrap(), b"content");
    let loaded = again.load_dirtree(&root.checksum).unwrap();
    assert_eq!(loaded.files.len(), 1);
    assert!(loaded.files.get("a").unwrap() == &file);

    let mut lazy = MutableTree::new_lazy_from_repo(root.clone());
    lazy.make_whole(&again).unwrap();
    assert!(lazy.get_dirtree().unwrap().files.get("a").unwrap() == &file);

    let twice = vec![
        ("ab/cd.file".to_string(), b"first".to_vec()),
        ("ab/cd.file".to_string(), b"second".to_vec()),
    ];
    let last = OsTreeRepo::open(&all, Some(repo.get_config()), &twice).unwrap();
    assert_eq!(last.object_count(), 1);
    assert_eq!(last.object_data_at(0), b"second");
}

#[test]
fn a_failed_finalization_keeps_what_was_written_before() {
    let mut repo = new_repo();
    let chk = Checksum::hash(b"content");
    let mut tree = MutableTree::new();
    tree.ensure_dir(&repo, "a").unwrap().replace_file(&repo, "f", chk.clone()).unwrap();
    tree.ensure_dir(&repo, "b").unwrap().replace_file(&repo, "x\0y", chk.clone()).unwrap();
    tree.ensure_dir(&repo, "c").unwrap().replace_file(&repo, "g", chk.clone()).unwrap();
    let e = tree.into_lazy(&mut repo).unwrap_err();
    assert!(matches!(e.source, RepoErrorKind::Variant(_)));

    let mut a = MutableTree::new();
    a.replace_file(&repo, "f", chk.clone()).unwrap();
    let mut c = MutableTree::new();
    c.replace_file(&repo, "g", chk.clone()).unwrap();
    let mut other = new_repo();
    let a = a.into_lazy(&mut other).unwrap().checksums;
    let c = c.into_lazy(&mut other).unwrap().checksums;
    assert_eq!(repo.object_count(), 2);
    assert!(repo.contains(ObjectType::DirTree, &a.checksum));
    assert!(repo.contains(ObjectType::DirMeta, &a.meta_checksum));
    assert!(!repo.contains(ObjectType::DirTree, &c.checksum));
}

/// Bytes of `bytes` with a few of them changed, cut off or added, the same
/// for the same `seed`.
fn spoiled(bytes: &[u8], seed: &mut u64) -> Vec<u8> {
    let mut step = || {
        *seed = seed.wrapping_mul(6364136223846793005).wrapping_add(1442695040888963407);
        (*seed >> 33) as usize
    };
    let mut out = bytes.to_vec();
    for _ in 0..1 + step() % 4 {
        if out.is_empty() {
            break;
        }
        let at = step() % out.len();
        match step() % 5 {
            0 => out[at] = step() as u8,
            1 => out[at] = 0,
            2 => out[at] = out[at].wrapping_add(1),
            3 => out.truncate(at),
            _ => out.insert(at, step() as u8),
        }
    }
    out
}

#[test]
fn spoiled_directories_are_refused_or_read() {
    let mut tree = DirTree::new();
    for name in ["a", "bb", "a name that is rather long", "z"] {
        tree.files.insert(name.to_string(), Checksum::hash(name.as_bytes()));
        tree.dirs.insert(
            format!("d{name}"),
            DirTreeChecksums { checksum: Checksum::hash(b"t"), meta_checksum: Checksum::hash(b"m") },
        );
    }
    let tree_bytes = tree.encode_canonical().unwrap();
    let meta = DirMeta { uid: 1, gid: 2, mode: 0o40700, xattrs: vec![(b"k".to_vec(), b"v".to_vec())] };
    let meta_bytes = meta.encode_canonical().unwrap();
    let mut seed = 11u64;
    let mut read = 0;
    for _ in 0..6000 {
        if let Ok(back) = DirTree::decode(&spoiled(&tree_bytes, &mut seed)) {
            read += back.files.len() + 1;
        }
        if DirMeta::decode(&spoiled(&meta_bytes, &mut seed)).is_ok() {
            read += 1;
        }
    }
    assert!(read > 0);
}

#[test]
fn ingestion_does_not_depend_on_the_order_of_files() {
    let names: [(&str, &[u8]); 4] = [("test1", b"B"), ("a", b"1"), ("zz", b"22"), ("m", b"B")];
    let orders: [[usize; 4]; 4] = [[0, 1, 2, 3], [3, 2, 1, 0], [2, 0, 3, 1], [1, 3, 0, 2]];
    let mut seen: Vec<Vec<u8>> = Vec::new();
    for order in orders {
        let mut repo = new_repo();
        let source: Vec<DirEntry> = order.iter().map(|&i| file(names[i].0, names[i].1)).collect();
        let tree = MutableTree::new_recursive_blank(&mut repo, &source).unwrap();
        let checksums = tree.into_lazy(&mut repo).unwrap().checksums;
        seen.push(checksums.checksum.as_ref().to_vec());
        assert_eq!(repo.object_count(), 5);
    }
    assert!(seen.iter().all(|c| c == &seen[0]));
}

#[test]
fn publishing_an_object_that_is_there_already_succeeds() {
    assert_eq!(publish_step(true), PublishAction::Done);
    assert_eq!(publish_step(false), PublishAction::MoveIntoPlace);
    assert_eq!(after_move(MoveOutcome::Moved).unwrap(), PublishAction::Done);
    assert_eq!(after_move(MoveOutcome::TargetExists).unwrap(), PublishAction::DropTemporary);
    let io = mm_store::error::IoError { kind: IoErrorKind::Other, message: "full".to_string() };
    match after_move(MoveOutcome::Failed(io)).unwrap_err().source {
        RepoErrorKind::Io(io) => assert_eq!(io.message, "full"),
        _ => panic!("expected an I/O error"),
    }
}

#[test]
fn ingestion_does_not_depend_on_the_order_at_any_depth() {
    let one = vec![
        file("test1", b"B"),
        dir("lib", vec![file("a", b"1"), dir("deep", vec![file("x", b"X"), file("y", b"Y")]), file("b", b"2")]),
        dir("empty", Vec::new()),
        DirEntry { file_name: b"link".to_vec(), kind: DirEntryKind::Other },
        file("zz", b"B"),
    ];
    let other = vec![
        file("zz", b"B"),
        dir("empty", Vec::new()),
        DirEntry { file_name: b"link".to_vec(), kind: DirEntryKind::Other },
        dir("lib", vec![file("b", b"2"), file("a", b"1"), dir("deep", vec![file("y", b"Y"), file("x", b"X")])]),
        file("test1", b"B"),
    ];
    let mut first = new_repo();
    let mut second = new_repo();
    let a = MutableTree::new_recursive_blank(&mut first, &one).unwrap().into_lazy(&mut first).unwrap();
    let b = MutableTree::new_recursive_blank(&mut second, &other).unwrap().into_lazy(&mut second).unwrap();
    assert!(a.checksums.checksum == b.checksums.checksum);
    assert!(a.checksums.meta_checksum == b.checksums.meta_checksum);
    assert_eq!(first.object_count(), second.object_count());

    let changed = vec![file("test1", b"B"), dir("lib", vec![file("a", b"2")])];
    let mut third = new_repo();
    let c = MutableTree::new_recursive_blank(&mut third, &changed).unwrap().into_lazy(&mut third).unwrap();
    assert!(a.checksums.checksum != c.checksums.checksum);
}
