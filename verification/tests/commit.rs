use mm_store::checksum::Checksum;
use mm_store::error::RepoErrorKind;
use mm_store::framing::{
    frame_entries, frame_entry, is_plain_variant, pad, padding_of, separator_of, unframe_element,
    unframe_elements, unpad,
};
use mm_store::name_map::NameMap;
use mm_store::object::ObjectType;
use mm_store::repo::{CreateDirOutcome, OsTreeRepo};
use mm_store::schema::{gv_hash, Commit, Encode, MetadataValue, Object, RelatedObject};
use mm_store::traits::RepoReadExt;
use sha2::{Digest, Sha256};
use std::collections::BTreeMap;
use zvariant::Type;

fn blank() -> Commit {
    Commit {
        metadata: NameMap::new(),
        parent: Checksum::default(),
        related_objects: Vec::new(),
        subject: String::new(),
        body: String::new(),
        timestamp: 0,
        root_dirtree_checksum: Checksum::from(vec![0u8; 32]),
        root_dirmeta_checksum: Checksum::from(vec![0u8; 32]),
    }
}

fn sample() -> Commit {
    let mut commit = Commit {
        metadata: NameMap::new(),
        parent: Checksum::default(),
        related_objects: vec![RelatedObject { name: "rel".to_string(), checksum: Checksum::hash(b"r") }],
        subject: "subject".to_string(),
        body: "body\ntext".to_string(),
        timestamp: 1673851268,
        root_dirtree_checksum: Checksum::hash(b"tree"),
        root_dirmeta_checksum: Checksum::hash(b"meta"),
    };
    commit.set_metadata("version".to_string(), &MetadataValue::Str("1.2".to_string())).unwrap();
    commit.set_metadata("count".to_string(), &MetadataValue::U32(7)).unwrap();
    commit.set_metadata("big".to_string(), &MetadataValue::U64(1 << 40)).unwrap();
    commit.set_metadata("delta".to_string(), &MetadataValue::I64(-5)).unwrap();
    commit.set_metadata("flag".to_string(), &MetadataValue::Bool(true)).unwrap();
    commit.set_metadata("raw".to_string(), &MetadataValue::Bytes(vec![1, 2, 3])).unwrap();
    commit
}

fn context() -> zvariant::serialized::Context {
    zvariant::serialized::Context::new_gvariant(zvariant::Endian::Big, 0)
}

/// The bytes that stand for a value, as the codec writes them.
fn standing_for(value: &zvariant::Value) -> Vec<u8> {
    zvariant::to_bytes(context(), value).unwrap().to_vec()
}

fn encoded_with(metadata: BTreeMap<&str, zvariant::Value>) -> Vec<u8> {
    let value =
        (metadata, Vec::<u8>::new(), Vec::<(&str, Vec<u8>)>::new(), "", "", 0u64, vec![0u8; 32], vec![0u8; 32]);
    zvariant::to_bytes(context(), &value).unwrap().to_vec()
}

fn dictionary() -> zvariant::Value<'static> {
    let mut inner: std::collections::HashMap<&str, &str> = std::collections::HashMap::new();
    inner.insert("k", "v");
    zvariant::Value::from(inner)
}

#[test]
fn commit_signature() {
    assert_eq!(Commit::signature(), "(a{sv}aya(say)sstayay)");
    assert_eq!(
        <(
            BTreeMap<String, zvariant::OwnedValue>,
            Vec<u8>,
            Vec<(String, Vec<u8>)>,
            String,
            String,
            u64,
            Vec<u8>,
            Vec<u8>
        )>::signature(),
        Commit::signature()
    );
    assert_eq!(Commit::object_type(), ObjectType::Commit);
}

#[test]
fn commit_encoding_matches_the_codec() {
    let c = sample();
    let bytes = c.encode_canonical().unwrap();
    let mut metadata: BTreeMap<&str, zvariant::Value> = BTreeMap::new();
    metadata.insert("version", zvariant::Value::from("1.2"));
    metadata.insert("count", zvariant::Value::U32(7));
    metadata.insert("big", zvariant::Value::U64(1 << 40));
    metadata.insert("delta", zvariant::Value::I64(-5));
    metadata.insert("flag", zvariant::Value::Bool(true));
    metadata.insert("raw", zvariant::Value::from(vec![1u8, 2, 3]));
    let value = (
        metadata,
        Vec::<u8>::new(),
        vec![("rel", Sha256::digest(b"r").to_vec())],
        "subject",
        "body\ntext",
        1673851268u64,
        Sha256::digest(b"tree").to_vec(),
        Sha256::digest(b"meta").to_vec(),
    );
    assert_eq!(bytes, zvariant::to_bytes(context(), &value).unwrap().to_vec());
    assert_eq!(c.encode_canonical().unwrap(), bytes);
    assert!(gv_hash(&c).unwrap() == gv_hash(&sample()).unwrap());
}

#[test]
fn commit_reads_back() {
    let c = sample();
    let bytes = c.encode_canonical().unwrap();
    let back = Commit::decode(&bytes).unwrap();
    assert_eq!(back.subject, "subject");
    assert_eq!(back.body, "body\ntext");
    assert_eq!(back.timestamp, 1673851268);
    assert!(back.parent == Checksum::default());
    assert!(back.root_dirtree_checksum == Checksum::hash(b"tree"));
    assert!(back.root_dirmeta_checksum == Checksum::hash(b"meta"));
    assert_eq!(back.related_objects.len(), 1);
    assert_eq!(back.related_objects[0].name, "rel");
    assert!(back.related_objects[0].checksum == Checksum::hash(b"r"));
    assert_eq!(back.metadata.len(), 6);
    assert!(matches!(back.plain_metadata("version"), Some(MetadataValue::Str(s)) if s == "1.2"));
    assert!(matches!(back.plain_metadata("count"), Some(MetadataValue::U32(7))));
    assert!(matches!(back.plain_metadata("big"), Some(MetadataValue::U64(n)) if n == 1 << 40));
    assert!(matches!(back.plain_metadata("delta"), Some(MetadataValue::I64(-5))));
    assert!(matches!(back.plain_metadata("flag"), Some(MetadataValue::Bool(true))));
    assert!(matches!(back.plain_metadata("raw"), Some(MetadataValue::Bytes(b)) if b == vec![1, 2, 3]));
    assert!(back.plain_metadata("missing").is_none());
    assert_eq!(back.metadata.get("count"), Some(&standing_for(&zvariant::Value::U32(7))));
    assert_eq!(back.metadata.get("count"), Some(&vec![0, 0, 0, 7, 0, b'u']));
    assert_eq!(back.metadata.get("version"), Some(&b"1.2\0\0s".to_vec()));
    assert_eq!(back.encode_canonical().unwrap(), bytes);
    for i in 0..6 {
        assert_eq!(back.metadata.name_at(i), c.metadata.name_at(i));
        assert_eq!(back.metadata.value_at(i), c.metadata.value_at(i));
    }
}

#[test]
fn set_metadata_replaces_a_value() {
    let mut c = sample();
    c.set_metadata("count".to_string(), &MetadataValue::U32(8)).unwrap();
    assert_eq!(c.metadata.len(), 6);
    assert!(matches!(c.plain_metadata("count"), Some(MetadataValue::U32(8))));
    assert!(c.encode_canonical().unwrap() != sample().encode_canonical().unwrap());

    let e = c.set_metadata("count".to_string(), &MetadataValue::Str("a\0b".to_string())).unwrap_err();
    assert!(matches!(e.source, RepoErrorKind::Variant(_)));
    assert!(matches!(c.plain_metadata("count"), Some(MetadataValue::U32(8))));
}

#[test]
fn commit_keeps_metadata_of_any_type() {
    let values: Vec<(&str, zvariant::Value)> = vec![
        ("refs", zvariant::Value::from(vec!["a", "b"])),
        ("none", zvariant::Value::from(Vec::<&str>::new())),
        ("empty", zvariant::Value::from(Vec::<u8>::new())),
        ("pair", zvariant::Value::from(zvariant::Structure::from((7u32, "seven")))),
        ("text", zvariant::Value::from("{not a dictionary}")),
        ("small", zvariant::Value::U8(1)),
        ("dict", dictionary()),
        ("nested", zvariant::Value::Value(Box::new(zvariant::Value::U32(1)))),
        ("deep", zvariant::Value::Value(Box::new(dictionary()))),
        ("wide", zvariant::Value::F64(1.5)),
    ];
    let mut metadata: BTreeMap<&str, zvariant::Value> = BTreeMap::new();
    for (name, value) in &values {
        metadata.insert(name, value.try_clone().unwrap());
    }
    let bytes = encoded_with(metadata);
    let back = Commit::decode(&bytes).unwrap();
    assert_eq!(back.metadata.len(), values.len());
    for (name, value) in &values {
        assert_eq!(back.metadata.get(name), Some(&standing_for(value)), "{name}");
    }
    for name in ["refs", "none", "pair", "small", "dict", "nested", "deep", "wide"] {
        assert!(back.plain_metadata(name).is_none(), "{name}");
    }
    assert!(matches!(back.plain_metadata("empty"), Some(MetadataValue::Bytes(b)) if b.is_empty()));
    assert!(
        matches!(back.plain_metadata("text"), Some(MetadataValue::Str(s)) if s == "{not a dictionary}")
    );
    assert_eq!(back.encode_canonical().unwrap(), bytes);

    let mut repo = OsTreeRepo::create(CreateDirOutcome::Created).unwrap();
    let chk = repo.write(&back).unwrap();
    assert_eq!(chk.as_ref(), &Sha256::digest(&bytes)[..]);
    let loaded: Commit = RepoReadExt::<Commit>::try_load(&repo, &chk).unwrap().unwrap();
    assert_eq!(loaded.metadata.get("dict"), Some(&standing_for(&dictionary())));
    assert_eq!(loaded.encode_canonical().unwrap(), bytes);
}

#[test]
fn commit_with_many_long_metadata_values_reads_back() {
    let mut differing = Vec::new();
    for len in (1usize..=24).chain(225..=262).chain([300, 65500, 65520, 65530, 65540, 70000]) {
        let long = "x".repeat(len);
        let mut metadata: BTreeMap<&str, zvariant::Value> = BTreeMap::new();
        metadata.insert("a", zvariant::Value::from(long.as_str()));
        metadata.insert("c", zvariant::Value::U64(9));
        let mut made = blank();
        made.set_metadata("a".to_string(), &MetadataValue::Str(long.clone())).unwrap();
        made.set_metadata("c".to_string(), &MetadataValue::U64(9)).unwrap();
        let bytes = made.encode_canonical().unwrap();
        let back = Commit::decode(&bytes).unwrap();
        assert!(matches!(back.plain_metadata("a"), Some(MetadataValue::Str(s)) if s == long), "{len}");
        assert!(matches!(back.plain_metadata("c"), Some(MetadataValue::U64(9))));
        assert_eq!(back.encode_canonical().unwrap(), bytes);
        if bytes != encoded_with(metadata) {
            differing.push(len);
        }
    }
    // An entry of exactly 255 bytes is framed with an offset of two bytes,
    // since with one byte of offset it would be 256 bytes long. The map
    // writer of the codec gives it one byte.
    assert_eq!(differing, vec![244]);
}

#[test]
fn commit_with_a_broken_frame_is_refused() {
    assert!(Commit::decode(&[1, 2, 3]).is_err());
    assert!(Commit::decode(&[]).is_err());
    assert!(matches!(Commit::decode(&[0]).unwrap_err().source, RepoErrorKind::Variant(_)));

    // One entry of fifteen bytes, then offsets that go backwards.
    let mut bytes = vec![b'k', 0, 0, 0, 0, 0, 0, 0, 0, 0, 0, 7, 0, b'u', 2];
    bytes.extend_from_slice(&[0, 15, 0, 16, 19]);
    assert_eq!(bytes.len(), 20);
    assert!(Commit::decode(&bytes).is_err());

    // The same entry alone is framed well; the rest of the commit is missing.
    let mut bytes = vec![b'k', 0, 0, 0, 0, 0, 0, 0, 0, 0, 0, 7, 0, b'u', 2];
    bytes.extend_from_slice(&[15, 16]);
    assert!(matches!(Commit::decode(&bytes).unwrap_err().source, RepoErrorKind::Variant(_)));

    // An entry whose value does not stand at a boundary.
    let good = sample().encode_canonical().unwrap();
    let at = good.iter().position(|&b| b == b'b').unwrap();
    assert_eq!(&good[at..at + 4], b"big\0");
    let mut bad = good.clone();
    bad[at + 5] = 1;
    assert!(matches!(Commit::decode(&bad).unwrap_err().source, RepoErrorKind::Format));
}

#[test]
fn padding_to_a_boundary() {
    assert_eq!(padding_of(0), 0);
    assert_eq!(padding_of(1), 7);
    assert_eq!(padding_of(7), 1);
    assert_eq!(padding_of(8), 0);
    assert_eq!(padding_of(13), 3);
    assert_eq!(pad(0, b"ab"), b"ab");
    assert_eq!(pad(5, b"ab"), b"\0\0\0ab");
    assert_eq!(pad(16, b""), b"");
    assert_eq!(unpad(5, b"\0\0\0ab"), Some(&b"ab"[..]));
    assert_eq!(unpad(8, b"ab"), Some(&b"ab"[..]));
    assert_eq!(unpad(5, b"\0\0\0"), Some(&b""[..]));
    assert_eq!(unpad(5, b"\0\0"), None);
    assert_eq!(unpad(5, b"\0\x01\0ab"), None);
}

#[test]
fn entries_and_elements() {
    let value = vec![0, 0, 0, 7, 0, b'u'];
    let element = frame_entry("k", &value, 0).unwrap();
    assert_eq!(element, vec![b'k', 0, 0, 0, 0, 0, 0, 0, 0, 0, 0, 7, 0, b'u', 2]);
    let shifted = frame_entry("k", &value, 15).unwrap();
    assert_eq!(shifted[0], 0);
    assert_eq!(&shifted[1..], &element[..]);
    assert_eq!(frame_entry("k", &value, 23).unwrap(), shifted);
    let (name, back) = unframe_element(&element, 0).unwrap();
    assert_eq!((name.as_str(), &back), ("k", &value));
    let (name, back) = unframe_element(&shifted, 15).unwrap();
    assert_eq!((name.as_str(), &back), ("k", &value));
    assert!(matches!(unframe_element(&shifted, 0).unwrap_err().source, RepoErrorKind::Variant(_)));
    assert!(matches!(unframe_element(&element, 15).unwrap_err().source, RepoErrorKind::Format));
    assert!(matches!(unframe_element(&[], 1).unwrap_err().source, RepoErrorKind::Format));
    assert!(matches!(frame_entry("a\0b", &value, 0).unwrap_err().source, RepoErrorKind::Variant(_)));

    // A name of seven bytes leaves the value at a boundary.
    let element = frame_entry("sevenly", b"v", 0).unwrap();
    assert_eq!(element, b"sevenly\0v\x08");

    let entries = vec![("k".to_string(), value.clone()), ("name".to_string(), b"1\0\0s".to_vec())];
    let elements = frame_entries(&entries).unwrap();
    assert_eq!(elements.len(), 2);
    assert_eq!(elements[0].len(), 15);
    assert_eq!(elements[1][0], 0);
    assert_eq!(elements[1].len(), 1 + 5 + 3 + 4 + 1);
    assert_eq!(unframe_elements(&elements).unwrap(), entries);
    assert_eq!(frame_entries(&[]).unwrap(), Vec::<Vec<u8>>::new());
    assert_eq!(unframe_elements(&Vec::new()).unwrap(), Vec::new());
    let swapped = vec![elements[1].clone(), elements[0].clone()];
    assert!(unframe_elements(&swapped).is_err());
}

#[test]
fn plain_values_are_told_by_their_signature() {
    assert_eq!(separator_of(&[0, 0, 0, 7, 0, b'u']), Some(4));
    assert_eq!(separator_of(&[b's', 0]), None);
    assert_eq!(separator_of(&[0, b's', 0]), Some(0));
    assert_eq!(separator_of(&[]), None);
    assert_eq!(separator_of(&[0]), None);
    for signature in ["b", "u", "t", "x", "s", "ay"] {
        let mut bytes = vec![1, 0];
        bytes.extend_from_slice(signature.as_bytes());
        assert!(is_plain_variant(&bytes), "{signature}");
    }
    for signature in ["y", "d", "as", "a{ss}", "v", "(us)", "ya", "aay", "", "uu"] {
        let mut bytes = vec![1, 0];
        bytes.extend_from_slice(signature.as_bytes());
        assert!(!is_plain_variant(&bytes), "{signature}");
    }
    assert!(!is_plain_variant(b"u"));
    assert!(!is_plain_variant(&[]));

    // Bytes that end in a plain signature and hold nothing that fits it.
    let mut c = blank();
    c.metadata.insert("short".to_string(), vec![1, 0, b'u']);
    c.metadata.insert("text".to_string(), vec![0xff, 0, 0, b's']);
    assert!(c.plain_metadata("short").is_none());
    assert!(c.plain_metadata("text").is_none());
}

#[test]
fn commit_is_written_as_a_commit() {
    let mut repo = OsTreeRepo::create(CreateDirOutcome::Created).unwrap();
    let c = sample();
    let chk = repo.write(&c).unwrap();
    assert_eq!(chk.as_ref(), &Sha256::digest(c.encode_canonical().unwrap())[..]);
    assert!(repo.contains(ObjectType::Commit, &chk));
    assert!(!repo.contains(ObjectType::DirTree, &chk));
    let stored = repo.get(ObjectType::Commit, &chk).unwrap();
    assert_eq!(Commit::decode(stored).unwrap().subject, "subject");
}

/// A small generator of numbers that gives the same numbers every time.
struct Numbers(u64);

impl Numbers {
    fn next(&mut self) -> u64 {
        self.0 = self.0.wrapping_mul(6364136223846793005).wrapping_add(1442695040888963407);
        self.0 >> 33
    }

    fn below(&mut self, n: usize) -> usize {
        (self.next() % n as u64) as usize
    }
}

fn damaged(bytes: &[u8], numbers: &mut Numbers) -> Vec<u8> {
    let mut out = bytes.to_vec();
    for _ in 0..1 + numbers.below(4) {
        if out.is_empty() {
            break;
        }
        let at = numbers.below(out.len());
        match numbers.below(6) {
            0 => out[at] = numbers.next() as u8,
            1 => out[at] = 0,
            2 => out[at] = out[at].wrapping_add(1),
            3 => out.truncate(at),
            4 => out.insert(at, numbers.next() as u8),
            _ => out[at] = b"{}v()as\0"[numbers.below(8)],
        }
    }
    out
}

#[test]
fn damaged_commits_are_refused_or_read() {
    let mut samples = vec![sample().encode_canonical().unwrap()];
    let mut metadata: BTreeMap<&str, zvariant::Value> = BTreeMap::new();
    metadata.insert("refs", zvariant::Value::from(vec!["a", "b"]));
    metadata.insert("pair", zvariant::Value::from(zvariant::Structure::from((7u32, "seven"))));
    metadata.insert("n", zvariant::Value::U64(9));
    samples.push(encoded_with(metadata));
    let long = "x".repeat(300);
    let mut metadata: BTreeMap<&str, zvariant::Value> = BTreeMap::new();
    metadata.insert("a", zvariant::Value::from(long.as_str()));
    metadata.insert("b", zvariant::Value::from(vec![1u32, 2, 3]));
    samples.push(encoded_with(metadata));
    let mut metadata: BTreeMap<&str, zvariant::Value> = BTreeMap::new();
    metadata.insert("dict", dictionary());
    metadata.insert("after", zvariant::Value::U32(1));
    samples.push(encoded_with(metadata));
    samples.push(encoded_with(BTreeMap::new()));

    let mut numbers = Numbers(7);
    let mut read = 0;
    for sample in &samples {
        for _ in 0..4000 {
            let bytes = damaged(sample, &mut numbers);
            if let Ok(commit) = Commit::decode(&bytes) {
                for i in 0..commit.metadata.len() {
                    let name = commit.metadata.name_at(i).clone();
                    if commit.plain_metadata(&name).is_some() {
                        read += 1;
                    }
                }
                read += 1;
            }
        }
    }
    assert!(read > 0);
}

#[test]
fn names_of_every_length_are_framed_as_the_codec_frames_them() {
    let mut names: Vec<String> = (0..=17).map(|n| "n".repeat(n)).collect();
    names.push("é".to_string());
    names.push("日本語の名前".to_string());
    for name in &names {
        for other in ["", "a", "zzzzzzzzz"] {
            if name == other {
                continue;
            }
            let mut made = blank();
            made.set_metadata(name.clone(), &MetadataValue::U32(7)).unwrap();
            made.set_metadata(other.to_string(), &MetadataValue::Str("text".to_string())).unwrap();
            let mut metadata: BTreeMap<&str, zvariant::Value> = BTreeMap::new();
            metadata.insert(name.as_str(), zvariant::Value::U32(7));
            metadata.insert(other, zvariant::Value::from("text"));
            let bytes = made.encode_canonical().unwrap();
            assert_eq!(bytes, encoded_with(metadata), "{name:?} {other:?}");
            let back = Commit::decode(&bytes).unwrap();
            assert_eq!(back.metadata.len(), 2);
            assert!(matches!(back.plain_metadata(name), Some(MetadataValue::U32(7))));
            assert!(matches!(back.plain_metadata(other), Some(MetadataValue::Str(s)) if s == "text"));
        }
    }
}
