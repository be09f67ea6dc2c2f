//! The canonical encoding of structured objects.
//!
//! Objects are encoded as GVariant values in big-endian byte order, framed
//! from offset zero. The encoding itself is the work of the `zvariant`
//! crate; this module hands it plain values and names what it returns.
//! The metadata of a commit is handed over as byte strings, so the codec
//! frames it and never looks into a value.

use crate::checksum::Checksum;
use crate::framing::byte_strings;
use crate::framing::plain_variant;
use crate::schema::DirTreeChecksums;
use crate::schema::MetadataValue;
use crate::schema::MetadataValueView;
use crate::schema::RawCommit;
use crate::schema::RelatedObject;
use vstd::prelude::*;
use zvariant::Value;

verus! {

/// The bytes that stand for a plain value in the metadata of a commit,
/// where the codec can encode it: its framed content, a zero byte, and
/// its type signature.
pub uninterp spec fn gvariant_plain(value: MetadataValueView) -> Option<Seq<u8>>;

/// The plain value that the codec reads from the bytes that stand for a
/// value, where it accepts them and what it reads is a plain value.
pub uninterp spec fn gvariant_plain_parsed(bytes: Seq<u8>) -> Option<MetadataValueView>;

/// The encoding of a name and a byte string as one entry of a list, where
/// the codec can encode them.
pub uninterp spec fn gvariant_entry(name: Seq<char>, rest: Seq<u8>) -> Option<Seq<u8>>;

/// The name and the byte string that the codec reads from `bytes` as one
/// entry of a list, where it accepts them.
pub uninterp spec fn gvariant_entry_parsed(bytes: Seq<u8>) -> Option<(Seq<char>, Seq<u8>)>;

/// The canonical encoding of a commit with these fields, where the codec
/// can encode them. The metadata is given as a list of byte strings, one
/// for each entry.
pub uninterp spec fn gvariant_commit(
    metadata: Seq<Seq<u8>>,
    parent: Seq<u8>,
    related_objects: Seq<(Seq<char>, Seq<u8>)>,
    subject: Seq<char>,
    body: Seq<char>,
    timestamp: u64,
    root_dirtree_checksum: Seq<u8>,
    root_dirmeta_checksum: Seq<u8>,
) -> Option<Seq<u8>>;

/// The fields that the codec reads from `bytes` as a commit, where it
/// accepts them, in the order of the fields. The metadata is given as a
/// list of byte strings, one for each entry.
pub uninterp spec fn gvariant_commit_parsed(bytes: Seq<u8>) -> Option<
    (
        Seq<Seq<u8>>,
        Seq<u8>,
        Seq<(Seq<char>, Seq<u8>)>,
        Seq<char>,
        Seq<char>,
        u64,
        Seq<u8>,
        Seq<u8>,
    ),
>;

/// The related objects of a commit as the codec takes them.
pub open spec fn related_entries_of(related: Seq<RelatedObject>) -> Seq<(Seq<char>, Seq<u8>)> {
    Seq::new(related.len(), |i: int| (related[i].name@, related[i].checksum@))
}

/// Calls `zvariant::to_bytes` on the `zvariant::Value` of the same type as
/// the plain value, for GVariant in big-endian order at offset zero. The
/// bytes depend on the plain value alone; the codec may refuse it.
#[verifier::external_body]
pub(crate) fn encode_plain(value: &MetadataValue) -> (r: Result<Vec<u8>, zvariant::Error>)
    ensures
        match r {
            Ok(bytes) => gvariant_plain(value@) == Some(bytes@),
            Err(_) => gvariant_plain(value@) is None,
        },
{
    let context = zvariant::serialized::Context::new_gvariant(zvariant::Endian::Big, 0);
    let value = match value {
        MetadataValue::Bool(b) => Value::Bool(*b),
        MetadataValue::U32(n) => Value::U32(*n),
        MetadataValue::U64(n) => Value::U64(*n),
        MetadataValue::I64(n) => Value::I64(*n),
        MetadataValue::Str(s) => Value::from(s.as_str()),
        MetadataValue::Bytes(b) => Value::from(b.as_slice()),
    };
    zvariant::to_bytes(context, &value).map(|data| data.to_vec())
}

/// Calls `zvariant::serialized::Data::deserialize` for a `zvariant::Value`,
/// on GVariant in big-endian order at offset zero, and tells the variants
/// of what is read apart. What is read depends on the bytes alone. Only
/// bytes that end in the type signature of a plain value are handed over,
/// so the codec reads a truth value, a number, a string or an array of
/// bytes, and nothing that is framed by offsets.
#[verifier::external_body]
pub(crate) fn decode_plain(bytes: &[u8]) -> (r: Option<MetadataValue>)
    requires
        plain_variant(bytes@),
    ensures
        match r {
            Some(value) => gvariant_plain_parsed(bytes@) == Some(value@),
            None => gvariant_plain_parsed(bytes@) is None,
        },
{
    let context = zvariant::serialized::Context::new_gvariant(zvariant::Endian::Big, 0);
    let data = zvariant::serialized::Data::new(bytes, context);
    let read: Value<'_> = data.deserialize().ok()?.0;
    match read {
        Value::Bool(b) => Some(MetadataValue::Bool(b)),
        Value::U32(n) => Some(MetadataValue::U32(n)),
        Value::U64(n) => Some(MetadataValue::U64(n)),
        Value::I64(n) => Some(MetadataValue::I64(n)),
        Value::Str(s) => Some(MetadataValue::Str(s.as_str().to_owned())),
        Value::Array(a) => Vec::<u8>::try_from(a).ok().map(MetadataValue::Bytes),
        _ => None,
    }
}

/// Calls `zvariant::to_bytes` on the pair of a name and a byte string, for
/// GVariant in big-endian order at offset zero. The bytes depend on the
/// two alone; the codec may refuse them.
#[verifier::external_body]
pub(crate) fn encode_entry(name: &str, rest: &[u8]) -> (r: Result<Vec<u8>, zvariant::Error>)
    ensures
        match r {
            Ok(bytes) => gvariant_entry(name@, rest@) == Some(bytes@),
            Err(_) => gvariant_entry(name@, rest@) is None,
        },
{
    let context = zvariant::serialized::Context::new_gvariant(zvariant::Endian::Big, 0);
    zvariant::to_bytes(context, &(name, rest)).map(|data| data.to_vec())
}

/// Calls `zvariant::serialized::Data::deserialize` for the pair of a name
/// and a byte string, on GVariant in big-endian order at offset zero.
/// What is read depends on the bytes alone; the codec may refuse them.
#[verifier::external_body]
pub(crate) fn decode_entry(bytes: &[u8]) -> (r: Result<(String, Vec<u8>), zvariant::Error>)
    ensures
        match r {
            Ok(pair) => gvariant_entry_parsed(bytes@) == Some((pair.0@, pair.1@)),
            Err(_) => gvariant_entry_parsed(bytes@) is None,
        },
{
    let context = zvariant::serialized::Context::new_gvariant(zvariant::Endian::Big, 0);
    zvariant::serialized::Data::new(bytes, context).deserialize().map(|read| read.0)
}

/// The canonical encoding of directory metadata with these fields, where
/// the codec can encode them.
pub uninterp spec fn gvariant_dirmeta(
    uid: u32,
    gid: u32,
    mode: u32,
    xattrs: Seq<(Seq<u8>, Seq<u8>)>,
) -> Option<Seq<u8>>;

/// The canonical encoding of a file header with these fields, where the
/// codec can encode them.
pub uninterp spec fn gvariant_file_header(
    uid: u32,
    gid: u32,
    mode: u32,
    rdev: u32,
    symlink_target: Seq<char>,
    xattrs: Seq<(Seq<u8>, Seq<u8>)>,
) -> Option<Seq<u8>>;

/// The canonical encoding of a directory with these file entries (name and
/// checksum) and directory entries (name, contents checksum and metadata
/// checksum), in this order, where the codec can encode them.
pub uninterp spec fn gvariant_dirtree(
    files: Seq<(Seq<char>, Seq<u8>)>,
    dirs: Seq<(Seq<char>, Seq<u8>, Seq<u8>)>,
) -> Option<Seq<u8>>;

/// The file and directory entries that the codec reads from `bytes` as a
/// directory, where it accepts them.
pub uninterp spec fn gvariant_dirtree_parsed(bytes: Seq<u8>) -> Option<
    (Seq<(Seq<char>, Seq<u8>)>, Seq<(Seq<char>, Seq<u8>, Seq<u8>)>),
>;

/// The fields that the codec reads from `bytes` as directory metadata,
/// where it accepts them.
pub uninterp spec fn gvariant_dirmeta_parsed(bytes: Seq<u8>) -> Option<
    (u32, u32, u32, Seq<(Seq<u8>, Seq<u8>)>),
>;

/// The file entries of a directory as the codec takes them.
pub open spec fn file_entries_of(files: Seq<(String, Checksum)>) -> Seq<(Seq<char>, Seq<u8>)> {
    Seq::new(files.len(), |i: int| (files[i].0@, files[i].1@))
}

/// The directory entries of a directory as the codec takes them.
pub open spec fn dir_entries_of(dirs: Seq<(String, DirTreeChecksums)>) -> Seq<
    (Seq<char>, Seq<u8>, Seq<u8>),
> {
    Seq::new(dirs.len(), |i: int| (dirs[i].0@, dirs[i].1.checksum@, dirs[i].1.meta_checksum@))
}

/// Calls `zvariant::to_bytes` on the tuple of the fields, for GVariant in
/// big-endian order at offset zero. The bytes depend on the fields alone;
/// the codec may refuse them.
#[verifier::external_body]
pub(crate) fn encode_dirmeta(uid: u32, gid: u32, mode: u32, xattrs: &Vec<(Vec<u8>, Vec<u8>)>) -> (r:
    Result<Vec<u8>, zvariant::Error>)
    ensures
        match r {
            Ok(bytes) => gvariant_dirmeta(uid, gid, mode, xattrs.deep_view()) == Some(bytes@),
            Err(_) => gvariant_dirmeta(uid, gid, mode, xattrs.deep_view()) is None,
        },
{
    let context = zvariant::serialized::Context::new_gvariant(zvariant::Endian::Big, 0);
    zvariant::to_bytes(context, &(uid, gid, mode, xattrs)).map(|data| data.to_vec())
}

/// Calls `zvariant::to_bytes` on the tuple of the fields, for GVariant in
/// big-endian order at offset zero. The bytes depend on the fields alone;
/// the codec may refuse them.
#[verifier::external_body]
pub(crate) fn encode_file_header(
    uid: u32,
    gid: u32,
    mode: u32,
    rdev: u32,
    symlink_target: &str,
    xattrs: &Vec<(Vec<u8>, Vec<u8>)>,
) -> (r: Result<Vec<u8>, zvariant::Error>)
    ensures
        match r {
            Ok(bytes) => gvariant_file_header(
                uid,
                gid,
                mode,
                rdev,
                symlink_target@,
                xattrs.deep_view(),
            ) == Some(bytes@),
            Err(_) => gvariant_file_header(
                uid,
                gid,
                mode,
                rdev,
                symlink_target@,
                xattrs.deep_view(),
            ) is None,
        },
{
    let context = zvariant::serialized::Context::new_gvariant(zvariant::Endian::Big, 0);
    let value = (uid, gid, mode, rdev, symlink_target, xattrs);
    zvariant::to_bytes(context, &value).map(|data| data.to_vec())
}

/// Calls `zvariant::to_bytes` on the pair of the two entry lists, for
/// GVariant in big-endian order at offset zero. The bytes depend on the
/// entries and their order alone; the codec may refuse them.
#[verifier::external_body]
pub(crate) fn encode_dirtree(files: &[(String, Checksum)], dirs: &[(String, DirTreeChecksums)]) -> (r:
    Result<Vec<u8>, zvariant::Error>)
    ensures
        match r {
            Ok(bytes) => gvariant_dirtree(file_entries_of(files@), dir_entries_of(dirs@)) == Some(
                bytes@,
            ),
            Err(_) => gvariant_dirtree(file_entries_of(files@), dir_entries_of(dirs@)) is None,
        },
{
    let context = zvariant::serialized::Context::new_gvariant(zvariant::Endian::Big, 0);
    let files: Vec<(&str, &[u8])> = files.iter().map(|e| (e.0.as_str(), e.1.as_ref())).collect();
    let dirs: Vec<(&str, &[u8], &[u8])> = dirs.iter().map(
        |e| (e.0.as_str(), e.1.checksum.as_ref(), e.1.meta_checksum.as_ref()),
    ).collect();
    zvariant::to_bytes(context, &(files, dirs)).map(|data| data.to_vec())
}

/// Calls `zvariant::serialized::Data::deserialize` for the pair of the two
/// entry lists of a directory, on GVariant in big-endian order at offset
/// zero. What is read depends on the bytes alone; the codec may refuse
/// them.
#[verifier::external_body]
pub(crate) fn decode_dirtree(bytes: &[u8]) -> (r: Result<
    (Vec<(String, Vec<u8>)>, Vec<(String, Vec<u8>, Vec<u8>)>),
    zvariant::Error,
>)
    ensures
        match r {
            Ok(lists) => gvariant_dirtree_parsed(bytes@) == Some(
                (lists.0.deep_view(), lists.1.deep_view()),
            ),
            Err(_) => gvariant_dirtree_parsed(bytes@) is None,
        },
{
    let context = zvariant::serialized::Context::new_gvariant(zvariant::Endian::Big, 0);
    zvariant::serialized::Data::new(bytes, context).deserialize().map(|read| read.0)
}

/// Calls `zvariant::to_bytes` on the tuple of the fields of a commit, for
/// GVariant in big-endian order at offset zero, with the metadata as a
/// list of byte strings. The bytes depend on the fields alone; the codec
/// may refuse them.
#[verifier::external_body]
pub(crate) fn encode_commit(
    metadata: &Vec<Vec<u8>>,
    parent: &[u8],
    related_objects: &Vec<RelatedObject>,
    text: (&str, &str),
    timestamp: u64,
    roots: (&[u8], &[u8]),
) -> (r: Result<Vec<u8>, zvariant::Error>)
    ensures
        match r {
            Ok(bytes) => gvariant_commit(
                byte_strings(metadata@),
                parent@,
                related_entries_of(related_objects@),
                text.0@,
                text.1@,
                timestamp,
                roots.0@,
                roots.1@,
            ) == Some(bytes@),
            Err(_) => gvariant_commit(
                byte_strings(metadata@),
                parent@,
                related_entries_of(related_objects@),
                text.0@,
                text.1@,
                timestamp,
                roots.0@,
                roots.1@,
            ) is None,
        },
{
    let context = zvariant::serialized::Context::new_gvariant(zvariant::Endian::Big, 0);
    let related: Vec<(&str, &[u8])> = related_objects.iter().map(
        |o| (o.name.as_str(), o.checksum.as_ref()),
    ).collect();
    let value = (metadata, parent, related, text.0, text.1, timestamp, roots.0, roots.1);
    zvariant::to_bytes(context, &value).map(|data| data.to_vec())
}

/// Calls `zvariant::serialized::Data::deserialize` for the tuple of the
/// fields of a commit, on GVariant in big-endian order at offset zero,
/// with the metadata as a list of byte strings. What is read depends on
/// the bytes alone; the codec may refuse them.
#[verifier::external_body]
pub(crate) fn decode_commit(bytes: &[u8]) -> (r: Result<RawCommit, zvariant::Error>)
    ensures
        match r {
            Ok(raw) => gvariant_commit_parsed(bytes@) == Some(raw@),
            Err(_) => gvariant_commit_parsed(bytes@) is None,
        },
{
    let context = zvariant::serialized::Context::new_gvariant(zvariant::Endian::Big, 0);
    let data = zvariant::serialized::Data::new(bytes, context);
    let read: (Vec<Vec<u8>>, Vec<u8>, Vec<(String, Vec<u8>)>, String, String, u64, Vec<u8>, Vec<u8>) = data.deserialize()?.0;
    Ok(RawCommit { metadata: read.0, parent: read.1, related_objects: read.2, subject: read.3, body: read.4, timestamp: read.5, roots: (read.6, read.7) })
}

/// Calls `zvariant::serialized::Data::deserialize` for the tuple of the
/// fields of directory metadata, on GVariant in big-endian order at offset
/// zero. What is read depends on the bytes alone; the codec may refuse
/// them.
#[verifier::external_body]
pub(crate) fn decode_dirmeta(bytes: &[u8]) -> (r: Result<
    (u32, u32, u32, Vec<(Vec<u8>, Vec<u8>)>),
    zvariant::Error,
>)
    ensures
        match r {
            Ok(fields) => gvariant_dirmeta_parsed(bytes@) == Some(
                (fields.0, fields.1, fields.2, fields.3.deep_view()),
            ),
            Err(_) => gvariant_dirmeta_parsed(bytes@) is None,
        },
{
    let context = zvariant::serialized::Context::new_gvariant(zvariant::Endian::Big, 0);
    zvariant::serialized::Data::new(bytes, context).deserialize().map(|read| read.0)
}

} // verus!
