//! The structured objects of a repository: what they hold, which kind of
//! object each is, and how each is encoded.

use crate::checksum::Checksum;
use crate::codec::decode_commit;
use crate::codec::decode_plain;
use crate::codec::encode_plain;
use crate::codec::gvariant_plain;
use crate::codec::gvariant_plain_parsed;
use crate::framing::byte_strings;
use crate::framing::elements_of;
use crate::framing::entries_read_back;
use crate::framing::elements_parsed;
use crate::framing::entries_view;
use crate::framing::frame_entries;
use crate::framing::is_plain_variant;
use crate::framing::plain_variant;
use crate::framing::unframe_elements;
use crate::framing::Unframed;
use crate::codec::decode_dirmeta;
use crate::codec::encode_commit;
use crate::codec::gvariant_commit;
use crate::codec::gvariant_commit_parsed;
use crate::error::RepoErrorKind;
use crate::codec::related_entries_of;
use crate::codec::decode_dirtree;
use crate::codec::dir_entries_of;
use crate::codec::encode_dirmeta;
use crate::codec::encode_dirtree;
use crate::codec::encode_file_header;
use crate::codec::file_entries_of;
use crate::codec::gvariant_dirmeta;
use crate::codec::gvariant_dirmeta_parsed;
use crate::codec::gvariant_dirtree;
use crate::codec::gvariant_dirtree_parsed;
use crate::codec::gvariant_file_header;
use crate::digest::sha256;
use crate::digest::DIGEST_LEN;
use crate::error::RepoError;
use crate::name_map::NameMap;
use crate::object::ObjectType;
use vstd::prelude::*;

verus! {

/// A structured object: one that knows which kind of object it is.
pub trait Object {
    /// The kind of object that values of this type are stored as.
    spec fn spec_object_type() -> ObjectType;

    /// The kind of object that values of this type are stored as.
    fn object_type() -> (t: ObjectType)
        ensures
            t == Self::spec_object_type(),
    ;
}

/// A value with a canonical encoding.
pub trait Encode {
    /// The canonical encoding of the value, where it has one.
    spec fn encoding(&self) -> Option<Seq<u8>>;

    /// The canonical encoding of the value. It fails where the codec
    /// refuses the value, and only then.
    fn encode_canonical(&self) -> (r: Result<Vec<u8>, RepoError>)
        ensures
            match r {
                Ok(bytes) => self.encoding() == Some(bytes@),
                Err(e) => self.encoding() is None && e.source is Variant,
            },
    ;
}

/// The checksum of a value: the digest of its canonical encoding.
pub open spec fn checksum_of<T: Encode>(value: &T) -> Option<Seq<u8>> {
    match value.encoding() {
        Some(bytes) => Some(sha256(bytes)),
        None => None,
    }
}

/// The checksum of a value. It fails where the value cannot be encoded, and
/// only then.
pub fn gv_hash<T: Encode>(value: &T) -> (r: Result<Checksum, RepoError>)
    ensures
        match r {
            Ok(c) => checksum_of(value) == Some(c@) && c@.len() == DIGEST_LEN,
            Err(e) => checksum_of(value) is None && e.source is Variant,
        },
{
    match value.encode_canonical() {
        Ok(bytes) => Ok(Checksum::hash(bytes.as_slice())),
        Err(e) => Err(e),
    }
}

/// The checksum of a value together with its canonical encoding, made in
/// one pass. It fails where the value cannot be encoded, and only then.
pub fn gv_hash_and_val<T: Encode>(value: &T) -> (r: Result<(Checksum, Vec<u8>), RepoError>)
    ensures
        match r {
            Ok(pair) => value.encoding() == Some(pair.1@) && pair.0@ == sha256(pair.1@) && pair.0@.len()
                == DIGEST_LEN,
            Err(e) => value.encoding() is None && e.source is Variant,
        },
{
    match value.encode_canonical() {
        Ok(bytes) => {
            let checksum = Checksum::hash(bytes.as_slice());
            Ok((checksum, bytes))
        },
        Err(e) => Err(e),
    }
}

/// The checksum of a value together with its canonical encoding; see
/// `gv_hash_and_val`.
pub fn hash_and_encode<T: Encode>(value: &T) -> (r: Result<(Checksum, Vec<u8>), RepoError>)
    ensures
        match r {
            Ok(pair) => value.encoding() == Some(pair.1@) && pair.0@ == sha256(pair.1@) && pair.0@.len()
                == DIGEST_LEN,
            Err(e) => value.encoding() is None && e.source is Variant,
        },
{
    gv_hash_and_val(value)
}

/// Equal encodings give equal checksums: encoding a value again, or
/// encoding a value that reads the same, names the same object.
pub proof fn lemma_checksum_deterministic<T: Encode>(a: &T, b: &T)
    requires
        a.encoding() == b.encoding(),
    ensures
        checksum_of(a) == checksum_of(b),
{
}

/// The permissions of a directory, in canonical form.
#[derive(Debug)]
pub struct DirMeta {
    pub uid: u32,
    pub gid: u32,
    pub mode: u32,
    pub xattrs: Vec<(Vec<u8>, Vec<u8>)>,
}

impl DirMeta {
    /// The type signature of the encoding of directory metadata.
    pub fn signature() -> (s: &'static str)
        ensures
            s@ == "(uuua(ayay))"@,
    {
        "(uuua(ayay))"
    }

    /// Reads directory metadata from its canonical encoding.
    pub fn decode(bytes: &[u8]) -> (r: Result<DirMeta, RepoError>)
        ensures
            match r {
                Ok(meta) => gvariant_dirmeta_parsed(bytes@) == Some(
                    (meta.uid, meta.gid, meta.mode, meta.xattrs.deep_view()),
                ),
                Err(e) => gvariant_dirmeta_parsed(bytes@) is None && e.source is Variant,
            },
    {
        match decode_dirmeta(bytes) {
            Ok(fields) => Ok(DirMeta { uid: fields.0, gid: fields.1, mode: fields.2, xattrs: fields.3 }),
            Err(e) => Err(RepoError::from(e)),
        }
    }
}

impl Default for DirMeta {
    /// A directory owned by root that its owner may change and all may
    /// read and enter.
    fn default() -> (meta: DirMeta)
        ensures
            meta.uid == 0,
            meta.gid == 0,
            meta.mode == 0o40755,
            meta.xattrs@ == Seq::<(Vec<u8>, Vec<u8>)>::empty(),
    {
        DirMeta { uid: 0, gid: 0, mode: 0o40755, xattrs: Vec::new() }
    }
}

impl Object for DirMeta {
    open spec fn spec_object_type() -> ObjectType {
        ObjectType::DirMeta
    }

    fn object_type() -> (t: ObjectType) {
        ObjectType::DirMeta
    }
}

impl Encode for DirMeta {
    open spec fn encoding(&self) -> Option<Seq<u8>> {
        gvariant_dirmeta(self.uid, self.gid, self.mode, self.xattrs.deep_view())
    }

    fn encode_canonical(&self) -> (r: Result<Vec<u8>, RepoError>) {
        match encode_dirmeta(self.uid, self.gid, self.mode, &self.xattrs) {
            Ok(bytes) => Ok(bytes),
            Err(e) => Err(RepoError::from(e)),
        }
    }
}

/// The encoding of the default directory metadata, which is what every
/// finalized directory is given.
pub open spec fn default_dirmeta_encoding() -> Option<Seq<u8>> {
    gvariant_dirmeta(0, 0, 0o40755, Seq::<(Seq<u8>, Seq<u8>)>::empty())
}

/// The header of a file object. Its encoding goes before the file's
/// content when the file is hashed, so that two files with the same bytes
/// and different permissions are different objects.
#[derive(Debug)]
pub struct FileHeader {
    pub uid: u32,
    pub gid: u32,
    pub mode: u32,
    /// Always zero.
    pub rdev: u32,
    pub symlink_target: String,
    pub xattrs: Vec<(Vec<u8>, Vec<u8>)>,
}

/// The bits of a mode that a header keeps: those of the file type and the
/// nine permission bits.
pub open spec fn canonical_mode_of(mode: u32) -> u32 {
    mode & 0o170777
}

/// Reduces a mode to the bits of the file type and the nine permission
/// bits.
pub fn canonical_mode(mode: u32) -> (r: u32)
    ensures
        r == canonical_mode_of(mode),
{
    mode & 0o170777
}

impl FileHeader {
    /// The type signature of the encoding of a file header.
    pub fn signature() -> (s: &'static str)
        ensures
            s@ == "(uuuusa(ayay))"@,
    {
        "(uuuusa(ayay))"
    }

    /// The canonical header of a file with the given permission bits:
    /// owned by root, no device, no link target, no extended attributes.
    pub fn cannonical_from_file(permissions: u32) -> (header: FileHeader)
        ensures
            header.uid == 0,
            header.gid == 0,
            header.mode == canonical_mode_of(permissions),
            header.rdev == 0,
            header.symlink_target@ == Seq::<char>::empty(),
            header.xattrs@ == Seq::<(Vec<u8>, Vec<u8>)>::empty(),
    {
        FileHeader {
            uid: 0,
            gid: 0,
            mode: canonical_mode(permissions),
            rdev: 0,
            symlink_target: String::new(),
            xattrs: Vec::new(),
        }
    }
}

impl Default for FileHeader {
    /// A regular file owned by root that its owner may change and all may
    /// read.
    fn default() -> (header: FileHeader)
        ensures
            header.uid == 0,
            header.gid == 0,
            header.mode == 0o100644,
            header.rdev == 0,
            header.symlink_target@ == Seq::<char>::empty(),
            header.xattrs@ == Seq::<(Vec<u8>, Vec<u8>)>::empty(),
    {
        FileHeader {
            uid: 0,
            gid: 0,
            mode: 0o100644,
            rdev: 0,
            symlink_target: String::new(),
            xattrs: Vec::new(),
        }
    }
}

impl Encode for FileHeader {
    open spec fn encoding(&self) -> Option<Seq<u8>> {
        gvariant_file_header(
            self.uid,
            self.gid,
            self.mode,
            self.rdev,
            self.symlink_target@,
            self.xattrs.deep_view(),
        )
    }

    fn encode_canonical(&self) -> (r: Result<Vec<u8>, RepoError>) {
        match encode_file_header(
            self.uid,
            self.gid,
            self.mode,
            self.rdev,
            self.symlink_target.as_str(),
            &self.xattrs,
        ) {
            Ok(bytes) => Ok(bytes),
            Err(e) => Err(RepoError::from(e)),
        }
    }
}

/// The encoding of the default file header, which is what a file's content
/// is hashed behind.
pub open spec fn default_file_header_encoding() -> Option<Seq<u8>> {
    gvariant_file_header(0, 0, 0o100644, 0, Seq::<char>::empty(), Seq::<(Seq<u8>, Seq<u8>)>::empty())
}

/// The two checksums by which a directory is referred to: that of its
/// contents and that of its metadata.
#[derive(Debug)]
pub struct DirTreeChecksums {
    pub checksum: Checksum,
    pub meta_checksum: Checksum,
}

impl Clone for DirTreeChecksums {
    fn clone(&self) -> (c: DirTreeChecksums)
        ensures
            c.checksum@ == self.checksum@,
            c.meta_checksum@ == self.meta_checksum@,
    {
        DirTreeChecksums {
            checksum: self.checksum.clone(),
            meta_checksum: self.meta_checksum.clone(),
        }
    }
}

impl DirTreeChecksums {
    /// The checksums of a directory with the given contents and metadata.
    /// It fails where one of the two cannot be encoded, and only then.
    pub fn new(tree: &DirTree, meta: &DirMeta) -> (r: Result<DirTreeChecksums, RepoError>)
        ensures
            match r {
                Ok(c) => {
                    &&& checksum_of(tree) == Some(c.checksum@)
                    &&& checksum_of(meta) == Some(c.meta_checksum@)
                    &&& c.checksum@.len() == DIGEST_LEN
                    &&& c.meta_checksum@.len() == DIGEST_LEN
                },
                Err(e) => (checksum_of(tree) is None || checksum_of(meta) is None) && e.source
                    is Variant,
            },
    {
        let checksum = match gv_hash(tree) {
            Ok(c) => c,
            Err(e) => {
                return Err(e);
            },
        };
        let meta_checksum = match gv_hash(meta) {
            Ok(c) => c,
            Err(e) => {
                return Err(e);
            },
        };
        Ok(DirTreeChecksums { checksum, meta_checksum })
    }
}

/// One level of a directory: for each file the checksum of its file
/// object, for each subdirectory the checksums of its own contents and
/// metadata. Entries are held by name, in the order of names.
#[derive(Debug)]
pub struct DirTree {
    pub files: NameMap<Checksum>,
    pub dirs: NameMap<DirTreeChecksums>,
}

/// The map that a list of entries makes when they are entered one after
/// the other: of two entries with one name the later one stays.
pub open spec fn entered<V>(entries: Seq<(Seq<char>, V)>) -> Map<Seq<char>, V>
    decreases entries.len(),
{
    if entries.len() == 0 {
        Map::empty()
    } else {
        entered(entries.drop_last()).insert(entries.last().0, entries.last().1)
    }
}

/// The file entries that the codec reads from the encoding of a
/// directory: name and checksum.
pub open spec fn parsed_file_entries(bytes: Seq<u8>) -> Seq<(Seq<char>, Seq<u8>)> {
    let lists = gvariant_dirtree_parsed(bytes)->0;
    lists.0
}

/// The directory entries that the codec reads from the encoding of a
/// directory: name, and the pair of contents and metadata checksum.
pub open spec fn parsed_dir_entries(bytes: Seq<u8>) -> Seq<(Seq<char>, (Seq<u8>, Seq<u8>))> {
    let lists = gvariant_dirtree_parsed(bytes)->0;
    lists.1.map_values(|e: (Seq<char>, Seq<u8>, Seq<u8>)| (e.0, (e.1, e.2)))
}

impl DirTree {
    /// The type signature of the encoding of a directory.
    pub fn signature() -> (s: &'static str)
        ensures
            s@ == "(a(say)a(sayay))"@,
    {
        "(a(say)a(sayay))"
    }

    /// The invariant: both maps hold their entries in the order of names.
    pub open spec fn wf(&self) -> bool {
        self.files.wf() && self.dirs.wf()
    }

    /// For each file its name and checksum, in the order of names.
    pub open spec fn file_entries(&self) -> Seq<(Seq<char>, Seq<u8>)> {
        file_entries_of(self.files.entries())
    }

    /// For each subdirectory its name and two checksums, in the order of
    /// names.
    pub open spec fn dir_entries(&self) -> Seq<(Seq<char>, Seq<u8>, Seq<u8>)> {
        dir_entries_of(self.dirs.entries())
    }

    /// The checksum of each file, by name.
    pub open spec fn file_map(&self) -> Map<Seq<char>, Seq<u8>> {
        self.files.map().map_values(|c: Checksum| c@)
    }

    /// The two checksums of each subdirectory, by name.
    pub open spec fn dir_map(&self) -> Map<Seq<char>, (Seq<u8>, Seq<u8>)> {
        self.dirs.map().map_values(|c: DirTreeChecksums| (c.checksum@, c.meta_checksum@))
    }

    /// A directory without entries.
    pub fn new() -> (tree: DirTree)
        ensures
            tree.wf(),
            tree.files.entries().len() == 0,
            tree.dirs.entries().len() == 0,
    {
        DirTree { files: NameMap::new(), dirs: NameMap::new() }
    }

    /// Reads a directory from its canonical encoding. Entries are entered
    /// in the order in which they are read: of two with one name the later
    /// one stays.
    pub fn decode(bytes: &[u8]) -> (r: Result<DirTree, RepoError>)
        ensures
            match r {
                Ok(tree) => {
                    &&& gvariant_dirtree_parsed(bytes@) is Some
                    &&& tree.wf()
                    &&& tree.file_map() == entered(parsed_file_entries(bytes@))
                    &&& tree.dir_map() == entered(parsed_dir_entries(bytes@))
                },
                Err(e) => gvariant_dirtree_parsed(bytes@) is None && e.source is Variant,
            },
    {
        let lists = match decode_dirtree(bytes) {
            Ok(lists) => lists,
            Err(e) => {
                return Err(RepoError::from(e));
            },
        };
        let (file_list, dir_list) = lists;
        let ghost parsed_files = file_list.deep_view();
        let ghost parsed_dirs = dir_list.deep_view().map_values(
            |e: (Seq<char>, Seq<u8>, Seq<u8>)| (e.0, (e.1, e.2)),
        );
        let mut tree = DirTree::new();
        proof {
            assert(tree.file_map() =~= entered(parsed_files.take(0)));
            assert(tree.dir_map() =~= entered(parsed_dirs.take(0)));
        }
        let mut i: usize = 0;
        while i < file_list.len()
            invariant
                i <= file_list.len(),
                parsed_files == file_list.deep_view(),
                tree.wf(),
                tree.file_map() == entered(parsed_files.take(i as int)),
                tree.dirs.entries().len() == 0,
                tree.dir_map() == entered(parsed_dirs.take(0)),
            decreases file_list.len() - i,
        {
            let name = file_list[i].0.clone();
            let checksum = Checksum::from(file_list[i].1.clone());
            let ghost before = tree.files;
            tree.files.insert(name, checksum);
            proof {
                let next = parsed_files.take(i + 1);
                assert(next.drop_last() =~= parsed_files.take(i as int));
                assert(next.last() == parsed_files[i as int]);
                assert(parsed_files[i as int] == (name@, checksum@));
                assert(tree.file_map() =~= before.map().map_values(|c: Checksum| c@).insert(
                    name@,
                    checksum@,
                ));
            }
            i += 1;
        }
        let mut j: usize = 0;
        while j < dir_list.len()
            invariant
                j <= dir_list.len(),
                i == file_list.len(),
                parsed_files == file_list.deep_view(),
                parsed_dirs == dir_list.deep_view().map_values(
                    |e: (Seq<char>, Seq<u8>, Seq<u8>)| (e.0, (e.1, e.2)),
                ),
                tree.wf(),
                tree.file_map() == entered(parsed_files.take(i as int)),
                tree.dir_map() == entered(parsed_dirs.take(j as int)),
            decreases dir_list.len() - j,
        {
            let name = dir_list[j].0.clone();
            let checksums = DirTreeChecksums {
                checksum: Checksum::from(dir_list[j].1.clone()),
                meta_checksum: Checksum::from(dir_list[j].2.clone()),
            };
            let ghost before = tree.dirs;
            tree.dirs.insert(name, checksums);
            proof {
                let next = parsed_dirs.take(j + 1);
                assert(next.drop_last() =~= parsed_dirs.take(j as int));
                assert(next.last() == parsed_dirs[j as int]);
                assert(parsed_dirs[j as int] == (
                    name@,
                    (checksums.checksum@, checksums.meta_checksum@),
                ));
                assert(tree.dir_map() =~= before.map().map_values(
                    |c: DirTreeChecksums| (c.checksum@, c.meta_checksum@),
                ).insert(name@, (checksums.checksum@, checksums.meta_checksum@)));
            }
            j += 1;
        }
        proof {
            assert(parsed_files.take(i as int) =~= parsed_files);
            assert(parsed_dirs.take(j as int) =~= parsed_dirs);
        }
        Ok(tree)
    }
}

/// A file of a directory: its name and the checksum of its file object.
#[derive(Debug)]
pub struct DirTreeFile {
    pub name: String,
    pub checksum: Checksum,
}

/// A subdirectory of a directory: its name and the checksums of its
/// contents and of its metadata.
#[derive(Debug)]
pub struct DirTreeDir {
    pub name: String,
    pub checksum: Vec<u8>,
    pub meta_checksum: Vec<u8>,
}

/// A file of a directory, by reference.
#[derive(Debug)]
pub struct DirTreeFileRef<'a> {
    pub name: &'a str,
    pub checksum: &'a [u8],
}

/// A subdirectory of a directory, by reference.
#[derive(Debug)]
pub struct DirTreeDirRef<'a> {
    pub name: &'a str,
    pub checksum: &'a [u8],
    pub meta_checksum: &'a [u8],
}

/// The entries of a directory, by reference, in the order of names.
#[derive(Debug)]
pub struct DirTreeRef<'a> {
    pub files: Vec<DirTreeFileRef<'a>>,
    pub dirs: Vec<DirTreeDirRef<'a>>,
}

impl DirTreeFile {
    /// The type signature of the encoding of a file entry.
    pub fn signature() -> (s: &'static str)
        ensures
            s@ == "(say)"@,
    {
        "(say)"
    }
}

impl<'a> DirTreeFileRef<'a> {
    /// The type signature of the encoding of a file entry.
    pub fn signature() -> (s: &'static str)
        ensures
            s@ == "(say)"@,
    {
        "(say)"
    }
}

impl DirTreeDir {
    /// The type signature of the encoding of a directory entry.
    pub fn signature() -> (s: &'static str)
        ensures
            s@ == "(sayay)"@,
    {
        "(sayay)"
    }
}

impl<'a> DirTreeDirRef<'a> {
    /// The type signature of the encoding of a directory entry.
    pub fn signature() -> (s: &'static str)
        ensures
            s@ == "(sayay)"@,
    {
        "(sayay)"
    }
}

impl<'a> DirTreeRef<'a> {
    /// The type signature of the encoding of a directory.
    pub fn signature() -> (s: &'static str)
        ensures
            s@ == "(a(say)a(sayay))"@,
    {
        "(a(say)a(sayay))"
    }

    /// For each file its name and checksum, in the order held.
    pub open spec fn file_entries(&self) -> Seq<(Seq<char>, Seq<u8>)> {
        Seq::new(self.files@.len(), |i: int| (self.files@[i].name@, self.files@[i].checksum@))
    }

    /// For each subdirectory its name and two checksums, in the order
    /// held.
    pub open spec fn dir_entries(&self) -> Seq<(Seq<char>, Seq<u8>, Seq<u8>)> {
        Seq::new(
            self.dirs@.len(),
            |i: int| (self.dirs@[i].name@, self.dirs@[i].checksum@, self.dirs@[i].meta_checksum@),
        )
    }
}

impl DirTree {
    /// The entries of the directory, by reference, in the order of names.
    pub fn as_ref(&self) -> (r: DirTreeRef<'_>)
        ensures
            r.file_entries() == self.file_entries(),
            r.dir_entries() == self.dir_entries(),
    {
        let mut files: Vec<DirTreeFileRef<'_>> = Vec::new();
        let mut i: usize = 0;
        while i < self.files.len()
            invariant
                i <= self.files.entries().len(),
                files@.len() == i,
                forall|k: int|
                    0 <= k < i ==> (#[trigger] files@[k]).name@ == self.files.names()[k] && files@[k].checksum@
                        == self.files.values()[k]@,
            decreases self.files.entries().len() - i,
        {
            files.push(
                DirTreeFileRef {
                    name: self.files.name_at(i).as_str(),
                    checksum: self.files.value_at(i).as_ref(),
                },
            );
            i += 1;
        }
        let mut dirs: Vec<DirTreeDirRef<'_>> = Vec::new();
        let mut j: usize = 0;
        while j < self.dirs.len()
            invariant
                j <= self.dirs.entries().len(),
                dirs@.len() == j,
                forall|k: int|
                    0 <= k < j ==> (#[trigger] dirs@[k]).name@ == self.dirs.names()[k] && dirs@[k].checksum@
                        == self.dirs.values()[k].checksum@ && dirs@[k].meta_checksum@
                        == self.dirs.values()[k].meta_checksum@,
            decreases self.dirs.entries().len() - j,
        {
            dirs.push(
                DirTreeDirRef {
                    name: self.dirs.name_at(j).as_str(),
                    checksum: self.dirs.value_at(j).checksum.as_ref(),
                    meta_checksum: self.dirs.value_at(j).meta_checksum.as_ref(),
                },
            );
            j += 1;
        }
        let r = DirTreeRef { files, dirs };
        proof {
            assert(r.file_entries() =~= self.file_entries()) by {
                assert forall|k: int| 0 <= k < r.files@.len() implies r.file_entries()[k]
                    == self.file_entries()[k] by {
                    assert(r.files@[k].name@ == self.files.names()[k]);
                }
            }
            assert(r.dir_entries() =~= self.dir_entries()) by {
                assert forall|k: int| 0 <= k < r.dirs@.len() implies r.dir_entries()[k]
                    == self.dir_entries()[k] by {
                    assert(r.dirs@[k].name@ == self.dirs.names()[k]);
                }
            }
        }
        r
    }
}

impl Object for DirTree {
    open spec fn spec_object_type() -> ObjectType {
        ObjectType::DirTree
    }

    fn object_type() -> (t: ObjectType) {
        ObjectType::DirTree
    }
}

impl Encode for DirTree {
    open spec fn encoding(&self) -> Option<Seq<u8>> {
        gvariant_dirtree(self.file_entries(), self.dir_entries())
    }

    fn encode_canonical(&self) -> (r: Result<Vec<u8>, RepoError>) {
        match encode_dirtree(self.files.as_slice(), self.dirs.as_slice()) {
            Ok(bytes) => Ok(bytes),
            Err(e) => Err(RepoError::from(e)),
        }
    }
}

/// A plain value of a commit's metadata: a truth value, a number of 32 or
/// 64 bits, a string or a byte string.
#[derive(Debug)]
pub enum MetadataValue {
    Bool(bool),
    U32(u32),
    U64(u64),
    I64(i64),
    Str(String),
    Bytes(Vec<u8>),
}

/// What a plain value of a commit's metadata holds.
pub enum MetadataValueView {
    Bool(bool),
    U32(u32),
    U64(u64),
    I64(i64),
    Str(Seq<char>),
    Bytes(Seq<u8>),
}

impl View for MetadataValue {
    type V = MetadataValueView;

    open spec fn view(&self) -> MetadataValueView {
        match self {
            MetadataValue::Bool(b) => MetadataValueView::Bool(*b),
            MetadataValue::U32(n) => MetadataValueView::U32(*n),
            MetadataValue::U64(n) => MetadataValueView::U64(*n),
            MetadataValue::I64(n) => MetadataValueView::I64(*n),
            MetadataValue::Str(s) => MetadataValueView::Str(s@),
            MetadataValue::Bytes(b) => MetadataValueView::Bytes(b@),
        }
    }
}

/// An object that a commit refers to by name.
#[derive(Debug)]
pub struct RelatedObject {
    pub name: String,
    pub checksum: Checksum,
}

/// The fields of a commit as the codec reads them, with the metadata as
/// a list of byte strings, one for each entry.
#[derive(Debug)]
pub struct RawCommit {
    pub metadata: Vec<Vec<u8>>,
    pub parent: Vec<u8>,
    pub related_objects: Vec<(String, Vec<u8>)>,
    pub subject: String,
    pub body: String,
    pub timestamp: u64,
    pub roots: (Vec<u8>, Vec<u8>),
}

impl View for RawCommit {
    type V = (
        Seq<Seq<u8>>,
        Seq<u8>,
        Seq<(Seq<char>, Seq<u8>)>,
        Seq<char>,
        Seq<char>,
        u64,
        Seq<u8>,
        Seq<u8>,
    );

    open spec fn view(&self) -> Self::V {
        (
            byte_strings(self.metadata@),
            self.parent@,
            self.related_objects.deep_view(),
            self.subject@,
            self.body@,
            self.timestamp,
            self.roots.0@,
            self.roots.1@,
        )
    }
}

/// What a commit is read as: the entries of its metadata in the order in
/// which they stand, each a name and the bytes that stand for its value,
/// and its other fields.
pub struct CommitFields {
    pub metadata: Seq<(Seq<char>, Seq<u8>)>,
    pub parent: Seq<u8>,
    pub related_objects: Seq<(Seq<char>, Seq<u8>)>,
    pub subject: Seq<char>,
    pub body: Seq<char>,
    pub timestamp: u64,
    pub root_dirtree_checksum: Seq<u8>,
    pub root_dirmeta_checksum: Seq<u8>,
}

/// What `bytes` are read as, as a commit: the fields that the codec
/// reads, with the entries of the metadata taken from the byte strings
/// that it gives for them. Where that fails, it is said whether the codec
/// refused or an entry was not padded as entries are.
pub open spec fn commit_parsed(bytes: Seq<u8>) -> Result<CommitFields, Unframed> {
    match gvariant_commit_parsed(bytes) {
        None => Err(Unframed::Codec),
        Some(fields) => match elements_parsed(fields.0, fields.0.len() as int) {
            Err(e) => Err(e),
            Ok(metadata) => Ok(
                CommitFields {
                    metadata,
                    parent: fields.1,
                    related_objects: fields.2,
                    subject: fields.3,
                    body: fields.4,
                    timestamp: fields.5,
                    root_dirtree_checksum: fields.6,
                    root_dirmeta_checksum: fields.7,
                },
            ),
        },
    }
}

/// A snapshot: the checksums of its root directory and of that
/// directory's metadata, the commit before it, and what is said of it.
/// The metadata holds, under each name, the bytes that stand for a value
/// of any type: its framed content, a zero byte, and its type signature.
/// A plain value is put there by `set_metadata` and read by
/// `plain_metadata`.
#[derive(Debug)]
pub struct Commit {
    pub metadata: NameMap<Vec<u8>>,
    pub parent: Checksum,
    pub related_objects: Vec<RelatedObject>,
    pub subject: String,
    pub body: String,
    pub timestamp: u64,
    pub root_dirtree_checksum: Checksum,
    pub root_dirmeta_checksum: Checksum,
}

impl Commit {
    /// The type signature of the encoding of a commit.
    pub fn signature() -> (s: &'static str)
        ensures
            s@ == "(a{sv}aya(say)sstayay)"@,
    {
        "(a{sv}aya(say)sstayay)"
    }

    /// The metadata by name: for each name the bytes that stand for its
    /// value.
    pub open spec fn metadata_map(&self) -> Map<Seq<char>, Seq<u8>> {
        self.metadata.map().map_values(|v: Vec<u8>| v@)
    }

    /// Whether the commit holds what `fields`, read from an encoding, say:
    /// the metadata entered by name, the later of two values with one name
    /// in place of the earlier, and every other field as it was read.
    pub open spec fn holds(&self, fields: CommitFields) -> bool {
        &&& self.metadata.wf()
        &&& self.metadata_map() == entered(fields.metadata)
        &&& self.parent@ == fields.parent
        &&& related_entries_of(self.related_objects@) == fields.related_objects
        &&& self.subject@ == fields.subject
        &&& self.body@ == fields.body
        &&& self.timestamp == fields.timestamp
        &&& self.root_dirtree_checksum@ == fields.root_dirtree_checksum
        &&& self.root_dirmeta_checksum@ == fields.root_dirmeta_checksum
    }

    /// Puts a plain value under `name` in the metadata, in place of what
    /// stood there. It fails where the codec refuses the value, and only
    /// then; the commit is then left as it was.
    pub fn set_metadata(&mut self, name: String, value: &MetadataValue) -> (r: Result<(), RepoError>)
        requires
            old(self).metadata.wf(),
        ensures
            final(self).metadata.wf(),
            final(self).parent == old(self).parent,
            final(self).related_objects == old(self).related_objects,
            final(self).subject == old(self).subject,
            final(self).body == old(self).body,
            final(self).timestamp == old(self).timestamp,
            final(self).root_dirtree_checksum == old(self).root_dirtree_checksum,
            final(self).root_dirmeta_checksum == old(self).root_dirmeta_checksum,
            match r {
                Ok(()) => gvariant_plain(value@) matches Some(bytes) && final(self).metadata_map()
                    == old(self).metadata_map().insert(name@, bytes),
                Err(e) => {
                    &&& gvariant_plain(value@) is None
                    &&& e.source is Variant
                    &&& final(self).metadata == old(self).metadata
                },
            },
    {
        match encode_plain(value) {
            Ok(bytes) => {
                let ghost before = self.metadata;
                self.metadata.insert(name, bytes);
                proof {
                    assert(self.metadata_map() =~= before.map().map_values(|v: Vec<u8>| v@).insert(
                        name@,
                        bytes@,
                    ));
                }
                Ok(())
            },
            Err(e) => Err(RepoError::from(e)),
        }
    }

    /// The plain value that stands under `name` in the metadata: none
    /// where nothing stands there, where what does is of another type, or
    /// where the codec does not read it as a plain value.
    pub fn plain_metadata(&self, name: &str) -> (r: Option<MetadataValue>)
        requires
            self.metadata.wf(),
        ensures
            match r {
                Some(plain) => {
                    &&& self.metadata_map().contains_key(name@)
                    &&& plain_variant(self.metadata_map()[name@])
                    &&& gvariant_plain_parsed(self.metadata_map()[name@]) == Some(plain@)
                },
                None => {
                    ||| !self.metadata_map().contains_key(name@)
                    ||| !plain_variant(self.metadata_map()[name@])
                    ||| gvariant_plain_parsed(self.metadata_map()[name@]) is None
                },
            },
    {
        match self.metadata.get(name) {
            Some(bytes) => if is_plain_variant(bytes.as_slice()) {
                decode_plain(bytes.as_slice())
            } else {
                None
            },
            None => None,
        }
    }

    /// Reads a commit from its canonical encoding. The metadata is entered
    /// in the order in which it is read: of two values with one name the
    /// later one stays. A value of any type is kept as the bytes that
    /// stand for it, and is written again as it was read. The commit is
    /// refused where the codec refuses the bytes or an entry of the
    /// metadata, and as malformed where an entry is not padded as entries
    /// are.
    pub fn decode(bytes: &[u8]) -> (r: Result<Commit, RepoError>)
        ensures
            match r {
                Ok(commit) => commit_parsed(bytes@) matches Ok(fields) && commit.holds(fields),
                Err(e) => match commit_parsed(bytes@) {
                    Err(Unframed::Codec) => e.source is Variant,
                    Err(Unframed::Padding) => e.source is Format,
                    Ok(_) => false,
                },
            },
    {
        let raw = match decode_commit(bytes) {
            Ok(raw) => raw,
            Err(e) => {
                return Err(RepoError::from(e));
            },
        };
        let ghost fields = commit_parsed(bytes@);
        let entries = match unframe_elements(&raw.metadata) {
            Ok(entries) => entries,
            Err(e) => {
                return Err(e);
            },
        };
        let ghost list = entries_view(entries@);
        let mut metadata: NameMap<Vec<u8>> = NameMap::new();
        proof {
            assert(metadata.map().map_values(|v: Vec<u8>| v@) =~= entered(list.take(0)));
        }
        let mut i: usize = 0;
        while i < entries.len()
            invariant
                i <= entries@.len(),
                list == entries_view(entries@),
                metadata.wf(),
                metadata.map().map_values(|v: Vec<u8>| v@) == entered(list.take(i as int)),
            decreases entries@.len() - i,
        {
            let name = entries[i].0.clone();
            let value = entries[i].1.clone();
            let ghost before = metadata;
            metadata.insert(name, value);
            proof {
                let next = list.take(i + 1);
                assert(next.drop_last() =~= list.take(i as int));
                assert(next.last() == list[i as int]);
                assert(list[i as int] == (name@, value@));
                assert(metadata.map().map_values(|v: Vec<u8>| v@) =~= before.map().map_values(
                    |v: Vec<u8>| v@,
                ).insert(name@, value@));
            }
            i += 1;
        }
        proof {
            assert(list.take(i as int) =~= list);
        }
        let mut related_objects: Vec<RelatedObject> = Vec::new();
        let mut k: usize = 0;
        while k < raw.related_objects.len()
            invariant
                k <= raw.related_objects.len(),
                related_objects@.len() == k,
                forall|j: int|
                    0 <= j < k ==> (#[trigger] related_objects@[j]).name@
                        == raw.related_objects.deep_view()[j].0 && related_objects@[j].checksum@
                        == raw.related_objects.deep_view()[j].1,
            decreases raw.related_objects.len() - k,
        {
            related_objects.push(
                RelatedObject {
                    name: raw.related_objects[k].0.clone(),
                    checksum: Checksum::from(raw.related_objects[k].1.clone()),
                },
            );
            k += 1;
        }
        proof {
            assert(related_entries_of(related_objects@) =~= raw.related_objects.deep_view());
        }
        let RawCommit { metadata: _, parent, related_objects: _, subject, body, timestamp, roots } =
            raw;
        Ok(
            Commit {
                metadata,
                parent: Checksum::from(parent),
                related_objects,
                subject,
                body,
                timestamp,
                root_dirtree_checksum: Checksum::from(roots.0),
                root_dirmeta_checksum: Checksum::from(roots.1),
            },
        )
    }
}

impl Object for Commit {
    open spec fn spec_object_type() -> ObjectType {
        ObjectType::Commit
    }

    fn object_type() -> (t: ObjectType) {
        ObjectType::Commit
    }
}

impl Encode for Commit {
    open spec fn encoding(&self) -> Option<Seq<u8>> {
        match elements_of(
            entries_view(self.metadata.entries()),
            self.metadata.entries().len() as int,
        ) {
            Some(elements) => gvariant_commit(
                elements,
                self.parent@,
                related_entries_of(self.related_objects@),
                self.subject@,
                self.body@,
                self.timestamp,
                self.root_dirtree_checksum@,
                self.root_dirmeta_checksum@,
            ),
            None => None,
        }
    }

    fn encode_canonical(&self) -> (r: Result<Vec<u8>, RepoError>) {
        let elements = match frame_entries(self.metadata.as_slice()) {
            Ok(elements) => elements,
            Err(e) => {
                return Err(e);
            },
        };
        match encode_commit(
            &elements,
            self.parent.as_ref(),
            &self.related_objects,
            (self.subject.as_str(), self.body.as_str()),
            self.timestamp,
            (self.root_dirtree_checksum.as_ref(), self.root_dirmeta_checksum.as_ref()),
        ) {
            Ok(bytes) => Ok(bytes),
            Err(e) => Err(RepoError::from(e)),
        }
    }
}

/// Encoding is a function of what a directory holds: two directories with
/// the same entries in the same order have the same encoding, and with it
/// the same checksum.
pub proof fn lemma_dirtree_encoding_deterministic(a: DirTree, b: DirTree)
    requires
        a.file_entries() == b.file_entries(),
        a.dir_entries() == b.dir_entries(),
    ensures
        a.encoding() == b.encoding(),
        checksum_of(&a) == checksum_of(&b),
{
}

/// Two well-formed directories with the same files and subdirectories
/// have the same encoding and checksum, whatever the order in which they
/// were filled.
pub proof fn lemma_dirtree_order_independent(a: DirTree, b: DirTree)
    requires
        a.wf(),
        b.wf(),
        a.file_map() == b.file_map(),
        a.dir_map() == b.dir_map(),
    ensures
        a.file_entries() == b.file_entries(),
        a.dir_entries() == b.dir_entries(),
        a.encoding() == b.encoding(),
        checksum_of(&a) == checksum_of(&b),
{
    assert forall|n: Seq<char>| a.files.names().contains(n) <==> b.files.names().contains(n) by {
        assert(a.file_map().contains_key(n) <==> a.files.names().contains(n));
        assert(b.file_map().contains_key(n) <==> b.files.names().contains(n));
    }
    crate::names::lemma_sorted_names_unique(a.files.names(), b.files.names());
    assert(a.file_entries() =~= b.file_entries()) by {
        assert forall|i: int| 0 <= i < a.files.entries().len() implies a.file_entries()[i]
            == b.file_entries()[i] by {
            a.files.lemma_index_of(i);
            b.files.lemma_index_of(i);
            assert(a.files.names()[i] == b.files.names()[i]);
            assert(a.file_map()[a.files.names()[i]] == a.files.values()[i]@);
            assert(b.file_map()[b.files.names()[i]] == b.files.values()[i]@);
        }
    }
    assert forall|n: Seq<char>| a.dirs.names().contains(n) <==> b.dirs.names().contains(n) by {
        assert(a.dir_map().contains_key(n) <==> a.dirs.names().contains(n));
        assert(b.dir_map().contains_key(n) <==> b.dirs.names().contains(n));
    }
    crate::names::lemma_sorted_names_unique(a.dirs.names(), b.dirs.names());
    assert(a.dir_entries() =~= b.dir_entries()) by {
        assert forall|i: int| 0 <= i < a.dirs.entries().len() implies a.dir_entries()[i]
            == b.dir_entries()[i] by {
            a.dirs.lemma_index_of(i);
            b.dirs.lemma_index_of(i);
            assert(a.dirs.names()[i] == b.dirs.names()[i]);
            assert(a.dir_map()[a.dirs.names()[i]] == (
                a.dirs.values()[i].checksum@,
                a.dirs.values()[i].meta_checksum@,
            ));
            assert(b.dir_map()[b.dirs.names()[i]] == (
                b.dirs.values()[i].checksum@,
                b.dirs.values()[i].meta_checksum@,
            ));
        }
    }
}

/// What a list of entries with strictly ascending names gives when they
/// are entered: each name with its own value, and no other name.
pub proof fn lemma_entered_sorted<V>(entries: Seq<(Seq<char>, V)>)
    requires
        crate::names::strictly_sorted(Seq::new(entries.len(), |i: int| entries[i].0)),
    ensures
        forall|i: int|
            0 <= i < entries.len() ==> entered(entries).contains_key(#[trigger] entries[i].0)
                && entered(entries)[entries[i].0] == entries[i].1,
        forall|name: Seq<char>| #[trigger]
            entered(entries).contains_key(name) ==> exists|i: int|
                0 <= i < entries.len() && entries[i].0 == name,
    decreases entries.len(),
{
    let names = Seq::new(entries.len(), |i: int| entries[i].0);
    if entries.len() > 0 {
        let front = entries.drop_last();
        let front_names = Seq::new(front.len(), |i: int| front[i].0);
        assert forall|i: int, j: int| 0 <= i < j < front_names.len() implies crate::names::name_lt(
            #[trigger] front_names[i],
            #[trigger] front_names[j],
        ) by {
            assert(crate::names::name_lt(names[i], names[j]));
        }
        lemma_entered_sorted(front);
        let last = entries.last();
        assert forall|i: int| 0 <= i < entries.len() implies entered(entries).contains_key(
            #[trigger] entries[i].0,
        ) && entered(entries)[entries[i].0] == entries[i].1 by {
            if i < entries.len() - 1 {
                assert(front[i] == entries[i]);
                assert(crate::names::name_lt(names[i], names[entries.len() - 1]));
                crate::names::lemma_name_lt_irreflexive(last.0);
            }
        }
        assert forall|name: Seq<char>| #[trigger]
            entered(entries).contains_key(name) implies exists|i: int|
            0 <= i < entries.len() && entries[i].0 == name by {
            if name == last.0 {
                assert(entries[entries.len() - 1].0 == name);
            } else {
                assert(entered(front).contains_key(name));
                let i = choose|i: int| 0 <= i < front.len() && front[i].0 == name;
                assert(entries[i].0 == name);
            }
        }
    }
}

/// A directory that is made again from the entries that it was written
/// with is the same directory: it has the same entries in the same order,
/// and with them the same encoding and checksum.
pub proof fn lemma_dirtree_round_trip(tree: DirTree, back: DirTree)
    requires
        tree.wf(),
        back.wf(),
        back.file_map() == entered(tree.file_entries()),
        back.dir_map() == entered(
            tree.dir_entries().map_values(|e: (Seq<char>, Seq<u8>, Seq<u8>)| (e.0, (e.1, e.2))),
        ),
    ensures
        back.file_entries() == tree.file_entries(),
        back.dir_entries() == tree.dir_entries(),
        back.encoding() == tree.encoding(),
        checksum_of(&back) == checksum_of(&tree),
{
    let files = tree.file_entries();
    assert(Seq::new(files.len(), |i: int| files[i].0) =~= tree.files.names());
    lemma_entered_sorted(files);
    assert(entered(files) =~= tree.file_map()) by {
        assert forall|name: Seq<char>| #[trigger]
            entered(files).contains_key(name) <==> tree.file_map().contains_key(name) by {
            if entered(files).contains_key(name) {
                let i = choose|i: int| 0 <= i < files.len() && files[i].0 == name;
                assert(tree.files.names()[i] == name);
            }
            if tree.files.names().contains(name) {
                let i = tree.files.names().index_of(name);
                assert(files[i].0 == name);
            }
        }
        assert forall|name: Seq<char>| #[trigger]
            tree.file_map().contains_key(name) implies entered(files)[name]
            == tree.file_map()[name] by {
            let i = tree.files.names().index_of(name);
            tree.files.lemma_index_of(i);
            assert(files[i].0 == name);
        }
    }
    let dirs = tree.dir_entries().map_values(|e: (Seq<char>, Seq<u8>, Seq<u8>)| (e.0, (e.1, e.2)));
    assert(Seq::new(dirs.len(), |i: int| dirs[i].0) =~= tree.dirs.names());
    lemma_entered_sorted(dirs);
    assert(entered(dirs) =~= tree.dir_map()) by {
        assert forall|name: Seq<char>| #[trigger]
            entered(dirs).contains_key(name) <==> tree.dir_map().contains_key(name) by {
            if entered(dirs).contains_key(name) {
                let i = choose|i: int| 0 <= i < dirs.len() && dirs[i].0 == name;
                assert(tree.dirs.names()[i] == name);
            }
            if tree.dirs.names().contains(name) {
                let i = tree.dirs.names().index_of(name);
                assert(dirs[i].0 == name);
            }
        }
        assert forall|name: Seq<char>| #[trigger]
            tree.dir_map().contains_key(name) implies entered(dirs)[name] == tree.dir_map()[name] by {
            let i = tree.dirs.names().index_of(name);
            tree.dirs.lemma_index_of(i);
            assert(dirs[i].0 == name);
        }
    }
    lemma_dirtree_order_independent(back, tree);
}

/// Encoding is a function of what directory metadata holds.
pub proof fn lemma_dirmeta_encoding_deterministic(a: DirMeta, b: DirMeta)
    requires
        a.uid == b.uid,
        a.gid == b.gid,
        a.mode == b.mode,
        a.xattrs.deep_view() == b.xattrs.deep_view(),
    ensures
        a.encoding() == b.encoding(),
        checksum_of(&a) == checksum_of(&b),
{
}

/// Encoding is a function of what a commit holds: two commits with the
/// same metadata by name and the same other fields have the same encoding,
/// and with it the same checksum.
pub proof fn lemma_commit_encoding_deterministic(a: Commit, b: Commit)
    requires
        a.metadata.wf(),
        b.metadata.wf(),
        a.metadata_map() == b.metadata_map(),
        a.parent@ == b.parent@,
        related_entries_of(a.related_objects@) == related_entries_of(b.related_objects@),
        a.subject@ == b.subject@,
        a.body@ == b.body@,
        a.timestamp == b.timestamp,
        a.root_dirtree_checksum@ == b.root_dirtree_checksum@,
        a.root_dirmeta_checksum@ == b.root_dirmeta_checksum@,
    ensures
        a.encoding() == b.encoding(),
        checksum_of(&a) == checksum_of(&b),
{
    let ea = entries_view(a.metadata.entries());
    let eb = entries_view(b.metadata.entries());
    assert forall|n: Seq<char>| a.metadata.names().contains(n) <==> b.metadata.names().contains(n) by {
        assert(a.metadata_map().contains_key(n) <==> a.metadata.names().contains(n));
        assert(b.metadata_map().contains_key(n) <==> b.metadata.names().contains(n));
    }
    crate::names::lemma_sorted_names_unique(a.metadata.names(), b.metadata.names());
    assert(ea =~= eb) by {
        assert(a.metadata.names().len() == a.metadata.entries().len());
        assert(b.metadata.names().len() == b.metadata.entries().len());
        assert forall|i: int| 0 <= i < ea.len() implies ea[i] == eb[i] by {
            a.metadata.lemma_index_of(i);
            b.metadata.lemma_index_of(i);
            assert(a.metadata.names()[i] == b.metadata.names()[i]);
            assert(a.metadata_map()[a.metadata.names()[i]] == a.metadata.values()[i]@);
            assert(b.metadata_map()[b.metadata.names()[i]] == b.metadata.values()[i]@);
        }
    }
}

/// What the entries of a sorted list give when they are entered is the
/// map that holds them.
proof fn lemma_entered_metadata(commit: Commit)
    requires
        commit.metadata.wf(),
    ensures
        entered(entries_view(commit.metadata.entries())) == commit.metadata_map(),
{
    let entries = entries_view(commit.metadata.entries());
    let names = commit.metadata.names();
    assert(Seq::new(entries.len(), |i: int| entries[i].0) =~= names);
    lemma_entered_sorted(entries);
    assert(entered(entries) =~= commit.metadata_map()) by {
        assert forall|name: Seq<char>| #[trigger]
            entered(entries).contains_key(name) <==> commit.metadata_map().contains_key(name) by {
            if entered(entries).contains_key(name) {
                let i = choose|i: int| 0 <= i < entries.len() && entries[i].0 == name;
                assert(names[i] == name);
            }
            if names.contains(name) {
                let i = names.index_of(name);
                assert(entries[i].0 == name);
            }
        }
        assert forall|name: Seq<char>| #[trigger]
            commit.metadata_map().contains_key(name) implies entered(entries)[name]
            == commit.metadata_map()[name] by {
            let i = names.index_of(name);
            commit.metadata.lemma_index_of(i);
            assert(entries[i].0 == name);
        }
    }
}

/// A commit that is read from the encoding of another is the same commit:
/// it has the same metadata by name, values of every type among them, and
/// the same other fields, and with them the same encoding and checksum.
/// This holds where the codec reads back what it wrote: the fields of the
/// commit, and each entry of the metadata as a name and a byte string.
pub proof fn lemma_commit_round_trip(commit: Commit, bytes: Seq<u8>, back: Commit)
    requires
        commit.metadata.wf(),
        commit.encoding() == Some(bytes),
        entries_read_back(
            entries_view(commit.metadata.entries()),
            commit.metadata.entries().len() as int,
        ),
        gvariant_commit_parsed(bytes) == Some(
            (
                elements_of(
                    entries_view(commit.metadata.entries()),
                    commit.metadata.entries().len() as int,
                )->0,
                commit.parent@,
                related_entries_of(commit.related_objects@),
                commit.subject@,
                commit.body@,
                commit.timestamp,
                commit.root_dirtree_checksum@,
                commit.root_dirmeta_checksum@,
            ),
        ),
        commit_parsed(bytes) is Ok ==> back.holds(commit_parsed(bytes)->Ok_0),
    ensures
        commit_parsed(bytes) is Ok,
        back.metadata_map() == commit.metadata_map(),
        back.parent@ == commit.parent@,
        related_entries_of(back.related_objects@) == related_entries_of(commit.related_objects@),
        back.subject@ == commit.subject@,
        back.body@ == commit.body@,
        back.timestamp == commit.timestamp,
        back.root_dirtree_checksum@ == commit.root_dirtree_checksum@,
        back.root_dirmeta_checksum@ == commit.root_dirmeta_checksum@,
        back.encoding() == commit.encoding(),
        checksum_of(&back) == checksum_of(&commit),
{
    let entries = entries_view(commit.metadata.entries());
    let n = commit.metadata.entries().len() as int;
    crate::framing::lemma_elements_round_trip(entries, n);
    crate::framing::lemma_elements_of_len(entries, n);
    assert(entries.take(n) =~= entries);
    lemma_entered_metadata(commit);
    lemma_commit_encoding_deterministic(back, commit);
}

} // verus!
