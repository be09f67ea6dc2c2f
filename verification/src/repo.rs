//! The object store: which loose objects a repository holds, and how
//! objects are written to it and read from it.
//!
//! A repository is held here as a value: its configuration, and the loose
//! objects below its objects directory, each under its path. Writing goes
//! through a temporary file that is no part of the repository until it is
//! committed, so that an object is either there in full or not at all.

use crate::checksum::Checksum;
use crate::digest::sha256;
use crate::digest::DIGEST_LEN;
use crate::error::IoError;
use crate::error::IoErrorKind;
use crate::error::RepoError;
use crate::error::RepoErrorKind;
use crate::name_map::NameMap;
use crate::object::loose_path;
use crate::object::loose_path_of;
use crate::object::ObjectType;
use crate::object::RepoMode;
use crate::schema::default_file_header_encoding;
use crate::schema::parsed_dir_entries;
use crate::schema::parsed_file_entries;
use crate::schema::entered;
use crate::schema::DirMeta;
use crate::schema::DirTree;
use crate::schema::Encode;
use crate::schema::FileHeader;
use crate::schema::Object;
use crate::codec::gvariant_dirtree_parsed;
use crate::names::same_name;
use vstd::prelude::*;

verus! {

/// The core section of a repository's configuration.
#[derive(Debug, Clone, Copy, PartialEq, Eq, Structural)]
pub struct RepoCoreConfig {
    pub repo_version: u32,
    pub mode: RepoMode,
}

impl Default for RepoCoreConfig {
    fn default() -> (c: RepoCoreConfig)
        ensures
            c.repo_version == 1,
            c.mode == RepoMode::BareUserOnly,
    {
        RepoCoreConfig { repo_version: 1, mode: RepoMode::BareUserOnly }
    }
}

/// A repository's configuration, written once when the repository is
/// created and read whenever it is opened.
#[derive(Debug, Clone, Copy, PartialEq, Eq, Structural)]
pub struct RepoConfig {
    pub core: RepoCoreConfig,
}

impl Default for RepoConfig {
    fn default() -> (c: RepoConfig)
        ensures
            c.core.repo_version == 1,
            c.core.mode == RepoMode::BareUserOnly,
    {
        RepoConfig { core: RepoCoreConfig::default() }
    }
}

/// The directories that a repository has below its root, in the order in
/// which they are made.
pub open spec fn state_dirs_spec() -> Seq<Seq<char>> {
    seq![
        "tmp"@,
        "extensions"@,
        "state"@,
        "refs"@,
        "refs/heads"@,
        "refs/mirrors"@,
        "refs/remotes"@,
        "objects"@,
    ]
}

/// What became of the attempt to make the root directory of a new
/// repository.
#[derive(Debug)]
pub enum CreateDirOutcome {
    /// The directory was made.
    Created,
    /// There was something at the path already.
    AlreadyExists,
    /// The filesystem failed otherwise.
    Failed(IoError),
}

/// The objects of `objects` with `data` put at `path`, unless there is an
/// object at `path` already: one that is there stays as it is.
pub open spec fn with_object(objects: Map<Seq<char>, Seq<u8>>, path: Seq<char>, data: Seq<u8>) -> Map<
    Seq<char>,
    Seq<u8>,
> {
    if objects.contains_key(path) {
        objects
    } else {
        objects.insert(path, data)
    }
}

/// The object of kind `typ` with checksum `chk` among `objects`, if it is
/// there. A checksum without bytes names no object.
pub open spec fn object_in(
    objects: Map<Seq<char>, Seq<u8>>,
    mode: RepoMode,
    typ: ObjectType,
    chk: Seq<u8>,
) -> Option<Seq<u8>> {
    let path = loose_path_of(chk, typ, mode);
    if chk.len() >= 1 && objects.contains_key(path) {
        Some(objects[path])
    } else {
        None
    }
}

/// Every object of `before` is in `after` with the bytes it had: nothing
/// was taken away or changed.
pub open spec fn extends(after: Map<Seq<char>, Seq<u8>>, before: Map<Seq<char>, Seq<u8>>) -> bool {
    forall|path: Seq<char>| #[trigger]
        before.contains_key(path) ==> after.contains_key(path) && after[path] == before[path]
}

/// What is hashed for an object of kind `typ` with content `object`: for a
/// file, outside the archive mode, the encoding of the default file header
/// and then the content; else the content. There is none where the header
/// is needed and cannot be encoded.
pub open spec fn hashed_bytes(typ: ObjectType, mode: RepoMode, object: Seq<u8>) -> Option<Seq<u8>> {
    if typ == ObjectType::File && mode != RepoMode::ArchiveZ2 {
        match default_file_header_encoding() {
            Some(header) => Some(header + object),
            None => None,
        }
    } else {
        Some(object)
    }
}

/// A repository: its configuration and its loose objects.
#[derive(Debug)]
pub struct OsTreeRepo {
    config: RepoConfig,
    objects: NameMap<Vec<u8>>,
}

/// A temporary file in which an object is gathered before it is committed
/// to the repository. It is no part of the repository: what is written to
/// it is seen by no reader until `commit`.
#[derive(Debug)]
pub struct OsTreeTempFile {
    typ: ObjectType,
    data: Vec<u8>,
}

impl OsTreeTempFile {
    /// The kind of object that the file is for.
    pub closed spec fn typ(&self) -> ObjectType {
        self.typ
    }

    /// What has been written to the file.
    pub closed spec fn data(&self) -> Seq<u8> {
        self.data@
    }

    /// Appends `buf` to the file and returns how many bytes were written:
    /// all of them.
    pub fn write(&mut self, buf: &[u8]) -> (n: usize)
        ensures
            n == buf@.len(),
            final(self).typ() == old(self).typ(),
            final(self).data() == old(self).data() + buf@,
    {
        let n = buf.len();
        let mut i: usize = 0;
        while i < n
            invariant
                n == buf@.len(),
                i <= n,
                self.typ == old(self).typ,
                self.data@ == old(self).data@ + buf@.take(i as int),
            decreases n - i,
        {
            self.data.push(buf[i]);
            proof {
                assert(buf@.take(i + 1) =~= buf@.take(i as int).push(buf@[i as int]));
            }
            i += 1;
        }
        proof {
            assert(buf@.take(n as int) =~= buf@);
        }
        n
    }

    /// Makes sure that what was written has reached the file. There is
    /// nothing to do.
    pub fn flush(&mut self)
        ensures
            *final(self) == *old(self),
    {
    }

    /// Publishes the file as the object of its kind with checksum `chk`:
    /// all of it at once. Where the repository has that object already, it
    /// is left as it is and the file is dropped.
    pub fn commit(self, repo: &mut OsTreeRepo, chk: &Checksum)
        requires
            old(repo).wf(),
            chk@.len() >= 1,
        ensures
            final(repo).wf(),
            final(repo).config() == old(repo).config(),
            final(repo).objects() == with_object(
                old(repo).objects(),
                loose_path_of(chk@, self.typ(), old(repo).config().core.mode),
                self.data(),
            ),
    {
        let path = loose_path(chk, self.typ, repo.config.core.mode);
        let ghost before = repo.objects;
        if !repo.objects.contains_key(path.as_str()) {
            repo.objects.insert(path, self.data);
            proof {
                assert(repo.objects() =~= before.map().map_values(|v: Vec<u8>| v@).insert(
                    path@,
                    self.data@,
                ));
            }
        }
    }
}

impl OsTreeRepo {
    /// The configuration of the repository.
    pub closed spec fn config(&self) -> RepoConfig {
        self.config
    }

    /// The loose objects of the repository: for each path below the
    /// objects directory at which there is one, its bytes.
    pub closed spec fn objects(&self) -> Map<Seq<char>, Seq<u8>> {
        self.objects.map().map_values(|v: Vec<u8>| v@)
    }

    /// The invariant of the repository.
    pub closed spec fn wf(&self) -> bool {
        self.objects.wf()
    }

    /// The object of kind `typ` with checksum `chk`, if the repository has
    /// it. A checksum without bytes names no object.
    pub open spec fn object(&self, typ: ObjectType, chk: Seq<u8>) -> Option<Seq<u8>> {
        object_in(self.objects(), self.config().core.mode, typ, chk)
    }

    /// Whether `e` is the failure to read the directory with checksum
    /// `chk`: the mode is not provided for, or the object is not there,
    /// or the codec refuses its bytes.
    pub open spec fn dirtree_load_failure(&self, chk: Seq<u8>, e: RepoError) -> bool {
        if self.config().core.mode != RepoMode::BareUserOnly {
            e.source == RepoErrorKind::UnsupportedMode(self.config().core.mode)
        } else {
            match self.object(ObjectType::DirTree, chk) {
                None => e.source matches RepoErrorKind::Io(io) && io.kind == IoErrorKind::NotFound,
                Some(bytes) => gvariant_dirtree_parsed(bytes) is None && e.source is Variant,
            }
        }
    }

    /// The directories that a repository has below its root, in the order
    /// in which they are made.
    pub fn state_dirs() -> (dirs: Vec<&'static str>)
        ensures
            dirs@.len() == state_dirs_spec().len(),
            forall|i: int| 0 <= i < dirs@.len() ==> (#[trigger] dirs@[i])@ == state_dirs_spec()[i],
    {
        let mut dirs: Vec<&'static str> = Vec::new();
        dirs.push("tmp");
        dirs.push("extensions");
        dirs.push("state");
        dirs.push("refs");
        dirs.push("refs/heads");
        dirs.push("refs/mirrors");
        dirs.push("refs/remotes");
        dirs.push("objects");
        dirs
    }

    /// A new repository, given what became of making its root directory. A
    /// repository is made only where nothing was there before: it has the
    /// default configuration and no objects.
    pub fn create(outcome: CreateDirOutcome) -> (r: Result<OsTreeRepo, RepoError>)
        ensures
            match (outcome, r) {
                (CreateDirOutcome::Created, Ok(repo)) => {
                    &&& repo.wf()
                    &&& repo.config().core.repo_version == 1
                    &&& repo.config().core.mode == RepoMode::BareUserOnly
                    &&& repo.objects() == Map::<Seq<char>, Seq<u8>>::empty()
                },
                (CreateDirOutcome::AlreadyExists, Err(e)) => e.source is AlreadyExists,
                (CreateDirOutcome::Failed(io), Err(e)) => e.source == RepoErrorKind::Io(io),
                _ => false,
            },
    {
        match outcome {
            CreateDirOutcome::Created => {
                let repo = OsTreeRepo { config: RepoConfig::default(), objects: NameMap::new() };
                proof {
                    assert(repo.objects() =~= Map::<Seq<char>, Seq<u8>>::empty());
                }
                Ok(repo)
            },
            CreateDirOutcome::AlreadyExists => Err(RepoError::from(RepoErrorKind::AlreadyExists)),
            CreateDirOutcome::Failed(io) => Err(RepoError::from(io)),
        }
    }

    /// Opens a repository, given the directories found below its root,
    /// its configuration as far as it could be read, and the files found
    /// below its objects directory, each with its path and its bytes. A
    /// directory is a repository only if it has every state directory and
    /// a configuration that can be read. The repository that is opened
    /// holds the files found as its loose objects, each at its path, and
    /// nothing else.
    pub fn open(
        present_dirs: &Vec<String>,
        config: Option<RepoConfig>,
        found: &Vec<(String, Vec<u8>)>,
    ) -> (r: Result<OsTreeRepo, RepoError>)
        ensures
            match r {
                Ok(repo) => {
                    &&& has_state_dirs(present_dirs.deep_view())
                    &&& config == Some(repo.config())
                    &&& repo.wf()
                    &&& repo.objects() == entered(found.deep_view())
                },
                Err(e) => {
                    &&& e.source is MalformedRepo
                    &&& !has_state_dirs(present_dirs.deep_view()) || config is None
                },
            },
    {
        let dirs = Self::state_dirs();
        let mut i: usize = 0;
        while i < dirs.len()
            invariant
                i <= dirs@.len(),
                dirs@.len() == state_dirs_spec().len(),
                forall|k: int| 0 <= k < dirs@.len() ==> (#[trigger] dirs@[k])@ == state_dirs_spec()[k],
                forall|k: int|
                    0 <= k < i ==> present_dirs.deep_view().contains(#[trigger] state_dirs_spec()[k]),
            decreases dirs@.len() - i,
        {
            if !contains_name(present_dirs, dirs[i]) {
                return Err(RepoError::from(RepoErrorKind::MalformedRepo));
            }
            i += 1;
        }
        let config = match config {
            Some(config) => config,
            None => {
                return Err(RepoError::from(RepoErrorKind::MalformedRepo));
            },
        };
        let mut repo = OsTreeRepo { config, objects: NameMap::new() };
        let ghost files = found.deep_view();
        proof {
            assert(repo.objects() =~= entered(files.take(0)));
        }
        let mut j: usize = 0;
        while j < found.len()
            invariant
                j <= found.len(),
                files == found.deep_view(),
                repo.config == config,
                repo.objects.wf(),
                repo.objects() == entered(files.take(j as int)),
            decreases found.len() - j,
        {
            let path = found[j].0.clone();
            let data = found[j].1.clone();
            let ghost before = repo.objects;
            repo.objects.insert(path, data);
            proof {
                let next = files.take(j + 1);
                assert(next.drop_last() =~= files.take(j as int));
                assert(next.last() == files[j as int]);
                assert(files[j as int] == (path@, data@));
                assert(repo.objects() =~= before.map().map_values(|v: Vec<u8>| v@).insert(
                    path@,
                    data@,
                ));
            }
            j += 1;
        }
        proof {
            assert(files.take(j as int) =~= files);
        }
        Ok(repo)
    }

    /// The configuration of the repository.
    pub fn get_config(&self) -> (c: RepoConfig)
        ensures
            c == self.config(),
    {
        self.config
    }

    /// The paths of the loose objects, in ascending order.
    pub closed spec fn paths(&self) -> Seq<Seq<char>> {
        self.objects.names()
    }

    /// The number of loose objects that the repository holds.
    pub fn object_count(&self) -> (n: usize)
        ensures
            n == self.paths().len(),
    {
        self.objects.len()
    }

    /// The path of the loose object at position `i`, in the order of
    /// paths.
    pub fn object_path_at(&self, i: usize) -> (path: &String)
        requires
            self.wf(),
            i < self.paths().len(),
        ensures
            path@ == self.paths()[i as int],
            self.objects().contains_key(path@),
    {
        proof {
            self.objects.lemma_index_of(i as int);
        }
        self.objects.name_at(i)
    }

    /// The bytes of the loose object at position `i`, in the order of
    /// paths.
    pub fn object_data_at(&self, i: usize) -> (data: &Vec<u8>)
        requires
            self.wf(),
            i < self.paths().len(),
        ensures
            self.objects().contains_key(self.paths()[i as int]),
            self.objects()[self.paths()[i as int]] == data@,
    {
        proof {
            self.objects.lemma_index_of(i as int);
        }
        self.objects.value_at(i)
    }

    /// Whether the repository has the object of kind `typ` with checksum
    /// `chk`.
    pub fn try_contains(&self, typ: ObjectType, chk: &Checksum) -> (r: Result<bool, RepoError>)
        requires
            self.wf(),
        ensures
            r matches Ok(b) && b == self.object(typ, chk@).is_some(),
    {
        if chk.len() == 0 {
            return Ok(false);
        }
        let path = loose_path(chk, typ, self.config.core.mode);
        Ok(self.objects.contains_key(path.as_str()))
    }

    /// The bytes of the object of kind `typ` with checksum `chk`, or `None`
    /// where the repository does not have it. Only the mode that stores
    /// content as it is given can be read.
    pub fn try_get(&self, typ: ObjectType, chk: &Checksum) -> (r: Result<Option<&Vec<u8>>, RepoError>)
        requires
            self.wf(),
        ensures
            match r {
                Ok(Some(data)) => {
                    &&& self.config().core.mode == RepoMode::BareUserOnly
                    &&& self.object(typ, chk@) == Some(data@)
                },
                Ok(None) => {
                    &&& self.config().core.mode == RepoMode::BareUserOnly
                    &&& self.object(typ, chk@) is None
                },
                Err(e) => {
                    &&& self.config().core.mode != RepoMode::BareUserOnly
                    &&& e.source == RepoErrorKind::UnsupportedMode(self.config().core.mode)
                },
            },
    {
        if self.config.core.mode != RepoMode::BareUserOnly {
            return Err(RepoError::from(RepoErrorKind::UnsupportedMode(self.config.core.mode)));
        }
        if chk.len() == 0 {
            return Ok(None);
        }
        let path = loose_path(chk, typ, self.config.core.mode);
        Ok(self.objects.get(path.as_str()))
    }

    /// Whether the repository has the object; `false` where that cannot be
    /// told.
    pub fn contains(&self, typ: ObjectType, chk: &Checksum) -> (b: bool)
        requires
            self.wf(),
        ensures
            b == self.object(typ, chk@).is_some(),
    {
        match self.try_contains(typ, chk) {
            Ok(b) => b,
            Err(_) => false,
        }
    }

    /// The bytes of the object, or `None` where the repository does not
    /// have it or cannot read it.
    pub fn get(&self, typ: ObjectType, chk: &Checksum) -> (r: Option<&Vec<u8>>)
        requires
            self.wf(),
        ensures
            match r {
                Some(data) => {
                    &&& self.config().core.mode == RepoMode::BareUserOnly
                    &&& self.object(typ, chk@) == Some(data@)
                },
                None => self.config().core.mode != RepoMode::BareUserOnly || self.object(typ, chk@)
                    is None,
            },
    {
        match self.try_get(typ, chk) {
            Ok(r) => r,
            Err(_) => None,
        }
    }

    /// The bytes of the object of kind `typ` with checksum `chk`. That the
    /// object is not there is a failure of the filesystem.
    pub fn object_fd(&self, typ: ObjectType, chk: &Checksum) -> (r: Result<&Vec<u8>, RepoError>)
        requires
            self.wf(),
        ensures
            match r {
                Ok(data) => {
                    &&& self.config().core.mode == RepoMode::BareUserOnly
                    &&& self.object(typ, chk@) == Some(data@)
                },
                Err(e) => if self.config().core.mode != RepoMode::BareUserOnly {
                    e.source == RepoErrorKind::UnsupportedMode(self.config().core.mode)
                } else {
                    &&& self.object(typ, chk@) is None
                    &&& e.source matches RepoErrorKind::Io(io)
                    &&& io.kind == IoErrorKind::NotFound
                },
            },
    {
        match self.try_get(typ, chk) {
            Ok(Some(data)) => Ok(data),
            Ok(None) => Err(RepoError::from(IoError::not_found())),
            Err(e) => Err(e),
        }
    }

    /// A temporary file for an object of kind `typ`, empty. The repository
    /// is not changed.
    pub fn tmpfile_for_type(&self, typ: ObjectType) -> (file: OsTreeTempFile)
        ensures
            file.typ() == typ,
            file.data() == Seq::<u8>::empty(),
    {
        OsTreeTempFile { typ, data: Vec::new() }
    }

    /// Writes `object` as an object of kind `typ` and returns its
    /// checksum. The bytes are gathered in a temporary file and published
    /// at once, or not at all: where the call fails, the repository is as
    /// it was. An object that is there already stays as it is.
    pub fn write_with_type(&mut self, object: &[u8], typ: ObjectType) -> (r: Result<
        Checksum,
        RepoError,
    >)
        requires
            old(self).wf(),
        ensures
            final(self).wf(),
            final(self).config() == old(self).config(),
            match r {
                Ok(chk) => {
                    &&& hashed_bytes(typ, old(self).config().core.mode, object@) is Some
                    &&& chk@.len() == DIGEST_LEN
                    &&& chk@ == sha256(hashed_bytes(typ, old(self).config().core.mode, object@)->0)
                    &&& final(self).objects() == with_object(
                        old(self).objects(),
                        loose_path_of(chk@, typ, old(self).config().core.mode),
                        object@,
                    )
                },
                Err(e) => {
                    &&& hashed_bytes(typ, old(self).config().core.mode, object@) is None
                    &&& e.source is Variant
                    &&& final(self).objects() == old(self).objects()
                },
            },
    {
        let mut temp_file = self.tmpfile_for_type(typ);
        let mut hashed: Vec<u8> = Vec::new();
        if typ == ObjectType::File && self.config.core.mode != RepoMode::ArchiveZ2 {
            match write_header(&mut hashed) {
                Ok(()) => {},
                Err(e) => {
                    return Err(e);
                },
            }
        }
        temp_file.write(object);
        append_bytes(&mut hashed, object);
        let chk = Checksum::hash(hashed.as_slice());
        temp_file.commit(self, &chk);
        Ok(chk)
    }

    /// Writes the content of a file as a file object and returns its
    /// checksum: the digest of the default file header's encoding followed
    /// by the content. Only the content is stored.
    pub fn write_raw_file(&mut self, content: &[u8]) -> (r: Result<Checksum, RepoError>)
        requires
            old(self).wf(),
        ensures
            final(self).wf(),
            final(self).config() == old(self).config(),
            match r {
                Ok(chk) => {
                    &&& hashed_bytes(ObjectType::File, old(self).config().core.mode, content@) is Some
                    &&& chk@.len() == DIGEST_LEN
                    &&& chk@ == sha256(
                        hashed_bytes(ObjectType::File, old(self).config().core.mode, content@)->0,
                    )
                    &&& final(self).objects() == with_object(
                        old(self).objects(),
                        loose_path_of(chk@, ObjectType::File, old(self).config().core.mode),
                        content@,
                    )
                },
                Err(e) => {
                    &&& hashed_bytes(ObjectType::File, old(self).config().core.mode, content@) is None
                    &&& e.source is Variant
                    &&& final(self).objects() == old(self).objects()
                },
            },
    {
        self.write_with_type(content, ObjectType::File)
    }

    /// Writes a structured object and returns its checksum: the digest of
    /// its canonical encoding, which is what is stored. Where the object
    /// cannot be encoded, nothing is written.
    pub fn write<T: Object + Encode>(&mut self, object: &T) -> (r: Result<Checksum, RepoError>)
        requires
            old(self).wf(),
        ensures
            final(self).wf(),
            final(self).config() == old(self).config(),
            match r {
                Ok(chk) => {
                    &&& object.encoding() is Some
                    &&& chk@.len() == DIGEST_LEN
                    &&& chk@ == sha256(object.encoding()->0)
                    &&& final(self).objects() == with_object(
                        old(self).objects(),
                        loose_path_of(chk@, T::spec_object_type(), old(self).config().core.mode),
                        object.encoding()->0,
                    )
                },
                Err(e) => {
                    &&& object.encoding() is None
                    &&& e.source is Variant
                    &&& final(self).objects() == old(self).objects()
                },
            },
    {
        let object_bytes = match object.encode_canonical() {
            Ok(bytes) => bytes,
            Err(e) => {
                return Err(e);
            },
        };
        let chk = Checksum::hash(object_bytes.as_slice());
        let mut tmp = self.tmpfile_for_type(T::object_type());
        tmp.write(object_bytes.as_slice());
        tmp.commit(self, &chk);
        Ok(chk)
    }

    /// Writes directory metadata and returns its checksum.
    pub fn write_dirmeta(&mut self, meta: &DirMeta) -> (r: Result<Checksum, RepoError>)
        requires
            old(self).wf(),
        ensures
            final(self).wf(),
            final(self).config() == old(self).config(),
            match r {
                Ok(chk) => {
                    &&& meta.encoding() is Some
                    &&& chk@.len() == DIGEST_LEN
                    &&& chk@ == sha256(meta.encoding()->0)
                    &&& final(self).objects() == with_object(
                        old(self).objects(),
                        loose_path_of(chk@, ObjectType::DirMeta, old(self).config().core.mode),
                        meta.encoding()->0,
                    )
                },
                Err(e) => {
                    &&& meta.encoding() is None
                    &&& e.source is Variant
                    &&& final(self).objects() == old(self).objects()
                },
            },
    {
        self.write(meta)
    }

    /// Reads the directory with checksum `chk`.
    pub fn load_dirtree(&self, chk: &Checksum) -> (r: Result<DirTree, RepoError>)
        requires
            self.wf(),
        ensures
            match r {
                Ok(tree) => {
                    &&& self.config().core.mode == RepoMode::BareUserOnly
                    &&& self.object(ObjectType::DirTree, chk@) matches Some(bytes)
                    &&& gvariant_dirtree_parsed(bytes) is Some
                    &&& tree.wf()
                    &&& tree.file_map() == entered(parsed_file_entries(bytes))
                    &&& tree.dir_map() == entered(parsed_dir_entries(bytes))
                },
                Err(e) => self.dirtree_load_failure(chk@, e),
            },
    {
        let bytes = match self.object_fd(ObjectType::DirTree, chk) {
            Ok(bytes) => bytes,
            Err(e) => {
                return Err(e);
            },
        };
        DirTree::decode(bytes.as_slice())
    }
}

/// Whether every state directory of a repository is among `present`.
pub open spec fn has_state_dirs(present: Seq<Seq<char>>) -> bool {
    forall|k: int| 0 <= k < state_dirs_spec().len() ==> present.contains(#[trigger] state_dirs_spec()[k])
}

/// Whether `name` is among `names`.
fn contains_name(names: &Vec<String>, name: &str) -> (r: bool)
    ensures
        r == names.deep_view().contains(name@),
{
    let mut i: usize = 0;
    while i < names.len()
        invariant
            i <= names.len(),
            forall|k: int| 0 <= k < i ==> names.deep_view()[k] != name@,
        decreases names.len() - i,
    {
        if same_name(names[i].as_str(), name) {
            assert(names.deep_view()[i as int] == name@);
            return true;
        }
        i += 1;
    }
    false
}

/// Appends `bytes` to `buffer`.
fn append_bytes(buffer: &mut Vec<u8>, bytes: &[u8])
    ensures
        final(buffer)@ == old(buffer)@ + bytes@,
{
    let n = bytes.len();
    let mut i: usize = 0;
    while i < n
        invariant
            n == bytes@.len(),
            i <= n,
            buffer@ == old(buffer)@ + bytes@.take(i as int),
        decreases n - i,
    {
        buffer.push(bytes[i]);
        proof {
            assert(bytes@.take(i + 1) =~= bytes@.take(i as int).push(bytes@[i as int]));
        }
        i += 1;
    }
    proof {
        assert(bytes@.take(n as int) =~= bytes@);
    }
}

/// Appends to `w` the encoding of the default file header, which is what
/// a file's content is hashed behind. Where the header cannot be encoded,
/// nothing is appended.
pub fn write_header(w: &mut Vec<u8>) -> (r: Result<(), RepoError>)
    ensures
        match r {
            Ok(()) => {
                &&& default_file_header_encoding() is Some
                &&& final(w)@ == old(w)@ + default_file_header_encoding()->0
            },
            Err(e) => {
                &&& default_file_header_encoding() is None
                &&& e.source is Variant
                &&& final(w)@ == old(w)@
            },
        },
{
    let header = FileHeader::default();
    proof {
        assert(header.xattrs.deep_view() =~= Seq::<(Seq<u8>, Seq<u8>)>::empty());
    }
    match header.encode_canonical() {
        Ok(header_data) => {
            append_bytes(w, header_data.as_slice());
            Ok(())
        },
        Err(e) => Err(e),
    }
}

/// The checksum of a file with the given content: the digest of the
/// default file header's encoding followed by the content.
pub fn hash_file(content: &[u8]) -> (r: Result<Checksum, RepoError>)
    ensures
        match r {
            Ok(chk) => {
                &&& default_file_header_encoding() is Some
                &&& chk@.len() == DIGEST_LEN
                &&& chk@ == sha256(default_file_header_encoding()->0 + content@)
            },
            Err(e) => default_file_header_encoding() is None && e.source is Variant,
        },
{
    let mut hashed: Vec<u8> = Vec::new();
    match write_header(&mut hashed) {
        Ok(()) => {},
        Err(e) => {
            return Err(e);
        },
    }
    append_bytes(&mut hashed, content);
    Ok(Checksum::hash(hashed.as_slice()))
}

/// What is to be done next to publish an object at its loose path.
#[derive(Debug, Clone, Copy, PartialEq, Eq, Structural)]
pub enum PublishAction {
    /// The object is at its path: nothing is left to do.
    Done,
    /// The bytes are to be written to a temporary file, which is then
    /// moved to the path.
    MoveIntoPlace,
    /// The object came to be at its path in the meantime: the temporary
    /// file is to be removed.
    DropTemporary,
}

/// How moving a temporary file to a loose path ended.
#[derive(Debug)]
pub enum MoveOutcome {
    /// The file is at the path.
    Moved,
    /// There is a file at the path already.
    TargetExists,
    /// The filesystem failed otherwise.
    Failed(IoError),
}

/// What is to be done with an object, given whether there is a file at
/// its loose path: one that is there stays as it is, since a file of that
/// name holds the same bytes.
pub fn publish_step(present: bool) -> (action: PublishAction)
    ensures
        action == if present {
            PublishAction::Done
        } else {
            PublishAction::MoveIntoPlace
        },
{
    if present {
        PublishAction::Done
    } else {
        PublishAction::MoveIntoPlace
    }
}

/// What is to be done once the temporary file was to be moved to the
/// loose path: a file that was there already counts as the object
/// written, and only the temporary file is left to remove; any other
/// failure is the failure of the write.
pub fn after_move(outcome: MoveOutcome) -> (r: Result<PublishAction, RepoError>)
    ensures
        match outcome {
            MoveOutcome::Moved => r == Ok::<PublishAction, RepoError>(PublishAction::Done),
            MoveOutcome::TargetExists => r == Ok::<PublishAction, RepoError>(
                PublishAction::DropTemporary,
            ),
            MoveOutcome::Failed(io) => r matches Err(e) && e.source == RepoErrorKind::Io(io),
        },
{
    match outcome {
        MoveOutcome::Moved => Ok(PublishAction::Done),
        MoveOutcome::TargetExists => Ok(PublishAction::DropTemporary),
        MoveOutcome::Failed(io) => Err(RepoError::from(io)),
    }
}

/// A repository that is opened on the loose objects of another, each
/// given with its path and its bytes, holds the same objects: what was
/// written before is there after the repository is opened again.
pub proof fn lemma_reopened_holds_the_same(repo: OsTreeRepo, found: Seq<(Seq<char>, Seq<u8>)>)
    requires
        repo.wf(),
        found.len() == repo.paths().len(),
        forall|i: int|
            0 <= i < found.len() ==> #[trigger] found[i] == (
                repo.paths()[i],
                repo.objects()[repo.paths()[i]],
            ),
    ensures
        entered(found) == repo.objects(),
{
    let names = repo.objects.names();
    assert(Seq::new(found.len(), |i: int| found[i].0) =~= names);
    crate::schema::lemma_entered_sorted(found);
    assert forall|name: Seq<char>| #[trigger]
        entered(found).contains_key(name) <==> repo.objects().contains_key(name) by {
        if entered(found).contains_key(name) {
            let i = choose|i: int| 0 <= i < found.len() && found[i].0 == name;
            repo.objects.lemma_index_of(i);
        }
        if repo.objects().contains_key(name) {
            let i = names.index_of(name);
            assert(found[i].0 == name);
        }
    }
    assert forall|name: Seq<char>| #[trigger]
        entered(found).contains_key(name) implies entered(found)[name] == repo.objects()[name] by {
        let i = choose|i: int| 0 <= i < found.len() && found[i].0 == name;
        repo.objects.lemma_index_of(i);
    }
    assert(entered(found) =~= repo.objects());
}

} // verus!
