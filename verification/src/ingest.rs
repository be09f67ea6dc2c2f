//! Bringing a directory of the filesystem into a staged tree.
//!
//! The caller reads the directory and hands it over as plain values: for
//! each entry its name as bytes and, for a subdirectory, its entries, for a
//! regular file, its content, and for what could not be read, the failure.
//! Entries are taken in the order given, so what stands before a failure
//! is brought in before the failure is reported.

use crate::digest::sha256;
use crate::error::IoError;
use crate::error::IoErrorKind;
use crate::error::RepoError;
use crate::error::RepoErrorKind;
use crate::mutable_tree::directory_in_the_way;
use crate::mutable_tree::empty_whole;
use crate::mutable_tree::file_in_the_way;
use crate::mutable_tree::lemma_order_independence;
use crate::mutable_tree::materialized_from;
use crate::mutable_tree::MutableTree;
use crate::mutable_tree::TreeView;
use crate::object::loose_path_of;
use crate::object::ObjectType;
use crate::object::RepoMode;
use crate::repo::extends;
use crate::repo::hashed_bytes;
use crate::repo::with_object;
use crate::schema::entered;
use crate::repo::OsTreeRepo;
use vstd::prelude::*;
use vstd::utf8::decode_utf8;
use vstd::utf8::encode_utf8;
use vstd::utf8::valid_utf8;

verus! {

/// What an entry of a directory is.
#[derive(Debug)]
pub enum DirEntryKind {
    /// A subdirectory, with its entries.
    Dir(Vec<DirEntry>),
    /// A regular file, with its content.
    File(Vec<u8>),
    /// Anything else: a link, a device. Such entries are passed over.
    Other,
    /// A subdirectory that could not be opened or listed, with the
    /// failure.
    DirFailed(IoError),
    /// A file that could not be opened or read, or an entry of which not
    /// even the kind could be told, with the failure.
    FileFailed(IoError),
}

/// An entry of a directory as it was read.
#[derive(Debug)]
pub struct DirEntry {
    /// The name of the entry, as the filesystem holds it.
    pub file_name: Vec<u8>,
    pub kind: DirEntryKind,
}

/// A tree that is being staged, together with the objects of the
/// repository that it is staged into.
pub struct Staged {
    pub tree: TreeView,
    pub objects: Map<Seq<char>, Seq<u8>>,
}

/// Why a directory could not be brought in.
pub enum IngestFailure {
    /// An entry's name, given by its bytes, is not valid Unicode.
    InvalidFilename(Seq<u8>),
    /// A subdirectory has the name of a file of the tree.
    FileInTheWay(Seq<char>),
    /// A file has the name of a subdirectory of the tree.
    DirectoryInTheWay(Seq<char>),
    /// A lazy tree could not be read from the repository.
    Unreadable,
    /// The codec refused the file header.
    Unencodable,
    /// The filesystem failed on an entry: the kind of failure and the
    /// words for it.
    ReadFailed(IoErrorKind, Seq<char>),
}

/// A failure to bring a directory in, with the objects that the repository
/// holds when it comes: what was written before it stays written.
pub struct Failed {
    pub failure: IngestFailure,
    pub objects: Map<Seq<char>, Seq<u8>>,
}

/// Calls `std::str::from_utf8`. The bytes are a string exactly if they are
/// valid UTF-8, and then the string is the one they encode.
#[verifier::external_body]
fn utf8_name(bytes: &[u8]) -> (r: Option<&str>)
    ensures
        match r {
            Some(name) => valid_utf8(bytes@) && encode_utf8(name@) == bytes@,
            None => !valid_utf8(bytes@),
        },
{
    std::str::from_utf8(bytes).ok()
}

/// What becomes of a staged tree when one entry is brought in: a
/// subdirectory is found or made and its entries are brought into it; a
/// file's content is written as a file object and its checksum put under
/// its name; anything else is passed over. A file's content is written
/// before its name is looked at, so it stays written where the name is
/// then refused. What could not be read ends it with the failure of the
/// filesystem; for a subdirectory the tree is asked for its place first.
pub open spec fn ingest_entry(state: Staged, mode: RepoMode, entry: DirEntry) -> Result<
    Staged,
    Failed,
>
    decreases entry, 0nat,
{
    if !valid_utf8(entry.file_name@) {
        Err(
            Failed {
                failure: IngestFailure::InvalidFilename(entry.file_name@),
                objects: state.objects,
            },
        )
    } else {
        let name = decode_utf8(entry.file_name@);
        match entry.kind {
            DirEntryKind::Dir(children) => match materialized_from(state.tree, state.objects, mode) {
                Some(TreeView::Whole(files, subdirs)) => if files.contains_key(name) {
                    Err(Failed { failure: IngestFailure::FileInTheWay(name), objects: state.objects })
                } else {
                    let child = if subdirs.contains_key(name) {
                        subdirs[name]
                    } else {
                        empty_whole()
                    };
                    match ingest_entries(
                        Staged { tree: child, objects: state.objects },
                        mode,
                        children@,
                        children@.len() as int,
                    ) {
                        Ok(inner) => Ok(
                            Staged {
                                tree: TreeView::Whole(files, subdirs.insert(name, inner.tree)),
                                objects: inner.objects,
                            },
                        ),
                        Err(failed) => Err(failed),
                    }
                },
                _ => Err(Failed { failure: IngestFailure::Unreadable, objects: state.objects }),
            },
            DirEntryKind::File(content) => match hashed_bytes(ObjectType::File, mode, content@) {
                Some(hashed) => {
                    let objects = with_object(
                        state.objects,
                        loose_path_of(sha256(hashed), ObjectType::File, mode),
                        content@,
                    );
                    match materialized_from(state.tree, objects, mode) {
                        Some(TreeView::Whole(files, subdirs)) => if subdirs.contains_key(name) {
                            Err(Failed { failure: IngestFailure::DirectoryInTheWay(name), objects })
                        } else {
                            Ok(
                                Staged {
                                    tree: TreeView::Whole(
                                        files.insert(name, sha256(hashed)),
                                        subdirs,
                                    ),
                                    objects,
                                },
                            )
                        },
                        _ => Err(Failed { failure: IngestFailure::Unreadable, objects }),
                    }
                },
                None => Err(Failed { failure: IngestFailure::Unencodable, objects: state.objects }),
            },
            DirEntryKind::Other => Ok(state),
            DirEntryKind::DirFailed(io) => match materialized_from(state.tree, state.objects, mode) {
                Some(TreeView::Whole(files, _)) => if files.contains_key(name) {
                    Err(Failed { failure: IngestFailure::FileInTheWay(name), objects: state.objects })
                } else {
                    Err(
                        Failed {
                            failure: IngestFailure::ReadFailed(io.kind, io.message@),
                            objects: state.objects,
                        },
                    )
                },
                _ => Err(Failed { failure: IngestFailure::Unreadable, objects: state.objects }),
            },
            DirEntryKind::FileFailed(io) => Err(
                Failed {
                    failure: IngestFailure::ReadFailed(io.kind, io.message@),
                    objects: state.objects,
                },
            ),
        }
    }
}

/// What becomes of a staged tree when the first `n` of the entries are
/// brought in, one after the other. The first failure ends it.
pub open spec fn ingest_entries(state: Staged, mode: RepoMode, entries: Seq<DirEntry>, n: int) -> Result<
    Staged,
    Failed,
>
    decreases entries, n,
{
    if 0 < n <= entries.len() {
        match ingest_entries(state, mode, entries, n - 1) {
            Ok(before) => ingest_entry(before, mode, entries[n - 1]),
            Err(failed) => Err(failed),
        }
    } else {
        Ok(state)
    }
}

/// Whether the error `e` reports the failure `failure`.
pub open spec fn reports(e: RepoError, failure: IngestFailure) -> bool {
    match failure {
        IngestFailure::InvalidFilename(raw) => e.source matches RepoErrorKind::InvalidFilename(name)
            && name@ == raw,
        IngestFailure::FileInTheWay(name) => e.source matches RepoErrorKind::InvalidMtree(message)
            && message@ == file_in_the_way(name),
        IngestFailure::DirectoryInTheWay(name) => e.source matches RepoErrorKind::InvalidMtree(
            message,
        ) && message@ == directory_in_the_way(name),
        IngestFailure::Unreadable => e.source is UnsupportedMode || e.source is Io || e.source
            is Variant,
        IngestFailure::Unencodable => e.source is Variant,
        IngestFailure::ReadFailed(kind, message) => e.source matches RepoErrorKind::Io(io) && io.kind
            == kind && io.message@ == message,
    }
}

/// A copy of a byte string.
fn copy_bytes(bytes: &Vec<u8>) -> (copy: Vec<u8>)
    ensures
        copy@ == bytes@,
{
    bytes.clone()
}

/// A copy of a failure of the filesystem.
fn copy_failure(io: &IoError) -> (copy: IoError)
    ensures
        copy.kind == io.kind,
        copy.message@ == io.message@,
{
    IoError { kind: io.kind, message: io.message.clone() }
}

impl OsTreeRepo {
    /// Brings the entries of a directory into the tree, in the order
    /// given: subdirectories with all that is below them, files by writing
    /// their content to the repository. The first entry that cannot be
    /// brought in ends the call with its failure; what was written before
    /// stays written, and nothing is written after.
    pub fn write_dfd_to_mtree(&mut self, dfd: &Vec<DirEntry>, mtree: &mut MutableTree) -> (r: Result<
        (),
        RepoError,
    >)
        requires
            old(self).wf(),
            old(mtree).wf(),
        ensures
            final(self).wf(),
            final(self).config() == old(self).config(),
            extends(final(self).objects(), old(self).objects()),
            final(mtree).wf(),
            match ingest_entries(
                Staged { tree: old(mtree)@, objects: old(self).objects() },
                old(self).config().core.mode,
                dfd@,
                dfd@.len() as int,
            ) {
                Ok(state) => {
                    &&& r is Ok
                    &&& final(mtree)@ == state.tree
                    &&& final(self).objects() == state.objects
                },
                Err(failed) => {
                    &&& r matches Err(e)
                    &&& reports(e, failed.failure)
                    &&& final(self).objects() == failed.objects
                },
            },
        decreases dfd,
    {
        let ghost start = Staged { tree: mtree@, objects: self.objects() };
        let ghost mode = self.config().core.mode;
        let n = dfd.len();
        let mut i: usize = 0;
        while i < n
            invariant
                n == dfd@.len(),
                i <= n,
                start == (Staged { tree: old(mtree)@, objects: old(self).objects() }),
                mode == old(self).config().core.mode,
                self.wf(),
                self.config() == old(self).config(),
                extends(self.objects(), old(self).objects()),
                mtree.wf(),
                ingest_entries(start, mode, dfd@, i as int) == Ok::<Staged, Failed>(
                    Staged { tree: mtree@, objects: self.objects() },
                ),
            decreases n - i,
        {
            let item = &dfd[i];
            let ghost before = Staged { tree: mtree@, objects: self.objects() };
            let ghost objects_before = self.objects();
            proof {
                lemma_ingest_step(start, mode, dfd@, i as int);
                if ingest_entries(start, mode, dfd@, i as int + 1) is Err {
                    lemma_ingest_failure_stays(start, mode, dfd@, i as int + 1, n as int);
                }
            }
            let filename = match utf8_name(item.file_name.as_slice()) {
                Some(name) => name,
                None => {
                    return Err(
                        RepoError::from(RepoErrorKind::InvalidFilename(copy_bytes(&item.file_name))),
                    );
                },
            };
            proof {
                vstd::utf8::encode_utf8_decode_utf8(filename@);
            }
            match &item.kind {
                DirEntryKind::Dir(children) => {
                    let child = match mtree.ensure_dir(&*self, filename) {
                        Ok(child) => child,
                        Err(e) => {
                            return Err(e);
                        },
                    };
                    proof {
                        broadcast use vstd::std_specs::vec::group_vec_axioms;

                        assert(decreases_to!(dfd => dfd@));
                        assert(decreases_to!(dfd@ => dfd@[i as int]));
                        assert(decreases_to!(dfd@[i as int] => dfd@[i as int].kind));
                        assert(decreases_to!(dfd@[i as int].kind => children));
                    }
                    match self.write_dfd_to_mtree(children, child) {
                        Ok(()) => {},
                        Err(e) => {
                            return Err(e);
                        },
                    }
                },
                DirEntryKind::File(content) => {
                    let chk = match self.write_raw_file(content.as_slice()) {
                        Ok(chk) => chk,
                        Err(e) => {
                            return Err(e);
                        },
                    };
                    match mtree.replace_file(&*self, filename, chk) {
                        Ok(()) => {},
                        Err(e) => {
                            return Err(e);
                        },
                    }
                },
                DirEntryKind::Other => {},
                DirEntryKind::DirFailed(io) => {
                    match mtree.ensure_dir(&*self, filename) {
                        Ok(_) => {},
                        Err(e) => {
                            return Err(e);
                        },
                    }
                    return Err(RepoError::from(copy_failure(io)));
                },
                DirEntryKind::FileFailed(io) => {
                    return Err(RepoError::from(copy_failure(io)));
                },
            }
            i += 1;
        }
        Ok(())
    }
}

impl MutableTree {
    /// A new tree that holds the entries of a directory, files written to
    /// the repository and subdirectories with all that is below them.
    pub fn new_recursive_blank(repo: &mut OsTreeRepo, dir: &Vec<DirEntry>) -> (r: Result<
        MutableTree,
        RepoError,
    >)
        requires
            old(repo).wf(),
        ensures
            final(repo).wf(),
            final(repo).config() == old(repo).config(),
            extends(final(repo).objects(), old(repo).objects()),
            match ingest_entries(
                Staged { tree: empty_whole(), objects: old(repo).objects() },
                old(repo).config().core.mode,
                dir@,
                dir@.len() as int,
            ) {
                Ok(state) => {
                    &&& r matches Ok(tree)
                    &&& tree.wf()
                    &&& tree@ == state.tree
                    &&& final(repo).objects() == state.objects
                },
                Err(failed) => {
                    &&& r matches Err(e)
                    &&& reports(e, failed.failure)
                    &&& final(repo).objects() == failed.objects
                },
            },
    {
        let mut result = MutableTree::new();
        match repo.write_dfd_to_mtree(dir, &mut result) {
            Ok(()) => Ok(result),
            Err(e) => Err(e),
        }
    }
}

/// Bringing in one more entry is bringing in the entries before it and
/// then that one.
pub proof fn lemma_ingest_step(state: Staged, mode: RepoMode, entries: Seq<DirEntry>, i: int)
    requires
        0 <= i < entries.len(),
    ensures
        ingest_entries(state, mode, entries, i + 1) == match ingest_entries(state, mode, entries, i) {
            Ok(before) => ingest_entry(before, mode, entries[i]),
            Err(failed) => Err(failed),
        },
{
}

/// Once an entry has failed, the entries behind it change nothing.
pub proof fn lemma_ingest_failure_stays(
    state: Staged,
    mode: RepoMode,
    entries: Seq<DirEntry>,
    i: int,
    n: int,
)
    requires
        0 <= i <= n <= entries.len(),
        ingest_entries(state, mode, entries, i) is Err,
    ensures
        ingest_entries(state, mode, entries, n) == ingest_entries(state, mode, entries, i),
    decreases n - i,
{
    if i < n {
        lemma_ingest_failure_stays(state, mode, entries, i, n - 1);
    }
}

/// Whether the content of a file can be given a checksum at all: it can
/// unless the codec refuses the header that goes before it.
pub open spec fn files_hashable(mode: RepoMode) -> bool {
    hashed_bytes(ObjectType::File, mode, Seq::<u8>::empty()) is Some
}

/// Whether every entry is a regular file with a name that is valid
/// Unicode.
pub open spec fn plain_files(entries: Seq<DirEntry>) -> bool {
    forall|i: int|
        0 <= i < entries.len() ==> (#[trigger] entries[i]).kind is File && valid_utf8(
            entries[i].file_name@,
        )
}

/// The name of an entry.
pub open spec fn entry_name(entry: DirEntry) -> Seq<char> {
    decode_utf8(entry.file_name@)
}

/// The checksum under which the content of a file entry is written.
pub open spec fn file_checksum(mode: RepoMode, entry: DirEntry) -> Seq<u8> {
    sha256(hashed_bytes(ObjectType::File, mode, entry.kind->File_0@)->0)
}

/// What the first `n` entries, all of them files, put into a tree: each
/// name with the checksum of its content.
pub open spec fn staged_files(mode: RepoMode, entries: Seq<DirEntry>, n: int) -> Seq<
    (Seq<char>, Seq<u8>),
> {
    Seq::new(n as nat, |i: int| (entry_name(entries[i]), file_checksum(mode, entries[i])))
}

/// Whether no two entries have the same name.
pub open spec fn distinct_names(entries: Seq<DirEntry>) -> bool {
    forall|i: int, j: int|
        0 <= i < j < entries.len() ==> entry_name(#[trigger] entries[i]) != entry_name(
            #[trigger] entries[j],
        )
}

/// What a list of entries gives when they are entered and no name occurs
/// twice: each name with its own value, and no other name.
pub proof fn lemma_entered_distinct<V>(entries: Seq<(Seq<char>, V)>)
    requires
        forall|i: int, j: int|
            0 <= i < j < entries.len() ==> (#[trigger] entries[i]).0 != (#[trigger] entries[j]).0,
    ensures
        forall|i: int|
            0 <= i < entries.len() ==> entered(entries).contains_key((#[trigger] entries[i]).0)
                && entered(entries)[entries[i].0] == entries[i].1,
        forall|name: Seq<char>| #[trigger]
            entered(entries).contains_key(name) ==> exists|i: int|
                0 <= i < entries.len() && entries[i].0 == name,
    decreases entries.len(),
{
    if entries.len() > 0 {
        let front = entries.drop_last();
        let last = entries.last();
        assert forall|i: int, j: int| 0 <= i < j < front.len() implies (#[trigger] front[i]).0 != (
        #[trigger] front[j]).0 by {
            assert(front[i] == entries[i] && front[j] == entries[j]);
        }
        lemma_entered_distinct(front);
        assert forall|i: int| 0 <= i < entries.len() implies entered(entries).contains_key(
            (#[trigger] entries[i]).0,
        ) && entered(entries)[entries[i].0] == entries[i].1 by {
            if i < front.len() {
                assert(front[i] == entries[i]);
                assert(entries[i].0 != entries[entries.len() - 1].0);
            }
        }
        assert forall|name: Seq<char>| #[trigger] entered(entries).contains_key(name) implies exists|
            i: int,
        |
            0 <= i < entries.len() && entries[i].0 == name by {
            if name == last.0 {
                assert(entries[entries.len() - 1].0 == name);
            } else {
                assert(entered(front).contains_key(name));
                let i = choose|i: int| 0 <= i < front.len() && front[i].0 == name;
                assert(entries[i].0 == name);
            }
        }
    }
}

/// What bringing in files does to a whole tree: where the content of files
/// can be given a checksum and none of the names is that of a
/// subdirectory, each name is put with the checksum of its content, a
/// later one in place of an earlier one; otherwise bringing them in fails.
pub proof fn lemma_ingest_files(state: Staged, mode: RepoMode, entries: Seq<DirEntry>, n: int)
    requires
        state.tree is Whole,
        0 <= n <= entries.len(),
        plain_files(entries),
    ensures
        match ingest_entries(state, mode, entries, n) {
            Ok(after) => {
                &&& n > 0 ==> files_hashable(mode)
                &&& forall|i: int|
                    0 <= i < n ==> !state.tree->Whole_1.contains_key(
                        entry_name(#[trigger] entries[i]),
                    )
                &&& after.tree == TreeView::Whole(
                    state.tree->Whole_0.union_prefer_right(
                        entered(staged_files(mode, entries, n)),
                    ),
                    state.tree->Whole_1,
                )
            },
            Err(_) => {
                ||| n > 0 && !files_hashable(mode)
                ||| exists|i: int|
                    0 <= i < n && state.tree->Whole_1.contains_key(
                        entry_name(#[trigger] entries[i]),
                    )
            },
        },
    decreases n,
{
    let files = state.tree->Whole_0;
    let subdirs = state.tree->Whole_1;
    if n == 0 {
        assert(staged_files(mode, entries, 0) =~= Seq::empty());
        assert(files.union_prefer_right(entered(staged_files(mode, entries, 0))) =~= files);
    } else {
        lemma_ingest_files(state, mode, entries, n - 1);
        lemma_ingest_step(state, mode, entries, n - 1);
        let entry = entries[n - 1];
        assert(entry.kind is File && valid_utf8(entry.file_name@));
        match ingest_entries(state, mode, entries, n - 1) {
            Ok(before) => {
                let staged = staged_files(mode, entries, n);
                assert(staged.drop_last() =~= staged_files(mode, entries, n - 1));
                assert(staged.last() == (entry_name(entry), file_checksum(mode, entry)));
                let content = entry.kind->File_0@;
                assert(hashed_bytes(ObjectType::File, mode, content) is Some <==> files_hashable(
                    mode,
                ));
                if files_hashable(mode) && !subdirs.contains_key(entry_name(entry)) {
                    assert(files.union_prefer_right(entered(staged)) =~= files.union_prefer_right(
                        entered(staged.drop_last()),
                    ).insert(entry_name(entry), file_checksum(mode, entry)));
                }
            },
            Err(_) => {},
        }
    }
}

/// Where a list holds each entry of another, it holds the entry at a
/// given place of that other at a place of its own, and puts the same
/// there.
proof fn lemma_staged_at(mode: RepoMode, a: Seq<DirEntry>, b: Seq<DirEntry>, i: int) -> (j: int)
    requires
        0 <= i < a.len(),
        forall|e: DirEntry| a.contains(e) ==> b.contains(e),
    ensures
        0 <= j < b.len(),
        b[j] == a[i],
        staged_files(mode, b, b.len() as int)[j] == staged_files(mode, a, a.len() as int)[i],
{
    assert(a.contains(a[i]));
    choose|j: int| 0 <= j < b.len() && b[j] == a[i]
}

/// Entries with different names put different names into a tree.
proof fn lemma_different_names_staged(mode: RepoMode, entries: Seq<DirEntry>)
    requires
        distinct_names(entries),
    ensures
        forall|i: int, j: int|
            0 <= i < j < entries.len() ==> (#[trigger] staged_files(
                mode,
                entries,
                entries.len() as int,
            )[i]).0 != (#[trigger] staged_files(mode, entries, entries.len() as int)[j]).0,
{
    let staged = staged_files(mode, entries, entries.len() as int);
    assert forall|i: int, j: int| 0 <= i < j < entries.len() implies (#[trigger] staged[i]).0 != (
    #[trigger] staged[j]).0 by {
        assert(entry_name(entries[i]) != entry_name(entries[j]));
    }
}

/// What the files of a list put into a tree is within what the files of
/// a list that holds each of them put there.
proof fn lemma_staged_within(mode: RepoMode, a: Seq<DirEntry>, b: Seq<DirEntry>)
    requires
        distinct_names(a),
        distinct_names(b),
        forall|e: DirEntry| a.contains(e) ==> b.contains(e),
    ensures
        forall|name: Seq<char>| #[trigger]
            entered(staged_files(mode, a, a.len() as int)).contains_key(name) ==> entered(
                staged_files(mode, b, b.len() as int),
            ).contains_key(name) && entered(staged_files(mode, b, b.len() as int))[name] == entered(
                staged_files(mode, a, a.len() as int),
            )[name],
{
    let sa = staged_files(mode, a, a.len() as int);
    let sb = staged_files(mode, b, b.len() as int);
    lemma_different_names_staged(mode, a);
    lemma_different_names_staged(mode, b);
    lemma_entered_distinct(sa);
    lemma_entered_distinct(sb);
    assert forall|name: Seq<char>| #[trigger] entered(sa).contains_key(name) implies entered(
        sb,
    ).contains_key(name) && entered(sb)[name] == entered(sa)[name] by {
        let i = choose|i: int| 0 <= i < sa.len() && sa[i].0 == name;
        let j = lemma_staged_at(mode, a, b, i);
        assert(entered(sa)[sa[i].0] == sa[i].1);
        assert(entered(sb).contains_key(sb[j].0) && entered(sb)[sb[j].0] == sb[j].1);
    }
}

/// Where a name of one list is that of a subdirectory, so is a name of a
/// list that holds each entry of the first.
proof fn lemma_collision_within(
    subdirs: Map<Seq<char>, TreeView>,
    mode: RepoMode,
    a: Seq<DirEntry>,
    b: Seq<DirEntry>,
)
    requires
        forall|e: DirEntry| a.contains(e) ==> b.contains(e),
        exists|i: int| 0 <= i < a.len() && subdirs.contains_key(entry_name(#[trigger] a[i])),
    ensures
        exists|j: int| 0 <= j < b.len() && subdirs.contains_key(entry_name(#[trigger] b[j])),
{
    let i = choose|i: int| 0 <= i < a.len() && subdirs.contains_key(entry_name(#[trigger] a[i]));
    let j = lemma_staged_at(mode, a, b, i);
    assert(subdirs.contains_key(entry_name(b[j])));
}

/// Files with different names give the same tree in whichever order they
/// are brought into a whole tree, and where one order fails the other
/// fails too.
pub proof fn lemma_ingest_files_any_order(
    state: Staged,
    mode: RepoMode,
    a: Seq<DirEntry>,
    b: Seq<DirEntry>,
)
    requires
        state.tree is Whole,
        plain_files(a),
        plain_files(b),
        distinct_names(a),
        distinct_names(b),
        forall|e: DirEntry| a.contains(e) <==> b.contains(e),
    ensures
        match (
            ingest_entries(state, mode, a, a.len() as int),
            ingest_entries(state, mode, b, b.len() as int),
        ) {
            (Ok(one), Ok(other)) => one.tree == other.tree,
            (Err(_), Err(_)) => true,
            _ => false,
        },
{
    lemma_ingest_files(state, mode, a, a.len() as int);
    lemma_ingest_files(state, mode, b, b.len() as int);
    let subdirs = state.tree->Whole_1;
    let one = ingest_entries(state, mode, a, a.len() as int);
    let other = ingest_entries(state, mode, b, b.len() as int);
    if a.len() > 0 {
        lemma_staged_at(mode, a, b, 0);
    }
    if b.len() > 0 {
        lemma_staged_at(mode, b, a, 0);
    }
    if exists|i: int| 0 <= i < a.len() && subdirs.contains_key(entry_name(#[trigger] a[i])) {
        lemma_collision_within(subdirs, mode, a, b);
    }
    if exists|i: int| 0 <= i < b.len() && subdirs.contains_key(entry_name(#[trigger] b[i])) {
        lemma_collision_within(subdirs, mode, b, a);
    }
    if one is Ok && other is Ok {
        lemma_staged_within(mode, a, b);
        lemma_staged_within(mode, b, a);
        assert(entered(staged_files(mode, a, a.len() as int)) =~= entered(
            staged_files(mode, b, b.len() as int),
        ));
    }
}

/// Two trees into which the same files were brought, in whichever order,
/// have the same checksums once they are finalized.
pub proof fn lemma_ingest_order_independence(
    state: Staged,
    mode: RepoMode,
    a: Seq<DirEntry>,
    b: Seq<DirEntry>,
    one: MutableTree,
    other: MutableTree,
)
    requires
        state.tree is Whole,
        plain_files(a),
        plain_files(b),
        distinct_names(a),
        distinct_names(b),
        forall|e: DirEntry| a.contains(e) <==> b.contains(e),
        one.wf(),
        other.wf(),
        ingest_entries(state, mode, a, a.len() as int) matches Ok(after) && one@ == after.tree,
        ingest_entries(state, mode, b, b.len() as int) matches Ok(after) && other@ == after.tree,
    ensures
        one@ == other@,
        one.finalized() == other.finalized(),
{
    lemma_ingest_files_any_order(state, mode, a, b);
    lemma_order_independence(one, other);
}

} // verus!
