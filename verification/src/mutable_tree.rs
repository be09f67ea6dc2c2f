//! The tree in which a snapshot is staged before it is committed.
//!
//! A tree is lazy, known by the checksums of a directory that the
//! repository holds, or whole, with its files and subdirectories at hand.
//! Only a whole tree is changed. Finalizing a whole tree writes it to the
//! repository, children before parents, and leaves its checksums.

use crate::checksum::Checksum;
use crate::codec::file_entries_of;
use crate::codec::gvariant_dirtree;
use crate::codec::gvariant_dirtree_parsed;
use crate::digest::sha256;
use crate::digest::DIGEST_LEN;
use crate::error::RepoError;
use crate::error::RepoErrorKind;
use crate::name_map::NameMap;
use crate::object::loose_path_of;
use crate::object::ObjectType;
use crate::object::RepoMode;
use crate::repo::extends;
use crate::repo::object_in;
use crate::repo::with_object;
use crate::repo::OsTreeRepo;
use crate::schema::default_dirmeta_encoding;
use crate::schema::entered;
use crate::schema::lemma_entered_sorted;
use crate::schema::DirMeta;
use crate::schema::Encode;
use crate::schema::parsed_dir_entries;
use crate::schema::parsed_file_entries;
use crate::schema::DirTree;
use crate::schema::DirTreeChecksums;
use vstd::prelude::*;
use vstd::string::StringExecFns;

verus! {

/// The two checksums of a directory, as byte strings.
pub struct ChecksumPair {
    pub checksum: Seq<u8>,
    pub meta_checksum: Seq<u8>,
}

/// What a tree holds, whatever the order in which it was filled: for a
/// lazy tree its checksums, for a whole tree the checksum of each file and
/// what each subdirectory holds, by name.
pub enum TreeView {
    Lazy(ChecksumPair),
    Whole(Map<Seq<char>, Seq<u8>>, Map<Seq<char>, TreeView>),
}

/// A tree that is known by its checksums only.
#[derive(Debug)]
pub struct MutableTreeLazy {
    pub checksums: DirTreeChecksums,
}

/// A tree with its files and subdirectories at hand.
#[derive(Debug)]
pub struct MutableTreeWhole {
    pub files: NameMap<Checksum>,
    pub subdirs: NameMap<MutableTree>,
}

/// A tree in which a snapshot is staged.
#[derive(Debug)]
pub enum MutableTree {
    Lazy(MutableTreeLazy),
    Whole(MutableTreeWhole),
}

impl MutableTreeLazy {
    /// The checksums of the tree, as byte strings.
    pub open spec fn pair(&self) -> ChecksumPair {
        ChecksumPair {
            checksum: self.checksums.checksum@,
            meta_checksum: self.checksums.meta_checksum@,
        }
    }
}

impl MutableTreeWhole {
    /// Whether the subdirectory at position `i` is well formed.
    pub open spec fn child_wf(&self, i: int) -> bool
        decreases self, 0nat,
    {
        if 0 <= i < self.subdirs.entries().len() {
            proof {
                self.subdirs.lemma_entry_smaller(i);
            }
            self.subdirs.values()[i].wf()
        } else {
            true
        }
    }

    /// The invariant: both maps hold their entries in the order of names,
    /// and so does every tree below.
    pub open spec fn wf(&self) -> bool
        decreases self, 1nat,
    {
        &&& self.files.wf()
        &&& self.subdirs.wf()
        &&& forall|i: int|
            #![trigger self.subdirs.values()[i]]
            0 <= i < self.subdirs.entries().len() ==> self.child_wf(i)
    }

    /// A well-formed tree has well-formed subdirectories.
    pub proof fn lemma_child_wf(&self, i: int)
        requires
            self.wf(),
            0 <= i < self.subdirs.entries().len(),
        ensures
            self.subdirs.values()[i].wf(),
    {
        assert(self.subdirs.values()[i] == self.subdirs.values()[i]);
        assert(self.child_wf(i));
    }

    /// A tree with well-formed maps and well-formed subdirectories is well
    /// formed.
    pub proof fn lemma_wf_from_children(&self)
        requires
            self.files.wf(),
            self.subdirs.wf(),
            forall|i: int|
                0 <= i < self.subdirs.entries().len() ==> (#[trigger] self.subdirs.values()[i]).wf(),
        ensures
            self.wf(),
    {
        assert forall|i: int|
            #![trigger self.subdirs.values()[i]]
            0 <= i < self.subdirs.entries().len() implies self.child_wf(i) by {
            assert(self.subdirs.values()[i].wf());
        }
    }

    /// The checksum of each file, by name.
    pub open spec fn file_map(&self) -> Map<Seq<char>, Seq<u8>> {
        self.files.map().map_values(|c: Checksum| c@)
    }

    /// What each subdirectory holds, by name.
    pub open spec fn subdir_map(&self) -> Map<Seq<char>, TreeView>
        decreases self, 0nat,
    {
        Map::new(
            |name: Seq<char>| self.subdirs.names().contains(name),
            |name: Seq<char>|
                if self.subdirs.names().contains(name) {
                    proof {
                        self.subdirs.lemma_entry_smaller(self.subdirs.names().index_of(name));
                    }
                    self.subdirs.values()[self.subdirs.names().index_of(name)].view()
                } else {
                    arbitrary()
                },
        )
    }

    /// What the tree holds.
    pub open spec fn view(&self) -> TreeView
        decreases self, 1nat,
    {
        TreeView::Whole(self.file_map(), self.subdir_map())
    }
}

/// The view of a whole tree without entries.
pub open spec fn empty_whole() -> TreeView {
    TreeView::Whole(Map::empty(), Map::empty())
}

/// The lazy tree that a pair of checksums stands for.
pub open spec fn lazy_of(pair: (Seq<u8>, Seq<u8>)) -> TreeView {
    TreeView::Lazy(ChecksumPair { checksum: pair.0, meta_checksum: pair.1 })
}

/// What a tree holds once it is whole: a whole tree what it holds; a lazy
/// tree what the directory of that checksum among `objects` lists, each
/// subdirectory lazy in its turn. There is no such thing where the
/// directory cannot be read.
pub open spec fn materialized_from(
    view: TreeView,
    objects: Map<Seq<char>, Seq<u8>>,
    mode: RepoMode,
) -> Option<TreeView> {
    match view {
        TreeView::Whole(_, _) => Some(view),
        TreeView::Lazy(pair) => match object_in(objects, mode, ObjectType::DirTree, pair.checksum) {
            Some(bytes) => if mode == RepoMode::BareUserOnly && gvariant_dirtree_parsed(bytes)
                is Some {
                Some(
                    TreeView::Whole(
                        entered(parsed_file_entries(bytes)),
                        entered(parsed_dir_entries(bytes)).map_values(
                            |pair: (Seq<u8>, Seq<u8>)| lazy_of(pair),
                        ),
                    ),
                )
            } else {
                None
            },
            None => None,
        },
    }
}

/// What a tree holds once it is made whole from the repository.
pub open spec fn materialized(view: TreeView, repo: &OsTreeRepo) -> Option<TreeView> {
    materialized_from(view, repo.objects(), repo.config().core.mode)
}

impl MutableTreeWhole {
    /// What a well-formed tree holds for its subdirectories is what its
    /// map of subdirectories gives, each seen as what it holds.
    pub proof fn lemma_subdir_map(&self)
        requires
            self.subdirs.wf(),
        ensures
            self.subdir_map().dom() == self.subdirs.map().dom(),
            forall|name: Seq<char>| #[trigger]
                self.subdirs.map().contains_key(name) ==> self.subdir_map()[name]
                    == self.subdirs.map()[name]@,
    {
        assert(self.subdir_map().dom() =~= self.subdirs.map().dom());
    }

    /// Putting a tree under a name changes what is held under that name,
    /// and nothing else.
    pub proof fn lemma_subdir_map_insert(
        &self,
        before: MutableTreeWhole,
        name: Seq<char>,
        tree: MutableTree,
    )
        requires
            before.subdirs.wf(),
            self.subdirs.wf(),
            self.subdirs.map() == before.subdirs.map().insert(name, tree),
        ensures
            self.subdir_map() == before.subdir_map().insert(name, tree@),
    {
        self.lemma_subdir_map();
        before.lemma_subdir_map();
        assert(self.subdir_map() =~= before.subdir_map().insert(name, tree@));
    }

    /// A whole tree without entries.
    pub fn new() -> (w: MutableTreeWhole)
        ensures
            w.wf(),
            w@ == empty_whole(),
            w.files.entries().len() == 0,
            w.subdirs.entries().len() == 0,
    {
        let w = MutableTreeWhole { files: NameMap::new(), subdirs: NameMap::new() };
        proof {
            assert(w.file_map() =~= Map::empty());
            assert(w.subdirs.names() =~= Seq::empty());
            assert(w.subdir_map() =~= Map::empty());
        }
        w
    }
}

impl MutableTreeLazy {
    /// The tree with its entries at hand, as the repository's directory of
    /// its checksum lists them. Each subdirectory is lazy in its turn.
    pub fn to_whole(&self, repo: &OsTreeRepo) -> (r: Result<MutableTreeWhole, RepoError>)
        requires
            repo.wf(),
        ensures
            match r {
                Ok(w) => w.wf() && materialized(TreeView::Lazy(self.pair()), repo) == Some(w@),
                Err(e) => {
                    &&& materialized(TreeView::Lazy(self.pair()), repo) is None
                    &&& repo.dirtree_load_failure(self.checksums.checksum@, e)
                },
            },
    {
        let dirtree = match repo.load_dirtree(&self.checksums.checksum) {
            Ok(t) => t,
            Err(e) => {
                return Err(e);
            },
        };
        Ok(MutableTreeWhole::from_dirtree(dirtree))
    }
}

impl MutableTreeWhole {
    /// The whole tree that a directory describes: its files, and each of
    /// its subdirectories as a lazy tree.
    pub fn from_dirtree(dtree: DirTree) -> (w: MutableTreeWhole)
        requires
            dtree.wf(),
        ensures
            w.wf(),
            w@ == TreeView::Whole(
                dtree.file_map(),
                dtree.dir_map().map_values(|pair: (Seq<u8>, Seq<u8>)| lazy_of(pair)),
            ),
    {
        let DirTree { files, dirs } = dtree;
        let mut subdirs: NameMap<MutableTree> = NameMap::new();
        let n = dirs.len();
        let mut i: usize = 0;
        while i < n
            invariant
                n == dirs.entries().len(),
                i <= n,
                dirs.wf(),
                subdirs.wf(),
                subdirs.names() == dirs.names().take(i as int),
                subdirs.values().len() == i,
                forall|j: int|
                    0 <= j < i ==> (#[trigger] subdirs.values()[j])@ == lazy_of(
                        (dirs.values()[j].checksum@, dirs.values()[j].meta_checksum@),
                    ),
            decreases n - i,
        {
            let name = dirs.name_at(i).clone();
            let checksums = dirs.value_at(i).clone();
            proof {
                assert forall|j: int| 0 <= j < subdirs.names().len() implies crate::names::name_lt(
                    #[trigger] subdirs.names()[j],
                    name@,
                ) by {
                    assert(crate::names::name_lt(dirs.names()[j], dirs.names()[i as int]));
                }
            }
            let ghost before = subdirs;
            subdirs.push_last(name, MutableTree::Lazy(MutableTreeLazy { checksums }));
            proof {
                assert(dirs.names().take(i + 1) =~= dirs.names().take(i as int).push(name@));
            }
            i += 1;
        }
        let w = MutableTreeWhole { files, subdirs };
        proof {
            assert(dirs.names().take(n as int) =~= dirs.names());
            w.lemma_wf_from_children();
            let expected = dtree.dir_map().map_values(|pair: (Seq<u8>, Seq<u8>)| lazy_of(pair));
            assert(w.subdir_map() =~= expected) by {
                assert forall|name: Seq<char>| #[trigger]
                    w.subdir_map().contains_key(name) implies w.subdir_map()[name]
                    == expected[name] by {
                    let j = w.subdirs.names().index_of(name);
                    w.subdirs.lemma_index_of(j);
                    dirs.lemma_index_of(j);
                }
            }
        }
        w
    }
}

impl MutableTree {
    /// The invariant: every map of the tree holds its entries in the order
    /// of names.
    pub open spec fn wf(&self) -> bool
        decreases self, 0nat,
    {
        match self {
            MutableTree::Lazy(_) => true,
            MutableTree::Whole(w) => w.wf(),
        }
    }

    /// What the tree holds.
    pub open spec fn view(&self) -> TreeView
        decreases self, 0nat,
    {
        match self {
            MutableTree::Lazy(l) => TreeView::Lazy(l.pair()),
            MutableTree::Whole(w) => w.view(),
        }
    }
}

impl MutableTree {
    /// A whole tree without entries.
    pub fn new() -> (tree: MutableTree)
        ensures
            tree.wf(),
            tree@ == empty_whole(),
            tree is Whole,
    {
        MutableTree::Whole(MutableTreeWhole::new())
    }

    /// The whole tree that a directory describes: its files, and each of
    /// its subdirectories as a lazy tree.
    pub fn from_dirtree_chk(dtree: DirTree) -> (tree: MutableTree)
        requires
            dtree.wf(),
        ensures
            tree.wf(),
            tree@ == TreeView::Whole(
                dtree.file_map(),
                dtree.dir_map().map_values(|pair: (Seq<u8>, Seq<u8>)| lazy_of(pair)),
            ),
    {
        MutableTree::Whole(MutableTreeWhole::from_dirtree(dtree))
    }

    /// The lazy tree for a directory that the repository holds.
    pub fn new_lazy_from_repo(chk: DirTreeChecksums) -> (tree: MutableTree)
        ensures
            tree.wf(),
            tree == MutableTree::Lazy(MutableTreeLazy { checksums: chk }),
    {
        MutableTree::Lazy(MutableTreeLazy { checksums: chk })
    }

    /// Makes the tree whole, if it is not, by reading its directory from
    /// the repository, and hands out what it holds. Where the directory
    /// cannot be read the tree stays as it was.
    pub fn make_whole(&mut self, repo: &OsTreeRepo) -> (r: Result<&mut MutableTreeWhole, RepoError>)
        requires
            old(self).wf(),
            repo.wf(),
        ensures
            match r {
                Ok(w) => {
                    &&& w.wf()
                    &&& materialized(old(self)@, repo) == Some(w@)
                    &&& (*old(self) matches MutableTree::Whole(before) ==> *w == before)
                    &&& *final(self) == MutableTree::Whole(*final(w))
                },
                Err(e) => {
                    &&& materialized(old(self)@, repo) is None
                    &&& (*old(self) matches MutableTree::Lazy(l) && repo.dirtree_load_failure(
                        l.checksums.checksum@,
                        e,
                    ))
                    &&& *final(self) == *old(self)
                },
            },
    {
        if let MutableTree::Lazy(l) = self {
            let w = match l.to_whole(repo) {
                Ok(w) => w,
                Err(e) => {
                    return Err(e);
                },
            };
            *self = MutableTree::Whole(w);
        }
        match self {
            MutableTree::Whole(w) => Ok(w),
            MutableTree::Lazy(_) => vstd::pervasive::unreached(),
        }
    }
}

impl MutableTreeWhole {
    /// The checksums that the subdirectory at position `i` has once it is
    /// finalized, where it can be.
    pub open spec fn child_finalized(&self, i: int) -> Option<ChecksumPair>
        decreases self, 0nat,
    {
        if 0 <= i < self.subdirs.entries().len() {
            proof {
                self.subdirs.lemma_entry_smaller(i);
            }
            self.subdirs.values()[i].finalized()
        } else {
            None
        }
    }

    /// The directory entries of the tree once its subdirectories are
    /// finalized: for each, in the order of names, its name and its two
    /// checksums.
    pub open spec fn finalized_dirs(&self) -> Seq<(Seq<char>, Seq<u8>, Seq<u8>)>
        decreases self, 1nat,
    {
        Seq::new(
            self.subdirs.entries().len(),
            |i: int|
                (
                    self.subdirs.names()[i],
                    self.child_finalized(i)->0.checksum,
                    self.child_finalized(i)->0.meta_checksum,
                ),
        )
    }

    /// The checksums that the tree has once it is finalized: the digest of
    /// the encoding of its directory, which lists its files and its
    /// finalized subdirectories, and the digest of the encoding of the
    /// default metadata. There are none where a subdirectory cannot be
    /// finalized or the codec refuses the directory or the metadata.
    pub open spec fn finalized(&self) -> Option<ChecksumPair>
        decreases self, 2nat,
    {
        if forall|i: int|
            #![trigger self.subdirs.values()[i]]
            0 <= i < self.subdirs.entries().len() ==> self.child_finalized(i) is Some {
            match (
                gvariant_dirtree(file_entries_of(self.files.entries()), self.finalized_dirs()),
                default_dirmeta_encoding(),
            ) {
                (Some(tree), Some(meta)) => Some(
                    ChecksumPair { checksum: sha256(tree), meta_checksum: sha256(meta) },
                ),
                _ => None,
            }
        } else {
            None
        }
    }

    /// Whether each of the first `i` subdirectories can be finalized.
    pub open spec fn children_finalized(&self, i: int) -> bool
        decreases self, 1nat,
    {
        forall|j: int|
            #![trigger self.subdirs.values()[j]]
            0 <= j < i && j < self.subdirs.entries().len() ==> self.child_finalized(j) is Some
    }

    /// The objects of a repository once the first `i` subdirectories have
    /// been finalized into it, one after the other. The first that cannot
    /// be finalized ends it: what it stored before it failed stays, and
    /// the subdirectories behind it store nothing.
    pub open spec fn stored_children(
        &self,
        objects: Map<Seq<char>, Seq<u8>>,
        mode: RepoMode,
        i: int,
    ) -> Map<Seq<char>, Seq<u8>>
        decreases self, i + 2,
    {
        if 0 < i <= self.subdirs.entries().len() {
            proof {
                self.subdirs.lemma_entry_smaller(i - 1);
            }
            if self.children_finalized(i - 1) {
                self.subdirs.values()[i - 1].stored(
                    self.stored_children(objects, mode, i - 1),
                    mode,
                )
            } else {
                self.stored_children(objects, mode, i - 1)
            }
        } else {
            objects
        }
    }

    /// The objects of a repository once the tree has been finalized into
    /// it, or once that has failed: first its subdirectories, then its
    /// directory, then the default metadata, each unless it is there
    /// already. What cannot be finalized or encoded ends it, and what was
    /// stored before stays.
    pub open spec fn stored(&self, objects: Map<Seq<char>, Seq<u8>>, mode: RepoMode) -> Map<
        Seq<char>,
        Seq<u8>,
    >
        decreases self, self.subdirs.entries().len() + 3,
    {
        let after = self.stored_children(objects, mode, self.subdirs.entries().len() as int);
        if !self.children_finalized(self.subdirs.entries().len() as int) {
            after
        } else {
            match gvariant_dirtree(file_entries_of(self.files.entries()), self.finalized_dirs()) {
                Some(tree) => {
                    let with_tree = with_object(
                        after,
                        loose_path_of(sha256(tree), ObjectType::DirTree, mode),
                        tree,
                    );
                    match default_dirmeta_encoding() {
                        Some(meta) => with_object(
                            with_tree,
                            loose_path_of(sha256(meta), ObjectType::DirMeta, mode),
                            meta,
                        ),
                        None => with_tree,
                    }
                },
                None => after,
            }
        }
    }

    /// Finalizing one more subdirectory adds what that subdirectory
    /// stores.
    pub proof fn lemma_stored_children_step(
        &self,
        objects: Map<Seq<char>, Seq<u8>>,
        mode: RepoMode,
        i: int,
    )
        requires
            0 <= i < self.subdirs.entries().len(),
            self.children_finalized(i),
        ensures
            self.stored_children(objects, mode, i + 1) == self.subdirs.values()[i].stored(
                self.stored_children(objects, mode, i),
                mode,
            ),
    {
    }

    /// Behind a subdirectory that cannot be finalized nothing is stored.
    pub proof fn lemma_stored_children_stops(
        &self,
        objects: Map<Seq<char>, Seq<u8>>,
        mode: RepoMode,
        k: int,
        i: int,
    )
        requires
            0 <= k < i <= self.subdirs.entries().len(),
            self.child_finalized(k) is None,
        ensures
            self.stored_children(objects, mode, i) == self.stored_children(objects, mode, k + 1),
            !self.children_finalized(i),
        decreases i - k,
    {
        assert(self.subdirs.values()[k] == self.subdirs.values()[k]);
        if i > k + 1 {
            self.lemma_stored_children_stops(objects, mode, k, i - 1);
        }
    }

    /// What finalizing says of the subdirectory at position `i`.
    pub proof fn lemma_child_finalized(&self, i: int)
        requires
            0 <= i < self.subdirs.entries().len(),
        ensures
            self.child_finalized(i) == self.subdirs.values()[i].finalized(),
    {
    }

    /// The directory that lists the files of the tree and its
    /// subdirectories, all of which are lazy: what finalizing writes for
    /// the tree itself.
    pub fn get_dirtree(&self) -> (tree: DirTree)
        requires
            self.wf(),
            forall|i: int|
                0 <= i < self.subdirs.entries().len() ==> (#[trigger] self.subdirs.values()[i]) is Lazy,
        ensures
            tree.wf(),
            tree.file_entries() == file_entries_of(self.files.entries()),
            tree.dir_entries() == self.finalized_dirs(),
    {
        let mut tree = DirTree::new();
        let n = self.files.len();
        let mut i: usize = 0;
        while i < n
            invariant
                n == self.files.entries().len(),
                i <= n,
                self.wf(),
                tree.wf(),
                tree.dirs.entries().len() == 0,
                tree.files.names() == self.files.names().take(i as int),
                tree.files.values().len() == i,
                forall|j: int| 0 <= j < i ==> (#[trigger] tree.files.values()[j])@ == self.files.values()[j]@,
            decreases n - i,
        {
            let name = self.files.name_at(i).clone();
            let checksum = self.files.value_at(i).clone();
            proof {
                assert forall|j: int| 0 <= j < tree.files.names().len() implies crate::names::name_lt(
                    #[trigger] tree.files.names()[j],
                    name@,
                ) by {
                    assert(crate::names::name_lt(self.files.names()[j], self.files.names()[i as int]));
                }
            }
            tree.files.push_last(name, checksum);
            proof {
                assert(self.files.names().take(i + 1) =~= self.files.names().take(i as int).push(
                    name@,
                ));
            }
            i += 1;
        }
        let m = self.subdirs.len();
        let mut k: usize = 0;
        while k < m
            invariant
                m == self.subdirs.entries().len(),
                n == self.files.entries().len(),
                i == n,
                k <= m,
                self.wf(),
                tree.wf(),
                forall|j: int|
                    0 <= j < self.subdirs.entries().len() ==> (
                    #[trigger] self.subdirs.values()[j]) is Lazy,
                tree.files.names() == self.files.names().take(i as int),
                tree.files.values().len() == i,
                forall|j: int| 0 <= j < i ==> (#[trigger] tree.files.values()[j])@ == self.files.values()[j]@,
                tree.dirs.names() == self.subdirs.names().take(k as int),
                tree.dirs.values().len() == k,
                forall|j: int|
                    0 <= j < k ==> (#[trigger] tree.dirs.values()[j]).checksum@
                        == self.child_finalized(j)->0.checksum && tree.dirs.values()[j].meta_checksum@
                        == self.child_finalized(j)->0.meta_checksum,
            decreases m - k,
        {
            let name = self.subdirs.name_at(k).clone();
            let checksums = match self.subdirs.value_at(k) {
                MutableTree::Lazy(l) => l.checksums.clone(),
                MutableTree::Whole(_) => vstd::pervasive::unreached(),
            };
            proof {
                self.lemma_child_finalized(k as int);
                assert forall|j: int| 0 <= j < tree.dirs.names().len() implies crate::names::name_lt(
                    #[trigger] tree.dirs.names()[j],
                    name@,
                ) by {
                    assert(crate::names::name_lt(
                        self.subdirs.names()[j],
                        self.subdirs.names()[k as int],
                    ));
                }
            }
            tree.dirs.push_last(name, checksums);
            proof {
                assert(self.subdirs.names().take(k + 1) =~= self.subdirs.names().take(k as int).push(
                    name@,
                ));
            }
            k += 1;
        }
        proof {
            assert(self.files.names().take(n as int) =~= self.files.names());
            assert(self.subdirs.names().take(m as int) =~= self.subdirs.names());
            assert(tree.file_entries() =~= file_entries_of(self.files.entries())) by {
                assert forall|j: int| 0 <= j < n implies tree.file_entries()[j] == file_entries_of(
                    self.files.entries(),
                )[j] by {
                    assert(tree.files.names()[j] == self.files.names()[j]);
                    assert(tree.files.values()[j]@ == self.files.values()[j]@);
                }
            }
            assert(tree.dir_entries() =~= self.finalized_dirs()) by {
                assert forall|j: int| 0 <= j < m implies tree.dir_entries()[j]
                    == self.finalized_dirs()[j] by {
                    assert(tree.dirs.names()[j] == self.subdirs.names()[j]);
                    assert(tree.dirs.values()[j].checksum@ == self.child_finalized(j)->0.checksum);
                }
            }
        }
        tree
    }

    /// Finalizes each subdirectory into the repository, in the order of
    /// names, and returns their checksums by name. The subdirectories are
    /// taken out of the tree: it is left with empty ones in their places.
    fn _dir_chk_list(&mut self, repo: &mut OsTreeRepo) -> (r: Result<
        NameMap<DirTreeChecksums>,
        RepoError,
    >)
        requires
            old(self).wf(),
            old(repo).wf(),
        ensures
            final(repo).wf(),
            final(repo).config() == old(repo).config(),
            extends(final(repo).objects(), old(repo).objects()),
            final(self).files == old(self).files,
            match r {
                Ok(dirs) => {
                    &&& dirs.wf()
                    &&& forall|i: int|
                        #![trigger old(self).subdirs.values()[i]]
                        0 <= i < old(self).subdirs.entries().len() ==> old(self).child_finalized(i)
                            is Some
                    &&& crate::codec::dir_entries_of(dirs.entries()) == old(self).finalized_dirs()
                    &&& final(repo).objects() == old(self).stored_children(
                        old(repo).objects(),
                        old(repo).config().core.mode,
                        old(self).subdirs.entries().len() as int,
                    )
                },
                Err(e) => {
                    &&& e.source is Variant
                    &&& !old(self).children_finalized(old(self).subdirs.entries().len() as int)
                    &&& final(repo).objects() == old(self).stored_children(
                        old(repo).objects(),
                        old(repo).config().core.mode,
                        old(self).subdirs.entries().len() as int,
                    )
                },
            },
        decreases *old(self), 0nat,
    {
        let ghost before = *self;
        let ghost objects = repo.objects();
        let ghost mode = repo.config().core.mode;
        let mut dirs: NameMap<DirTreeChecksums> = NameMap::new();
        let n = self.subdirs.len();
        let mut i: usize = 0;
        while i < n
            invariant
                before == *old(self),
                before.wf(),
                objects == old(repo).objects(),
                mode == old(repo).config().core.mode,
                n == before.subdirs.entries().len(),
                i <= n,
                self.files == before.files,
                self.subdirs.names() == before.subdirs.names(),
                self.subdirs.values().len() == n,
                forall|j: int| i <= j < n ==> #[trigger] self.subdirs.values()[j] == before.subdirs.values()[j],
                repo.wf(),
                repo.config() == old(repo).config(),
                extends(repo.objects(), objects),
                repo.objects() == before.stored_children(objects, mode, i as int),
                dirs.wf(),
                dirs.names() == before.subdirs.names().take(i as int),
                dirs.values().len() == i,
                forall|j: int|
                    #![trigger before.subdirs.values()[j]]
                    0 <= j < i ==> before.child_finalized(j) is Some,
                forall|j: int|
                    0 <= j < i ==> (#[trigger] dirs.values()[j]).checksum@ == before.child_finalized(
                        j,
                    )->0.checksum && dirs.values()[j].meta_checksum@ == before.child_finalized(
                        j,
                    )->0.meta_checksum,
            decreases n - i,
        {
            let ghost entries_before = self.subdirs;
            let mut child = MutableTree::new();
            let ghost placeholder = child;
            let slot = self.subdirs.value_mut(i);
            core::mem::swap(&mut child, slot);
            proof {
                self.subdirs.lemma_replaces_value(entries_before, i as int, placeholder);
                before.lemma_stored_children_step(objects, mode, i as int);
                before.subdirs.lemma_entry_smaller(i as int);
                before.lemma_child_wf(i as int);
                before.lemma_child_finalized(i as int);
                assert(child == before.subdirs.values()[i as int]);
            }
            let ghost objects_before = repo.objects();
            let checksums = match child {
                MutableTree::Lazy(t) => t.checksums,
                MutableTree::Whole(w) => match w.into_lazy(repo) {
                    Ok(l) => l.checksums,
                    Err(e) => {
                        proof {
                            before.lemma_stored_children_stops(objects, mode, i as int, n as int);
                        }
                        return Err(e);
                    },
                },
            };
            let name = self.subdirs.name_at(i).clone();
            proof {
                assert forall|j: int| 0 <= j < dirs.names().len() implies crate::names::name_lt(
                    #[trigger] dirs.names()[j],
                    name@,
                ) by {
                    assert(crate::names::name_lt(
                        before.subdirs.names()[j],
                        before.subdirs.names()[i as int],
                    ));
                }
            }
            dirs.push_last(name, checksums);
            proof {
                assert(before.subdirs.names().take(i + 1) =~= before.subdirs.names().take(
                    i as int,
                ).push(name@));
                assert(extends(repo.objects(), objects));
            }
            i += 1;
        }
        proof {
            assert(before.subdirs.names().take(n as int) =~= before.subdirs.names());
            assert(crate::codec::dir_entries_of(dirs.entries()) =~= before.finalized_dirs()) by {
                assert forall|j: int| 0 <= j < n implies crate::codec::dir_entries_of(
                    dirs.entries(),
                )[j] == before.finalized_dirs()[j] by {
                    assert(dirs.names()[j] == before.subdirs.names()[j]);
                    assert(dirs.values()[j].checksum@ == before.child_finalized(j)->0.checksum);
                }
            }
        }
        Ok(dirs)
    }

    /// Finalizes the tree: writes its subdirectories, then its directory
    /// and the default metadata, to the repository, and returns the lazy
    /// tree of its checksums. It fails where the codec refuses one of the
    /// encodings, and only then; what was written before stays written,
    /// and nothing is written after.
    pub fn into_lazy(self, repo: &mut OsTreeRepo) -> (r: Result<MutableTreeLazy, RepoError>)
        requires
            self.wf(),
            old(repo).wf(),
        ensures
            final(repo).wf(),
            final(repo).config() == old(repo).config(),
            extends(final(repo).objects(), old(repo).objects()),
            match r {
                Ok(l) => {
                    &&& self.finalized() == Some(l.pair())
                    &&& l.checksums.checksum@.len() == DIGEST_LEN
                    &&& l.checksums.meta_checksum@.len() == DIGEST_LEN
                    &&& final(repo).objects() == self.stored(
                        old(repo).objects(),
                        old(repo).config().core.mode,
                    )
                },
                Err(e) => {
                    &&& self.finalized() is None
                    &&& e.source is Variant
                    &&& final(repo).objects() == self.stored(
                        old(repo).objects(),
                        old(repo).config().core.mode,
                    )
                },
            },
        decreases self, 1nat,
    {
        let ghost objects = repo.objects();
        let mut tree = self;
        let dirs = match tree._dir_chk_list(repo) {
            Ok(dirs) => dirs,
            Err(e) => {
                return Err(e);
            },
        };
        let MutableTreeWhole { files, subdirs: _ } = tree;
        let dirtree = DirTree { files, dirs };
        let dirmeta = DirMeta::default();
        proof {
            assert(dirmeta.xattrs.deep_view() =~= Seq::<(Seq<u8>, Seq<u8>)>::empty());
        }
        let ghost middle = repo.objects();
        let checksum = match repo.write(&dirtree) {
            Ok(c) => c,
            Err(e) => {
                return Err(e);
            },
        };
        let meta_checksum = match repo.write(&dirmeta) {
            Ok(c) => c,
            Err(e) => {
                return Err(e);
            },
        };
        Ok(MutableTreeLazy { checksums: DirTreeChecksums { checksum, meta_checksum } })
    }
}

impl MutableTree {
    /// The checksums that the tree has once it is finalized: those of a
    /// lazy tree are its own.
    pub open spec fn finalized(&self) -> Option<ChecksumPair>
        decreases self, 0nat,
    {
        match self {
            MutableTree::Lazy(l) => Some(l.pair()),
            MutableTree::Whole(w) => w.finalized(),
        }
    }

    /// The objects of a repository once the tree has been finalized into
    /// it, or once that has failed. A lazy tree adds nothing.
    pub open spec fn stored(&self, objects: Map<Seq<char>, Seq<u8>>, mode: RepoMode) -> Map<
        Seq<char>,
        Seq<u8>,
    >
        decreases self, 0nat,
    {
        match self {
            MutableTree::Lazy(_) => objects,
            MutableTree::Whole(w) => w.stored(objects, mode),
        }
    }

    /// Finalizes the tree and returns the lazy tree of its checksums. A
    /// lazy tree is returned as it is.
    pub fn into_lazy(self, repo: &mut OsTreeRepo) -> (r: Result<MutableTreeLazy, RepoError>)
        requires
            self.wf(),
            old(repo).wf(),
        ensures
            final(repo).wf(),
            final(repo).config() == old(repo).config(),
            extends(final(repo).objects(), old(repo).objects()),
            match r {
                Ok(l) => {
                    &&& self.finalized() == Some(l.pair())
                    &&& final(repo).objects() == self.stored(
                        old(repo).objects(),
                        old(repo).config().core.mode,
                    )
                },
                Err(e) => {
                    &&& self.finalized() is None
                    &&& e.source is Variant
                    &&& final(repo).objects() == self.stored(
                        old(repo).objects(),
                        old(repo).config().core.mode,
                    )
                },
            },
    {
        match self {
            MutableTree::Lazy(l) => Ok(l),
            MutableTree::Whole(w) => w.into_lazy(repo),
        }
    }
}

impl MutableTree {
    /// Finalizes the tree; see `into_lazy`.
    pub fn finalize(self, repo: &mut OsTreeRepo) -> (r: Result<MutableTreeLazy, RepoError>)
        requires
            self.wf(),
            old(repo).wf(),
        ensures
            final(repo).wf(),
            final(repo).config() == old(repo).config(),
            extends(final(repo).objects(), old(repo).objects()),
            match r {
                Ok(l) => {
                    &&& self.finalized() == Some(l.pair())
                    &&& final(repo).objects() == self.stored(
                        old(repo).objects(),
                        old(repo).config().core.mode,
                    )
                },
                Err(e) => {
                    &&& self.finalized() is None
                    &&& e.source is Variant
                    &&& final(repo).objects() == self.stored(
                        old(repo).objects(),
                        old(repo).config().core.mode,
                    )
                },
            },
    {
        self.into_lazy(repo)
    }
}

/// What is said when a directory is asked for under the name of a file.
pub open spec fn file_in_the_way(name: Seq<char>) -> Seq<char> {
    "Can't replace file with directory: "@ + name
}

/// What is said when a file is put under the name of a directory.
pub open spec fn directory_in_the_way(name: Seq<char>) -> Seq<char> {
    "Can't replace directory with file: "@ + name
}

impl MutableTree {
    /// The subdirectory of the given name, to be changed in place; where
    /// there is none, one is made, whole and empty. A lazy tree is made
    /// whole first. The call fails where that cannot be done, and where
    /// the name is that of a file: then nothing is changed.
    pub fn ensure_dir(&mut self, repo: &OsTreeRepo, dir_name: &str) -> (r: Result<
        &mut MutableTree,
        RepoError,
    >)
        requires
            old(self).wf(),
            repo.wf(),
        ensures
            match r {
                Ok(child) => {
                    &&& materialized(old(self)@, repo) matches Some(TreeView::Whole(files, subdirs))
                    &&& !files.contains_key(dir_name@)
                    &&& child.wf()
                    &&& child@ == if subdirs.contains_key(dir_name@) {
                        subdirs[dir_name@]
                    } else {
                        empty_whole()
                    }
                    &&& final(self)@ == TreeView::Whole(files, subdirs.insert(dir_name@, final(child)@))
                    &&& final(child).wf() ==> final(self).wf()
                },
                Err(e) => match materialized(old(self)@, repo) {
                    Some(TreeView::Whole(files, subdirs)) => {
                        &&& files.contains_key(dir_name@)
                        &&& e.source matches RepoErrorKind::InvalidMtree(message)
                        &&& message@ == file_in_the_way(dir_name@)
                        &&& final(self).wf()
                        &&& final(self)@ == TreeView::Whole(files, subdirs)
                    },
                    _ => {
                        &&& (*old(self) matches MutableTree::Lazy(l) && repo.dirtree_load_failure(
                            l.checksums.checksum@,
                            e,
                        ))
                        &&& *final(self) == *old(self)
                    },
                },
            },
    {
        let tree = match self.make_whole(repo) {
            Ok(tree) => tree,
            Err(e) => {
                return Err(e);
            },
        };
        let ghost before = *tree;
        if tree.files.contains_key(dir_name) {
            let mut message = "Can't replace file with directory: ".to_owned();
            message.append(dir_name);
            return Err(RepoError::from(RepoErrorKind::InvalidMtree(message)));
        }
        let found = tree.subdirs.search(dir_name);
        proof {
            before.lemma_subdir_map();
            before.subdirs.lemma_search_spec(dir_name@, found);
        }
        let i = match found {
            Ok(i) => {
                proof {
                    before.subdirs.lemma_index_of(i as int);
                }
                i
            },
            Err(i) => {
                tree.subdirs.insert(dir_name.to_owned(), MutableTree::new());
                proof {
                    assert forall|j: int| 0 <= j < tree.subdirs.values().len() implies (
                    #[trigger] tree.subdirs.values()[j]).wf() by {
                        if j < i {
                            before.lemma_child_wf(j);
                        } else if j > i {
                            before.lemma_child_wf(j - 1);
                        }
                    }
                    tree.lemma_wf_from_children();
                }
                i
            },
        };
        let ghost middle = *tree;
        proof {
            // Whatever the subdirectory becomes, the tree holds it under
            // its name and is otherwise as it was.
            middle.lemma_subdir_map();
            middle.subdirs.lemma_index_of(i as int);
            assert(middle.subdirs.names()[i as int] == dir_name@);
            assert forall|after: MutableTreeWhole, v: MutableTree|
                after.files == middle.files && #[trigger] after.subdirs.replaces_value(
                    middle.subdirs,
                    i as int,
                    v,
                ) implies after@ == TreeView::Whole(
                before.file_map(),
                before.subdir_map().insert(dir_name@, v@),
            ) && (v.wf() ==> after.wf()) by {
                after.subdirs.lemma_replaces_value(middle.subdirs, i as int, v);
                after.lemma_subdir_map();
                assert(after.subdir_map() =~= before.subdir_map().insert(dir_name@, v@));
                if v.wf() {
                    assert forall|j: int| 0 <= j < after.subdirs.values().len() implies (
                    #[trigger] after.subdirs.values()[j]).wf() by {
                        if j != i {
                            middle.lemma_child_wf(j);
                        }
                    }
                    after.lemma_wf_from_children();
                }
            }
            middle.lemma_child_wf(i as int);
        }
        Ok(tree.subdirs.value_mut(i))
    }

    /// Puts a file of the given checksum under the given name, in place of
    /// the file of that name if there is one. A lazy tree is made whole
    /// first. The call fails where that cannot be done, and where the name
    /// is that of a subdirectory: then nothing is changed.
    pub fn replace_file(&mut self, repo: &OsTreeRepo, file_name: &str, chk: Checksum) -> (r: Result<
        (),
        RepoError,
    >)
        requires
            old(self).wf(),
            repo.wf(),
        ensures
            final(self).wf(),
            match r {
                Ok(()) => {
                    &&& materialized(old(self)@, repo) matches Some(TreeView::Whole(files, subdirs))
                    &&& !subdirs.contains_key(file_name@)
                    &&& final(self)@ == TreeView::Whole(files.insert(file_name@, chk@), subdirs)
                },
                Err(e) => match materialized(old(self)@, repo) {
                    Some(TreeView::Whole(files, subdirs)) => {
                        &&& subdirs.contains_key(file_name@)
                        &&& e.source matches RepoErrorKind::InvalidMtree(message)
                        &&& message@ == directory_in_the_way(file_name@)
                        &&& final(self)@ == TreeView::Whole(files, subdirs)
                    },
                    _ => {
                        &&& (*old(self) matches MutableTree::Lazy(l) && repo.dirtree_load_failure(
                            l.checksums.checksum@,
                            e,
                        ))
                        &&& *final(self) == *old(self)
                    },
                },
            },
    {
        let tree = match self.make_whole(repo) {
            Ok(tree) => tree,
            Err(e) => {
                return Err(e);
            },
        };
        let ghost before = *tree;
        proof {
            before.lemma_subdir_map();
        }
        if tree.subdirs.contains_key(file_name) {
            let mut message = "Can't replace directory with file: ".to_owned();
            message.append(file_name);
            return Err(RepoError::from(RepoErrorKind::InvalidMtree(message)));
        }
        tree.files.insert(file_name.to_owned(), chk);
        proof {
            assert(tree.file_map() =~= before.file_map().insert(file_name@, chk@));
            assert(tree.subdir_map() =~= before.subdir_map());
            assert forall|j: int| 0 <= j < tree.subdirs.values().len() implies (
            #[trigger] tree.subdirs.values()[j]).wf() by {
                before.lemma_child_wf(j);
            }
            tree.lemma_wf_from_children();
        }
        Ok(())
    }

    /// Puts `child` under `name` as a subdirectory of a whole tree, in
    /// place of the subdirectory of that name if there is one.
    pub fn insert_child(&mut self, name: String, child: MutableTree)
        requires
            old(self).wf(),
            child.wf(),
            *old(self) is Whole,
        ensures
            final(self).wf(),
            old(self)@ matches TreeView::Whole(files, subdirs) && final(self)@ == TreeView::Whole(
                files,
                subdirs.insert(name@, child@),
            ),
    {
        match self {
            MutableTree::Whole(tree) => {
                let ghost before = *tree;
                tree.subdirs.insert(name, child);
                proof {
                    tree.lemma_subdir_map_insert(before, name@, child);
                    before.subdirs.lemma_search_spec_cases(name@);
                    assert forall|j: int| 0 <= j < tree.subdirs.values().len() implies (
                    #[trigger] tree.subdirs.values()[j]).wf() by {
                        match before.subdirs.search_spec(name@) {
                            Ok(i) => {
                                if j != i {
                                    before.lemma_child_wf(j);
                                }
                            },
                            Err(i) => {
                                if j < i {
                                    before.lemma_child_wf(j);
                                } else if j > i {
                                    before.lemma_child_wf(j - 1);
                                }
                            },
                        }
                    }
                    tree.lemma_wf_from_children();
                }
            },
            MutableTree::Lazy(_) => {},
        }
    }
}

impl MutableTree {
    /// Finalizes the tree in place and hands out its checksums. A lazy
    /// tree stays as it is. Where finalizing fails, the tree is left whole
    /// and empty.
    pub fn make_lazy(&mut self, repo: &mut OsTreeRepo) -> (r: Result<&mut MutableTreeLazy, RepoError>)
        requires
            old(self).wf(),
            old(repo).wf(),
        ensures
            final(repo).wf(),
            final(repo).config() == old(repo).config(),
            extends(final(repo).objects(), old(repo).objects()),
            match r {
                Ok(l) => {
                    &&& old(self).finalized() == Some(l.pair())
                    &&& (*old(self) matches MutableTree::Lazy(before) ==> *l == before)
                    &&& final(repo).objects() == old(self).stored(
                        old(repo).objects(),
                        old(repo).config().core.mode,
                    )
                    &&& *final(self) == MutableTree::Lazy(*final(l))
                },
                Err(e) => {
                    &&& old(self).finalized() is None
                    &&& e.source is Variant
                    &&& final(repo).objects() == old(self).stored(
                        old(repo).objects(),
                        old(repo).config().core.mode,
                    )
                    &&& final(self).wf()
                    &&& final(self)@ == empty_whole()
                },
            },
    {
        if let MutableTree::Whole(w) = self {
            let mut drained = MutableTreeWhole::new();
            core::mem::swap(&mut drained, w);
            match drained.into_lazy(repo) {
                Ok(l) => {
                    *self = MutableTree::Lazy(l);
                },
                Err(e) => {
                    return Err(e);
                },
            }
        }
        match self {
            MutableTree::Lazy(l) => Ok(l),
            MutableTree::Whole(_) => vstd::pervasive::unreached(),
        }
    }
}

/// Two well-formed whole trees that hold the same hold it in the same
/// order: the same names in the same places, with the same checksums for
/// the files and subdirectories that hold the same.
pub proof fn lemma_same_entries(a: MutableTreeWhole, b: MutableTreeWhole)
    requires
        a.wf(),
        b.wf(),
        a@ == b@,
    ensures
        file_entries_of(a.files.entries()) == file_entries_of(b.files.entries()),
        a.subdirs.names() == b.subdirs.names(),
        forall|i: int|
            0 <= i < a.subdirs.entries().len() ==> (#[trigger] a.subdirs.values()[i])@
                == b.subdirs.values()[i]@,
{
    assert(a.file_map() == b.file_map());
    assert(a.subdir_map() == b.subdir_map());
    assert forall|n: Seq<char>| a.files.names().contains(n) <==> b.files.names().contains(n) by {
        assert(a.file_map().contains_key(n) <==> a.files.names().contains(n));
        assert(b.file_map().contains_key(n) <==> b.files.names().contains(n));
    }
    crate::names::lemma_sorted_names_unique(a.files.names(), b.files.names());
    assert(file_entries_of(a.files.entries()) =~= file_entries_of(b.files.entries())) by {
        assert forall|i: int| 0 <= i < a.files.entries().len() implies file_entries_of(
            a.files.entries(),
        )[i] == file_entries_of(b.files.entries())[i] by {
            a.files.lemma_index_of(i);
            b.files.lemma_index_of(i);
            assert(a.files.names()[i] == b.files.names()[i]);
            assert(a.file_map()[a.files.names()[i]] == a.files.values()[i]@);
            assert(b.file_map()[b.files.names()[i]] == b.files.values()[i]@);
        }
    }
    assert forall|n: Seq<char>| a.subdirs.names().contains(n) <==> b.subdirs.names().contains(n) by {
        assert(a.subdir_map().contains_key(n) <==> a.subdirs.names().contains(n));
        assert(b.subdir_map().contains_key(n) <==> b.subdirs.names().contains(n));
    }
    crate::names::lemma_sorted_names_unique(a.subdirs.names(), b.subdirs.names());
    a.lemma_subdir_map();
    b.lemma_subdir_map();
    assert forall|i: int| 0 <= i < a.subdirs.entries().len() implies (
    #[trigger] a.subdirs.values()[i])@ == b.subdirs.values()[i]@ by {
        a.subdirs.lemma_index_of(i);
        b.subdirs.lemma_index_of(i);
        assert(a.subdirs.names()[i] == b.subdirs.names()[i]);
    }
}

/// Finalizing does not depend on the order in which a tree was filled:
/// two well-formed whole trees that hold the same have the same checksums
/// once finalized.
pub proof fn lemma_order_independence_whole(a: MutableTreeWhole, b: MutableTreeWhole)
    requires
        a.wf(),
        b.wf(),
        a@ == b@,
    ensures
        a.finalized() == b.finalized(),
    decreases a, 0nat,
{
    lemma_same_entries(a, b);
    let n = a.subdirs.entries().len() as int;
    assert(b.subdirs.entries().len() == n) by {
        assert(a.subdirs.names().len() == b.subdirs.names().len());
    }
    assert forall|i: int| 0 <= i < n implies a.child_finalized(i) == b.child_finalized(i) by {
        a.lemma_child_wf(i);
        b.lemma_child_wf(i);
        a.subdirs.lemma_entry_smaller(i);
        a.lemma_child_finalized(i);
        b.lemma_child_finalized(i);
        assert(a.subdirs.values()[i]@ == b.subdirs.values()[i]@);
        lemma_order_independence(a.subdirs.values()[i], b.subdirs.values()[i]);
    }
    assert(a.finalized_dirs() =~= b.finalized_dirs()) by {
        assert forall|i: int| 0 <= i < n implies a.finalized_dirs()[i] == b.finalized_dirs()[i] by {
            assert(a.subdirs.names()[i] == b.subdirs.names()[i]);
            assert(a.child_finalized(i) == b.child_finalized(i));
        }
    }
    assert((forall|i: int|
        #![trigger a.subdirs.values()[i]]
        0 <= i < a.subdirs.entries().len() ==> a.child_finalized(i) is Some) == (forall|i: int|
        #![trigger b.subdirs.values()[i]]
        0 <= i < b.subdirs.entries().len() ==> b.child_finalized(i) is Some)) by {
        if forall|i: int|
            #![trigger a.subdirs.values()[i]]
            0 <= i < a.subdirs.entries().len() ==> a.child_finalized(i) is Some {
            assert forall|i: int|
                #![trigger b.subdirs.values()[i]]
                0 <= i < b.subdirs.entries().len() implies b.child_finalized(i) is Some by {
                assert(a.subdirs.values()[i] == a.subdirs.values()[i]);
                assert(a.child_finalized(i) == b.child_finalized(i));
            }
        }
        if forall|i: int|
            #![trigger b.subdirs.values()[i]]
            0 <= i < b.subdirs.entries().len() ==> b.child_finalized(i) is Some {
            assert forall|i: int|
                #![trigger a.subdirs.values()[i]]
                0 <= i < a.subdirs.entries().len() implies a.child_finalized(i) is Some by {
                assert(b.subdirs.values()[i] == b.subdirs.values()[i]);
                assert(a.child_finalized(i) == b.child_finalized(i));
            }
        }
    }
}

/// Finalizing does not depend on the order in which a tree was filled:
/// two well-formed trees that hold the same have the same checksums once
/// finalized.
pub proof fn lemma_order_independence(a: MutableTree, b: MutableTree)
    requires
        a.wf(),
        b.wf(),
        a@ == b@,
    ensures
        a.finalized() == b.finalized(),
    decreases a, 1nat,
{
    match (a, b) {
        (MutableTree::Whole(wa), MutableTree::Whole(wb)) => {
            lemma_order_independence_whole(wa, wb);
        },
        _ => {},
    }
}

/// Files put into a tree one after the other give the same tree as the
/// same files put in the other order, where their names differ.
pub proof fn lemma_files_commute(
    files: Map<Seq<char>, Seq<u8>>,
    subdirs: Map<Seq<char>, TreeView>,
    n1: Seq<char>,
    c1: Seq<u8>,
    n2: Seq<char>,
    c2: Seq<u8>,
)
    requires
        n1 != n2,
    ensures
        TreeView::Whole(files.insert(n1, c1).insert(n2, c2), subdirs) == TreeView::Whole(
            files.insert(n2, c2).insert(n1, c1),
            subdirs,
        ),
{
    assert(files.insert(n1, c1).insert(n2, c2) =~= files.insert(n2, c2).insert(n1, c1));
}

impl MutableTreeWhole {
    /// The encoding of the directory that finalizing writes for the tree
    /// itself, where it can be encoded.
    pub open spec fn finalized_encoding(&self) -> Option<Seq<u8>> {
        gvariant_dirtree(file_entries_of(self.files.entries()), self.finalized_dirs())
    }

    /// Where finalizing puts the directory of the tree itself.
    pub open spec fn finalized_path(&self, mode: RepoMode) -> Seq<char> {
        loose_path_of(sha256(self.finalized_encoding()->0), ObjectType::DirTree, mode)
    }
}

/// Once a whole tree is finalized, the repository holds its directory
/// under the checksum that finalizing gives, unless another object was
/// there before: then that one stays. Checksums are taken not to be
/// empty.
pub proof fn lemma_finalized_is_stored(
    w: MutableTreeWhole,
    objects: Map<Seq<char>, Seq<u8>>,
    mode: RepoMode,
)
    requires
        w.finalized() is Some,
        w.finalized()->0.checksum.len() >= 1,
        w.finalized()->0.meta_checksum.len() >= 1,
        !w.stored_children(objects, mode, w.subdirs.entries().len() as int).contains_key(
            w.finalized_path(mode),
        ),
    ensures
        w.finalized()->0.checksum == sha256(w.finalized_encoding()->0),
        object_in(w.stored(objects, mode), mode, ObjectType::DirTree, w.finalized()->0.checksum)
            == w.finalized_encoding(),
{
    let tree = w.finalized_encoding()->0;
    let meta = default_dirmeta_encoding()->0;
    let after = w.stored_children(objects, mode, w.subdirs.entries().len() as int);
    let tree_path = loose_path_of(sha256(tree), ObjectType::DirTree, mode);
    let meta_path = loose_path_of(sha256(meta), ObjectType::DirMeta, mode);
    if tree_path == meta_path {
        crate::object::lemma_loose_path_injective(
            sha256(tree),
            ObjectType::DirTree,
            sha256(meta),
            ObjectType::DirMeta,
            mode,
        );
    }
    assert(w.stored(objects, mode) == with_object(
        with_object(after, tree_path, tree),
        meta_path,
        meta,
    ));
}

/// Finalizing a whole tree and making the result whole again gives back
/// what the tree held: the same files with the same checksums, the same
/// names of subdirectories, and each subdirectory with the checksums that
/// it was finalized to. This holds where no other object was stored under
/// the checksum of the tree's directory before, and the codec reads the
/// directory as it was written. Checksums are taken not to be empty.
pub proof fn lemma_lazy_whole_equivalence(
    w: MutableTreeWhole,
    objects: Map<Seq<char>, Seq<u8>>,
    mode: RepoMode,
)
    requires
        w.wf(),
        w.finalized() is Some,
        w.finalized()->0.checksum.len() >= 1,
        w.finalized()->0.meta_checksum.len() >= 1,
        mode == RepoMode::BareUserOnly,
        !w.stored_children(objects, mode, w.subdirs.entries().len() as int).contains_key(
            w.finalized_path(mode),
        ),
        gvariant_dirtree_parsed(w.finalized_encoding()->0) == Some(
            (file_entries_of(w.files.entries()), w.finalized_dirs()),
        ),
    ensures
        materialized_from(TreeView::Lazy(w.finalized()->0), w.stored(objects, mode), mode) matches Some(
            TreeView::Whole(files, subdirs),
        ) && files == w.file_map() && subdirs.dom() == w.subdir_map().dom() && forall|i: int|
            0 <= i < w.subdirs.entries().len() ==> subdirs[#[trigger] w.subdirs.names()[i]]
                == TreeView::Lazy(w.child_finalized(i)->0),
{
    lemma_finalized_is_stored(w, objects, mode);
    let file_entries = file_entries_of(w.files.entries());
    let dir_entries = w.finalized_dirs();
    let bytes = w.finalized_encoding()->0;
    assert(w.finalized_encoding() is Some);
    let pairs = parsed_dir_entries(bytes);
    assert(parsed_file_entries(bytes) == file_entries);
    assert(pairs == dir_entries.map_values(|e: (Seq<char>, Seq<u8>, Seq<u8>)| (e.0, (e.1, e.2))));
    assert(Seq::new(file_entries.len(), |i: int| file_entries[i].0) =~= w.files.names());
    lemma_entered_sorted(file_entries);
    assert(entered(file_entries) =~= w.file_map()) by {
        assert forall|name: Seq<char>| #[trigger]
            entered(file_entries).contains_key(name) <==> w.file_map().contains_key(name) by {
            if entered(file_entries).contains_key(name) {
                let i = choose|i: int| 0 <= i < file_entries.len() && file_entries[i].0 == name;
                assert(w.files.names()[i] == name);
            }
            if w.files.names().contains(name) {
                let i = w.files.names().index_of(name);
                assert(file_entries[i].0 == name);
            }
        }
        assert forall|name: Seq<char>| #[trigger]
            w.file_map().contains_key(name) implies entered(file_entries)[name]
            == w.file_map()[name] by {
            let i = w.files.names().index_of(name);
            w.files.lemma_index_of(i);
            assert(file_entries[i].0 == name);
        }
    }
    assert(Seq::new(pairs.len(), |i: int| pairs[i].0) =~= w.subdirs.names());
    lemma_entered_sorted(pairs);
    let subdirs = entered(pairs).map_values(|pair: (Seq<u8>, Seq<u8>)| lazy_of(pair));
    assert(subdirs.dom() =~= w.subdir_map().dom()) by {
        assert forall|name: Seq<char>| subdirs.dom().contains(name) <==> w.subdir_map().dom().contains(
            name,
        ) by {
            if entered(pairs).contains_key(name) {
                let i = choose|i: int| 0 <= i < pairs.len() && pairs[i].0 == name;
                assert(w.subdirs.names()[i] == name);
            }
            if w.subdirs.names().contains(name) {
                let i = w.subdirs.names().index_of(name);
                assert(pairs[i].0 == name);
            }
        }
    }
    assert forall|i: int| 0 <= i < w.subdirs.entries().len() implies subdirs[
    #[trigger] w.subdirs.names()[i]] == TreeView::Lazy(w.child_finalized(i)->0) by {
        assert(pairs[i].0 == w.subdirs.names()[i]);
        assert(pairs[i].1 == (
            w.child_finalized(i)->0.checksum,
            w.child_finalized(i)->0.meta_checksum,
        ));
    }
}

impl MutableTreeWhole {
    /// Whether every subdirectory of the tree is lazy.
    pub open spec fn children_lazy(&self) -> bool {
        forall|i: int|
            0 <= i < self.subdirs.entries().len() ==> (#[trigger] self.subdirs.values()[i]) is Lazy
    }

    /// Whether every subdirectory of the tree is lazy.
    pub fn has_lazy_children(&self) -> (r: bool)
        ensures
            r == self.children_lazy(),
    {
        let n = self.subdirs.len();
        let mut i: usize = 0;
        while i < n
            invariant
                n == self.subdirs.entries().len(),
                i <= n,
                forall|k: int| 0 <= k < i ==> (#[trigger] self.subdirs.values()[k]) is Lazy,
            decreases n - i,
        {
            match self.subdirs.value_at(i) {
                MutableTree::Lazy(_) => {},
                MutableTree::Whole(_) => {
                    return false;
                },
            }
            i += 1;
        }
        true
    }
}

impl MutableTree {
    /// The directory that lists the files of a whole tree and its
    /// subdirectories, where all of these are lazy: what finalizing
    /// writes for the tree itself. There is none for a lazy tree, nor for
    /// one with a whole subdirectory.
    pub fn get_dirtree(&self) -> (r: Option<DirTree>)
        requires
            self.wf(),
        ensures
            match r {
                Some(tree) => {
                    &&& self matches MutableTree::Whole(w)
                    &&& w.children_lazy()
                    &&& tree.wf()
                    &&& tree.file_entries() == file_entries_of(w.files.entries())
                    &&& tree.dir_entries() == w.finalized_dirs()
                },
                None => self matches MutableTree::Whole(w) ==> !w.children_lazy(),
            },
    {
        match self {
            MutableTree::Lazy(_) => None,
            MutableTree::Whole(w) => {
                if w.has_lazy_children() {
                    Some(w.get_dirtree())
                } else {
                    None
                }
            },
        }
    }
}

impl MutableTree {
    /// The directory that lists the files of a whole tree and its
    /// subdirectories, where all of these are lazy; see `get_dirtree`.
    pub fn as_dirtree(&self) -> (r: Option<DirTree>)
        requires
            self.wf(),
        ensures
            match r {
                Some(tree) => {
                    &&& self matches MutableTree::Whole(w)
                    &&& w.children_lazy()
                    &&& tree.wf()
                    &&& tree.file_entries() == file_entries_of(w.files.entries())
                    &&& tree.dir_entries() == w.finalized_dirs()
                },
                None => self matches MutableTree::Whole(w) ==> !w.children_lazy(),
            },
    {
        self.get_dirtree()
    }
}

/// Whether a tree is lazy or whole.
#[derive(Debug, Clone, Copy, PartialEq, Eq, Structural)]
pub enum MutableTreeType {
    Lazy,
    Whole,
}

impl MutableTree {
    /// Whether the tree is lazy or whole.
    pub fn tree_type(&self) -> (t: MutableTreeType)
        ensures
            t == MutableTreeType::Lazy <==> self is Lazy,
            t == MutableTreeType::Whole <==> self is Whole,
    {
        match self {
            MutableTree::Lazy(_) => MutableTreeType::Lazy,
            MutableTree::Whole(_) => MutableTreeType::Whole,
        }
    }
}

impl Default for MutableTree {
    fn default() -> (tree: MutableTree)
        ensures
            tree.wf(),
            tree@ == empty_whole(),
    {
        MutableTree::new()
    }
}

} // verus!
