//! The order in which a directory is read does not matter.
//!
//! A filesystem lists the entries of a directory in an order of its own.
//! What a new tree holds once a directory has been brought into it depends
//! on the entries alone, at every depth: that is stated and proved here.

use crate::ingest::distinct_names;
use crate::ingest::entry_name;
use crate::ingest::file_checksum;
use crate::ingest::files_hashable;
use crate::ingest::ingest_entries;
use crate::ingest::lemma_ingest_step;
use crate::ingest::DirEntry;
use crate::ingest::DirEntryKind;
use crate::ingest::Staged;
use crate::mutable_tree::empty_whole;
use crate::mutable_tree::lemma_order_independence;
use crate::mutable_tree::MutableTree;
use crate::mutable_tree::TreeView;
use crate::object::ObjectType;
use crate::object::RepoMode;
use crate::repo::hashed_bytes;
use vstd::prelude::*;
use vstd::utf8::valid_utf8;

verus! {

/// Whether an entry is one that a directory in good order holds: its name
/// is valid Unicode, and it is a file, something that is passed over, or
/// a subdirectory in good order.
pub open spec fn tidy_entry(entry: DirEntry) -> bool
    decreases entry, 0nat,
{
    &&& valid_utf8(entry.file_name@)
    &&& match entry.kind {
        DirEntryKind::File(_) => true,
        DirEntryKind::Other => true,
        DirEntryKind::Dir(children) => tidy(children@),
        _ => false,
    }
}

/// Whether the entries are those of a directory in good order: no two of
/// them have the same name, and each is in good order.
pub open spec fn tidy(entries: Seq<DirEntry>) -> bool
    decreases entries, 1nat,
{
    &&& distinct_names(entries)
    &&& forall|i: int| 0 <= i < entries.len() ==> tidy_entry(#[trigger] entries[i])
}

/// Whether two entries are the same but for the order of what is below
/// them: the same name, and the same content, or subdirectories with the
/// same entries.
pub open spec fn same_entry(x: DirEntry, y: DirEntry) -> bool
    decreases x, 0nat,
{
    &&& x.file_name@ == y.file_name@
    &&& match x.kind {
        DirEntryKind::File(content) => y.kind matches DirEntryKind::File(other) && content@
            == other@,
        DirEntryKind::Other => y.kind is Other,
        DirEntryKind::Dir(children) => y.kind matches DirEntryKind::Dir(others) && same_entries(
            children@,
            others@,
        ),
        _ => false,
    }
}

/// The entry at position `i`, as one that is looked up.
pub open spec fn item(entries: Seq<DirEntry>, i: int) -> DirEntry {
    entries[i]
}

/// The entry at position `i`, as one that is found for another.
pub open spec fn partner(entries: Seq<DirEntry>, i: int) -> DirEntry {
    entries[i]
}

/// Whether two lists hold the same entries, in whichever order: each
/// entry of the one is the same as an entry of the other.
pub open spec fn same_entries(a: Seq<DirEntry>, b: Seq<DirEntry>) -> bool
    decreases a, 1nat,
{
    &&& forall|i: int|
        #![trigger item(a, i)]
        0 <= i < a.len() ==> exists|j: int|
            #![trigger partner(b, j)]
            0 <= j < b.len() && same_entry(item(a, i), partner(b, j))
    &&& forall|j: int|
        #![trigger item(b, j)]
        0 <= j < b.len() ==> exists|i: int|
            #![trigger partner(a, i)]
            0 <= i < a.len() && same_entry(partner(a, i), item(b, j))
}

/// The tree that the first `n` entries make of an empty one: each file
/// under its name with the checksum of its content, each subdirectory
/// under its name with the tree that its entries make.
pub open spec fn made_tree(mode: RepoMode, entries: Seq<DirEntry>, n: int) -> TreeView
    decreases entries, n,
{
    if 0 < n <= entries.len() {
        let before = made_tree(mode, entries, n - 1);
        let name = entry_name(entries[n - 1]);
        match entries[n - 1].kind {
            DirEntryKind::File(_) => TreeView::Whole(
                before->Whole_0.insert(name, file_checksum(mode, entries[n - 1])),
                before->Whole_1,
            ),
            DirEntryKind::Dir(children) => TreeView::Whole(
                before->Whole_0,
                before->Whole_1.insert(name, made_tree(mode, children@, children@.len() as int)),
            ),
            _ => before,
        }
    } else {
        empty_whole()
    }
}

/// Whether there is a file among the first `n` entries, or below one of
/// them.
pub open spec fn has_file(entries: Seq<DirEntry>, n: int) -> bool
    decreases entries, n,
{
    if 0 < n <= entries.len() {
        has_file(entries, n - 1) || match entries[n - 1].kind {
            DirEntryKind::File(_) => true,
            DirEntryKind::Dir(children) => has_file(children@, children@.len() as int),
            _ => false,
        }
    } else {
        false
    }
}

/// What the tree that entries make holds: under the name of each file
/// among them its checksum, under the name of each subdirectory the tree
/// that its entries make, and nothing under any other name.
pub proof fn lemma_made_tree(mode: RepoMode, entries: Seq<DirEntry>, n: int)
    requires
        0 <= n <= entries.len(),
        distinct_names(entries),
    ensures
        made_tree(mode, entries, n) is Whole,
        forall|k: Seq<char>| #[trigger]
            made_tree(mode, entries, n)->Whole_0.contains_key(k) ==> exists|i: int|
                #![trigger entries[i]]
                0 <= i < n && entries[i].kind is File && entry_name(entries[i]) == k,
        forall|k: Seq<char>| #[trigger]
            made_tree(mode, entries, n)->Whole_1.contains_key(k) ==> exists|i: int|
                #![trigger entries[i]]
                0 <= i < n && entries[i].kind is Dir && entry_name(entries[i]) == k,
        forall|i: int|
            #![trigger entries[i]]
            0 <= i < n && entries[i].kind is File ==> made_tree(
                mode,
                entries,
                n,
            )->Whole_0.contains_key(entry_name(entries[i])) && made_tree(
                mode,
                entries,
                n,
            )->Whole_0[entry_name(entries[i])] == file_checksum(mode, entries[i]),
        forall|i: int|
            #![trigger entries[i]]
            0 <= i < n && entries[i].kind is Dir ==> made_tree(
                mode,
                entries,
                n,
            )->Whole_1.contains_key(entry_name(entries[i])) && made_tree(
                mode,
                entries,
                n,
            )->Whole_1[entry_name(entries[i])] == made_tree(
                mode,
                entries[i].kind->Dir_0@,
                entries[i].kind->Dir_0@.len() as int,
            ),
    decreases n,
{
    if n > 0 {
        lemma_made_tree(mode, entries, n - 1);
        let before = made_tree(mode, entries, n - 1);
        let after = made_tree(mode, entries, n);
        let last = entries[n - 1];
        let name = entry_name(last);
        assert forall|k: Seq<char>| #[trigger] after->Whole_0.contains_key(k) implies exists|i: int|
            #![trigger entries[i]]
            0 <= i < n && entries[i].kind is File && entry_name(entries[i]) == k by {
            if before->Whole_0.contains_key(k) {
                let i = choose|i: int|
                    #![trigger entries[i]]
                    0 <= i < n - 1 && entries[i].kind is File && entry_name(entries[i]) == k;
                assert(0 <= i < n && entries[i].kind is File && entry_name(entries[i]) == k);
            } else {
                assert(last.kind is File && entry_name(entries[n - 1]) == k);
            }
        }
        assert forall|k: Seq<char>| #[trigger] after->Whole_1.contains_key(k) implies exists|i: int|
            #![trigger entries[i]]
            0 <= i < n && entries[i].kind is Dir && entry_name(entries[i]) == k by {
            if before->Whole_1.contains_key(k) {
                let i = choose|i: int|
                    #![trigger entries[i]]
                    0 <= i < n - 1 && entries[i].kind is Dir && entry_name(entries[i]) == k;
                assert(0 <= i < n && entries[i].kind is Dir && entry_name(entries[i]) == k);
            } else {
                assert(last.kind is Dir && entry_name(entries[n - 1]) == k);
            }
        }
        assert forall|i: int|
            #![trigger entries[i]]
            0 <= i < n && entries[i].kind is File implies after->Whole_0.contains_key(
            entry_name(entries[i]),
        ) && after->Whole_0[entry_name(entries[i])] == file_checksum(mode, entries[i]) by {
            if i < n - 1 {
                assert(entry_name(entries[i]) != entry_name(entries[n - 1]));
            }
        }
        assert forall|i: int|
            #![trigger entries[i]]
            0 <= i < n && entries[i].kind is Dir implies after->Whole_1.contains_key(
            entry_name(entries[i]),
        ) && after->Whole_1[entry_name(entries[i])] == made_tree(
            mode,
            entries[i].kind->Dir_0@,
            entries[i].kind->Dir_0@.len() as int,
        ) by {
            if i < n - 1 {
                assert(entry_name(entries[i]) != entry_name(entries[n - 1]));
            }
        }
    }
}

/// Where there is a file among entries, or below one of them.
pub proof fn lemma_has_file(entries: Seq<DirEntry>, n: int)
    requires
        0 <= n <= entries.len(),
    ensures
        has_file(entries, n) <==> exists|i: int|
            #![trigger entries[i]]
            0 <= i < n && (entries[i].kind is File || (entries[i].kind is Dir && has_file(
                entries[i].kind->Dir_0@,
                entries[i].kind->Dir_0@.len() as int,
            ))),
    decreases n,
{
    if n > 0 {
        lemma_has_file(entries, n - 1);
        let last = entries[n - 1];
        if has_file(entries, n) {
            if has_file(entries, n - 1) {
                let i = choose|i: int|
                    #![trigger entries[i]]
                    0 <= i < n - 1 && (entries[i].kind is File || (entries[i].kind is Dir
                        && has_file(
                        entries[i].kind->Dir_0@,
                        entries[i].kind->Dir_0@.len() as int,
                    )));
                assert(0 <= i < n && (entries[i].kind is File || (entries[i].kind is Dir && has_file(
                    entries[i].kind->Dir_0@,
                    entries[i].kind->Dir_0@.len() as int,
                ))));
            } else {
                assert(entries[n - 1].kind is File || (entries[n - 1].kind is Dir && has_file(
                    entries[n - 1].kind->Dir_0@,
                    entries[n - 1].kind->Dir_0@.len() as int,
                )));
            }
        }
    }
}

/// Bringing the entries of a directory in good order into an empty tree
/// gives the tree that they make, whatever the repository held before. It
/// fails only where there is a file to write and the content of files
/// cannot be given a checksum.
pub proof fn lemma_ingest_made(
    objects: Map<Seq<char>, Seq<u8>>,
    mode: RepoMode,
    entries: Seq<DirEntry>,
    n: int,
)
    requires
        tidy(entries),
        0 <= n <= entries.len(),
    ensures
        match ingest_entries(Staged { tree: empty_whole(), objects }, mode, entries, n) {
            Ok(after) => after.tree == made_tree(mode, entries, n) && (has_file(entries, n)
                ==> files_hashable(mode)),
            Err(_) => has_file(entries, n) && !files_hashable(mode),
        },
    decreases entries, n,
{
    let start = Staged { tree: empty_whole(), objects };
    if n > 0 {
        lemma_ingest_made(objects, mode, entries, n - 1);
        lemma_ingest_step(start, mode, entries, n - 1);
        lemma_made_tree(mode, entries, n - 1);
        let last = entries[n - 1];
        let name = entry_name(last);
        assert(tidy_entry(last));
        match ingest_entries(start, mode, entries, n - 1) {
            Ok(before) => {
                let files = before.tree->Whole_0;
                let subdirs = before.tree->Whole_1;
                if files.contains_key(name) {
                    let i = choose|i: int|
                        #![trigger entries[i]]
                        0 <= i < n - 1 && entries[i].kind is File && entry_name(entries[i]) == name;
                    assert(entry_name(entries[i]) != entry_name(entries[n - 1]));
                }
                if subdirs.contains_key(name) {
                    let i = choose|i: int|
                        #![trigger entries[i]]
                        0 <= i < n - 1 && entries[i].kind is Dir && entry_name(entries[i]) == name;
                    assert(entry_name(entries[i]) != entry_name(entries[n - 1]));
                }
                match last.kind {
                    DirEntryKind::File(content) => {
                        assert(hashed_bytes(ObjectType::File, mode, content@) is Some
                            <==> files_hashable(mode));
                    },
                    DirEntryKind::Dir(children) => {
                        lemma_ingest_made(
                            before.objects,
                            mode,
                            children@,
                            children@.len() as int,
                        );
                    },
                    _ => {},
                }
            },
            Err(_) => {},
        }
    }
}

/// The entry of `b` that is the same as the entry of `a` at position `i`.
proof fn lemma_partner(a: Seq<DirEntry>, b: Seq<DirEntry>, i: int) -> (j: int)
    requires
        same_entries(a, b),
        0 <= i < a.len(),
    ensures
        0 <= j < b.len(),
        same_entry(a[i], b[j]),
        entry_name(a[i]) == entry_name(b[j]),
{
    assert(item(a, i) == a[i]);
    let j = choose|j: int|
        #![trigger partner(b, j)]
        0 <= j < b.len() && same_entry(item(a, i), partner(b, j));
    j
}

/// The entry of `a` that is the same as the entry of `b` at position `j`.
proof fn lemma_partner_back(a: Seq<DirEntry>, b: Seq<DirEntry>, j: int) -> (i: int)
    requires
        same_entries(a, b),
        0 <= j < b.len(),
    ensures
        0 <= i < a.len(),
        same_entry(a[i], b[j]),
        entry_name(a[i]) == entry_name(b[j]),
{
    assert(item(b, j) == b[j]);
    let i = choose|i: int|
        #![trigger partner(a, i)]
        0 <= i < a.len() && same_entry(partner(a, i), item(b, j));
    i
}

/// Two lists that hold the same entries put the same files into a tree.
proof fn lemma_made_files_same(mode: RepoMode, a: Seq<DirEntry>, b: Seq<DirEntry>)
    requires
        distinct_names(a),
        distinct_names(b),
        same_entries(a, b),
    ensures
        made_tree(mode, a, a.len() as int)->Whole_0 == made_tree(mode, b, b.len() as int)->Whole_0,
{
    let fa = made_tree(mode, a, a.len() as int)->Whole_0;
    let fb = made_tree(mode, b, b.len() as int)->Whole_0;
    lemma_made_tree(mode, a, a.len() as int);
    lemma_made_tree(mode, b, b.len() as int);
    assert forall|k: Seq<char>| fa.contains_key(k) implies #[trigger] fb.contains_key(k) && fb[k]
        == fa[k] by {
        let i = choose|i: int|
            #![trigger a[i]]
            0 <= i < a.len() && a[i].kind is File && entry_name(a[i]) == k;
        let j = lemma_partner(a, b, i);
        assert(b[j].kind is File);
        assert(file_checksum(mode, a[i]) == file_checksum(mode, b[j]));
    }
    assert forall|k: Seq<char>| fb.contains_key(k) implies #[trigger] fa.contains_key(k) by {
        let j = choose|j: int|
            #![trigger b[j]]
            0 <= j < b.len() && b[j].kind is File && entry_name(b[j]) == k;
        let i = lemma_partner_back(a, b, j);
        assert(a[i].kind is File);
    }
    assert(fa =~= fb);
}

/// What partners put into a tree and hold below them is the same.
proof fn lemma_partners_same(mode: RepoMode, x: DirEntry, y: DirEntry)
    requires
        tidy_entry(x),
        tidy_entry(y),
        same_entry(x, y),
    ensures
        x.kind is Dir <==> y.kind is Dir,
        x.kind is File <==> y.kind is File,
        x.kind is Dir ==> made_tree(mode, x.kind->Dir_0@, x.kind->Dir_0@.len() as int) == made_tree(
            mode,
            y.kind->Dir_0@,
            y.kind->Dir_0@.len() as int,
        ) && has_file(x.kind->Dir_0@, x.kind->Dir_0@.len() as int) == has_file(
            y.kind->Dir_0@,
            y.kind->Dir_0@.len() as int,
        ),
    decreases x, 0nat,
{
    match x.kind {
        DirEntryKind::Dir(children) => {
            lemma_made_same(mode, children@, y.kind->Dir_0@);
        },
        _ => {},
    }
}

/// Two lists that hold the same entries put the same subdirectories into
/// a tree.
proof fn lemma_made_dirs_same(mode: RepoMode, a: Seq<DirEntry>, b: Seq<DirEntry>)
    requires
        tidy(a),
        tidy(b),
        same_entries(a, b),
    ensures
        made_tree(mode, a, a.len() as int)->Whole_1 == made_tree(mode, b, b.len() as int)->Whole_1,
    decreases a, 1nat,
{
    let da = made_tree(mode, a, a.len() as int)->Whole_1;
    let db = made_tree(mode, b, b.len() as int)->Whole_1;
    lemma_made_tree(mode, a, a.len() as int);
    lemma_made_tree(mode, b, b.len() as int);
    assert forall|k: Seq<char>| da.contains_key(k) implies #[trigger] db.contains_key(k) && db[k]
        == da[k] by {
        let i = choose|i: int|
            #![trigger a[i]]
            0 <= i < a.len() && a[i].kind is Dir && entry_name(a[i]) == k;
        let j = lemma_partner(a, b, i);
        assert(tidy_entry(a[i]));
        assert(tidy_entry(b[j]));
        lemma_partners_same(mode, a[i], b[j]);
    }
    assert forall|k: Seq<char>| db.contains_key(k) implies #[trigger] da.contains_key(k) by {
        let j = choose|j: int|
            #![trigger b[j]]
            0 <= j < b.len() && b[j].kind is Dir && entry_name(b[j]) == k;
        let i = lemma_partner_back(a, b, j);
        assert(a[i].kind is Dir);
    }
    assert(da =~= db);
}

/// Two lists that hold the same entries hold a file, or one below them,
/// alike.
proof fn lemma_has_file_same(mode: RepoMode, a: Seq<DirEntry>, b: Seq<DirEntry>)
    requires
        tidy(a),
        tidy(b),
        same_entries(a, b),
    ensures
        has_file(a, a.len() as int) == has_file(b, b.len() as int),
    decreases a, 1nat,
{
    lemma_has_file(a, a.len() as int);
    lemma_has_file(b, b.len() as int);
    if has_file(a, a.len() as int) {
        let i = choose|i: int|
            #![trigger a[i]]
            0 <= i < a.len() && (a[i].kind is File || (a[i].kind is Dir && has_file(
                a[i].kind->Dir_0@,
                a[i].kind->Dir_0@.len() as int,
            )));
        let j = lemma_partner(a, b, i);
        assert(tidy_entry(a[i]));
        assert(tidy_entry(b[j]));
        lemma_partners_same(mode, a[i], b[j]);
        assert(b[j].kind is File || (b[j].kind is Dir && has_file(
            b[j].kind->Dir_0@,
            b[j].kind->Dir_0@.len() as int,
        )));
    }
    if has_file(b, b.len() as int) {
        let j = choose|j: int|
            #![trigger b[j]]
            0 <= j < b.len() && (b[j].kind is File || (b[j].kind is Dir && has_file(
                b[j].kind->Dir_0@,
                b[j].kind->Dir_0@.len() as int,
            )));
        let i = lemma_partner_back(a, b, j);
        assert(tidy_entry(a[i]));
        assert(tidy_entry(b[j]));
        lemma_partners_same(mode, a[i], b[j]);
        assert(a[i].kind is File || (a[i].kind is Dir && has_file(
            a[i].kind->Dir_0@,
            a[i].kind->Dir_0@.len() as int,
        )));
    }
}

/// Two lists that hold the same entries, in whichever order, make the
/// same tree, and there is a file in the one where there is one in the
/// other.
pub proof fn lemma_made_same(mode: RepoMode, a: Seq<DirEntry>, b: Seq<DirEntry>)
    requires
        tidy(a),
        tidy(b),
        same_entries(a, b),
    ensures
        made_tree(mode, a, a.len() as int) == made_tree(mode, b, b.len() as int),
        has_file(a, a.len() as int) == has_file(b, b.len() as int),
    decreases a, 2nat,
{
    lemma_made_tree(mode, a, a.len() as int);
    lemma_made_tree(mode, b, b.len() as int);
    lemma_made_files_same(mode, a, b);
    lemma_made_dirs_same(mode, a, b);
    lemma_has_file_same(mode, a, b);
}

/// A directory in good order gives the same tree in whichever order its
/// entries, and the entries of the directories below it, are brought into
/// an empty tree; and where one order fails the other fails too.
pub proof fn lemma_ingest_any_order(
    objects: Map<Seq<char>, Seq<u8>>,
    mode: RepoMode,
    a: Seq<DirEntry>,
    b: Seq<DirEntry>,
)
    requires
        tidy(a),
        tidy(b),
        same_entries(a, b),
    ensures
        match (
            ingest_entries(Staged { tree: empty_whole(), objects }, mode, a, a.len() as int),
            ingest_entries(Staged { tree: empty_whole(), objects }, mode, b, b.len() as int),
        ) {
            (Ok(one), Ok(other)) => one.tree == other.tree,
            (Err(_), Err(_)) => true,
            _ => false,
        },
{
    lemma_ingest_made(objects, mode, a, a.len() as int);
    lemma_ingest_made(objects, mode, b, b.len() as int);
    lemma_made_same(mode, a, b);
}

/// Two new trees into which the same directory was brought, its entries
/// in whichever order at every depth, have the same checksums once they
/// are finalized.
pub proof fn lemma_any_order_finalized(
    objects: Map<Seq<char>, Seq<u8>>,
    mode: RepoMode,
    a: Seq<DirEntry>,
    b: Seq<DirEntry>,
    one: MutableTree,
    other: MutableTree,
)
    requires
        tidy(a),
        tidy(b),
        same_entries(a, b),
        one.wf(),
        other.wf(),
        ingest_entries(Staged { tree: empty_whole(), objects }, mode, a, a.len() as int) matches Ok(
            after,
        ) && one@ == after.tree,
        ingest_entries(Staged { tree: empty_whole(), objects }, mode, b, b.len() as int) matches Ok(
            after,
        ) && other@ == after.tree,
    ensures
        one@ == other@,
        one.finalized() == other.finalized(),
{
    lemma_ingest_any_order(objects, mode, a, b);
    lemma_order_independence(one, other);
}

} // verus!
