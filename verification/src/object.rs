//! Object kinds, repository storage modes, and where a loose object lies.

use crate::checksum::hex_chars;
use crate::checksum::lemma_hex_round_trip;
use crate::checksum::Checksum;
use crate::names::same_name;
use vstd::prelude::*;
use vstd::string::StrSliceExecFns;
use vstd::string::StringExecFns;

verus! {

/// A name that is not that of any variant.
#[derive(Debug, Clone, Copy, PartialEq, Eq, Structural)]
pub struct UnknownName;

/// The kind of an object in the store. An object is identified by its kind
/// together with its checksum, never by the checksum alone.
#[derive(Debug, Clone, Copy, PartialEq, Eq, Structural)]
pub enum ObjectType {
    File,
    DirTree,
    DirMeta,
    Commit,
    TombstoneCommit,
    CommitMeta,
    PayloadLink,
    FileXattrs,
    FileXattrsLink,
}

impl ObjectType {
    /// Whether objects of this kind describe metadata rather than content.
    pub open spec fn spec_is_meta(self) -> bool {
        self == ObjectType::DirMeta || self == ObjectType::Commit || self
            == ObjectType::TombstoneCommit || self == ObjectType::CommitMeta
    }

    /// Whether objects of this kind describe metadata rather than content.
    #[verifier::when_used_as_spec(spec_is_meta)]
    pub fn is_meta(self) -> (r: bool)
        ensures
            r == self.spec_is_meta(),
    {
        match self {
            ObjectType::DirMeta
            | ObjectType::Commit
            | ObjectType::TombstoneCommit
            | ObjectType::CommitMeta => true,
            _ => false,
        }
    }

    /// The canonical name of the kind: the variant's name in lower case.
    pub open spec fn name(self) -> Seq<char> {
        match self {
            ObjectType::File => "file"@,
            ObjectType::DirTree => "dirtree"@,
            ObjectType::DirMeta => "dirmeta"@,
            ObjectType::Commit => "commit"@,
            ObjectType::TombstoneCommit => "tombstonecommit"@,
            ObjectType::CommitMeta => "commitmeta"@,
            ObjectType::PayloadLink => "payloadlink"@,
            ObjectType::FileXattrs => "filexattrs"@,
            ObjectType::FileXattrsLink => "filexattrslink"@,
        }
    }

    /// The canonical name of the kind.
    pub fn as_ref(self) -> (name: &'static str)
        ensures
            name@ == self.name(),
    {
        match self {
            ObjectType::File => "file",
            ObjectType::DirTree => "dirtree",
            ObjectType::DirMeta => "dirmeta",
            ObjectType::Commit => "commit",
            ObjectType::TombstoneCommit => "tombstonecommit",
            ObjectType::CommitMeta => "commitmeta",
            ObjectType::PayloadLink => "payloadlink",
            ObjectType::FileXattrs => "filexattrs",
            ObjectType::FileXattrsLink => "filexattrslink",
        }
    }

    /// The canonical name of the kind, as an owned string.
    pub fn to_string(self) -> (name: String)
        ensures
            name@ == self.name(),
    {
        self.as_ref().to_owned()
    }

    /// The kind with the given canonical name.
    pub fn from_str(name: &str) -> (r: Result<ObjectType, UnknownName>)
        ensures
            match r {
                Ok(t) => t.name() == name@,
                Err(_) => forall|t: ObjectType| t.name() != name@,
            },
    {
        if same_name(name, "file") {
            Ok(ObjectType::File)
        } else if same_name(name, "dirtree") {
            Ok(ObjectType::DirTree)
        } else if same_name(name, "dirmeta") {
            Ok(ObjectType::DirMeta)
        } else if same_name(name, "commit") {
            Ok(ObjectType::Commit)
        } else if same_name(name, "tombstonecommit") {
            Ok(ObjectType::TombstoneCommit)
        } else if same_name(name, "commitmeta") {
            Ok(ObjectType::CommitMeta)
        } else if same_name(name, "payloadlink") {
            Ok(ObjectType::PayloadLink)
        } else if same_name(name, "filexattrs") {
            Ok(ObjectType::FileXattrs)
        } else if same_name(name, "filexattrslink") {
            Ok(ObjectType::FileXattrsLink)
        } else {
            Err(UnknownName)
        }
    }
}

/// How a repository lays its objects out on disk.
#[derive(Debug, Clone, Copy, PartialEq, Eq, Structural)]
pub enum RepoMode {
    Bare,
    BareUser,
    BareUserOnly,
    ArchiveZ2,
    BareSplitXattrs,
}

impl RepoMode {
    /// The name of the mode as the repository's configuration writes it.
    pub open spec fn name(self) -> Seq<char> {
        match self {
            RepoMode::Bare => "bare"@,
            RepoMode::BareUser => "bare-user"@,
            RepoMode::BareUserOnly => "bare-user-only"@,
            RepoMode::ArchiveZ2 => "archive-z2"@,
            RepoMode::BareSplitXattrs => "bare-split-xattrs"@,
        }
    }

    /// The name of the mode as the repository's configuration writes it.
    pub fn to_string(self) -> (name: String)
        ensures
            name@ == self.name(),
    {
        match self {
            RepoMode::Bare => "bare".to_owned(),
            RepoMode::BareUser => "bare-user".to_owned(),
            RepoMode::BareUserOnly => "bare-user-only".to_owned(),
            RepoMode::ArchiveZ2 => "archive-z2".to_owned(),
            RepoMode::BareSplitXattrs => "bare-split-xattrs".to_owned(),
        }
    }

    /// The mode with the given name.
    pub fn from_str(name: &str) -> (r: Result<RepoMode, UnknownName>)
        ensures
            match r {
                Ok(m) => m.name() == name@,
                Err(_) => forall|m: RepoMode| m.name() != name@,
            },
    {
        if same_name(name, "bare") {
            Ok(RepoMode::Bare)
        } else if same_name(name, "bare-user") {
            Ok(RepoMode::BareUser)
        } else if same_name(name, "bare-user-only") {
            Ok(RepoMode::BareUserOnly)
        } else if same_name(name, "archive-z2") {
            Ok(RepoMode::ArchiveZ2)
        } else if same_name(name, "bare-split-xattrs") {
            Ok(RepoMode::BareSplitXattrs)
        } else {
            Err(UnknownName)
        }
    }
}

/// The file extension of a loose object: the name of its kind, followed by
/// `z` where the repository stores metadata objects compressed.
pub open spec fn extension_of(typ: ObjectType, mode: RepoMode) -> Seq<char> {
    if mode == RepoMode::ArchiveZ2 && typ.spec_is_meta() {
        typ.name() + seq!['z']
    } else {
        typ.name()
    }
}

/// Where a loose object lies below the objects directory: a directory
/// named by the first two hex digits of the checksum, a file named by the
/// rest, and the extension of its kind.
pub open spec fn loose_path_of(checksum: Seq<u8>, typ: ObjectType, mode: RepoMode) -> Seq<char> {
    hex_chars(checksum).subrange(0, 2) + seq!['/'] + hex_chars(checksum).subrange(
        2,
        2 * (checksum.len() as int),
    ) + seq!['.'] + extension_of(typ, mode)
}

/// The file extension of a loose object of the given kind.
pub fn loose_path_extension(typ: ObjectType, mode: RepoMode) -> (ext: String)
    ensures
        ext@ == extension_of(typ, mode),
{
    let mut result = typ.to_string();
    if mode == RepoMode::ArchiveZ2 && typ.is_meta() {
        proof {
            reveal_strlit("z");
            assert("z"@ =~= seq!['z']);
        }
        result.append("z");
    }
    result
}

/// The path of a loose object, relative to the objects directory. The
/// directory separator is `/`.
pub fn loose_path(checksum: &Checksum, typ: ObjectType, mode: RepoMode) -> (path: String)
    requires
        checksum@.len() >= 1,
    ensures
        path@ == loose_path_of(checksum@, typ, mode),
{
    let hex = checksum.to_string();
    let ext = loose_path_extension(typ, mode);
    proof {
        lemma_hex_round_trip(checksum@);
        reveal_strlit("/");
        reveal_strlit(".");
        assert("/"@ =~= seq!['/']);
        assert("."@ =~= seq!['.']);
    }
    let n = hex.as_str().unicode_len();
    let mut result = hex.as_str().substring_ascii(0, 2).to_owned();
    result.append("/");
    result.append(hex.as_str().substring_ascii(2, n));
    result.append(".");
    result.append(ext.as_str());
    result
}

/// The names of the kinds, as their characters.
pub proof fn lemma_type_names()
    ensures
        ObjectType::File.name() == seq!['f', 'i', 'l', 'e'],
        ObjectType::DirTree.name() == seq!['d', 'i', 'r', 't', 'r', 'e', 'e'],
        ObjectType::DirMeta.name() == seq!['d', 'i', 'r', 'm', 'e', 't', 'a'],
        ObjectType::Commit.name() == seq!['c', 'o', 'm', 'm', 'i', 't'],
        ObjectType::TombstoneCommit.name() == seq![
            't',
            'o',
            'm',
            'b',
            's',
            't',
            'o',
            'n',
            'e',
            'c',
            'o',
            'm',
            'm',
            'i',
            't',
        ],
        ObjectType::CommitMeta.name() == seq!['c', 'o', 'm', 'm', 'i', 't', 'm', 'e', 't', 'a'],
        ObjectType::PayloadLink.name() == seq!['p', 'a', 'y', 'l', 'o', 'a', 'd', 'l', 'i', 'n', 'k'],
        ObjectType::FileXattrs.name() == seq!['f', 'i', 'l', 'e', 'x', 'a', 't', 't', 'r', 's'],
        ObjectType::FileXattrsLink.name() == seq![
            'f',
            'i',
            'l',
            'e',
            'x',
            'a',
            't',
            't',
            'r',
            's',
            'l',
            'i',
            'n',
            'k',
        ],
{
    reveal_strlit("file");
    reveal_strlit("dirtree");
    reveal_strlit("dirmeta");
    reveal_strlit("commit");
    reveal_strlit("tombstonecommit");
    reveal_strlit("commitmeta");
    reveal_strlit("payloadlink");
    reveal_strlit("filexattrs");
    reveal_strlit("filexattrslink");
    assert(ObjectType::File.name() =~= seq!['f', 'i', 'l', 'e']);
    assert(ObjectType::DirTree.name() =~= seq!['d', 'i', 'r', 't', 'r', 'e', 'e']);
    assert(ObjectType::DirMeta.name() =~= seq!['d', 'i', 'r', 'm', 'e', 't', 'a']);
    assert(ObjectType::Commit.name() =~= seq!['c', 'o', 'm', 'm', 'i', 't']);
    assert(ObjectType::TombstoneCommit.name() =~= seq![
        't',
        'o',
        'm',
        'b',
        's',
        't',
        'o',
        'n',
        'e',
        'c',
        'o',
        'm',
        'm',
        'i',
        't',
    ]);
    assert(ObjectType::CommitMeta.name() =~= seq!['c', 'o', 'm', 'm', 'i', 't', 'm', 'e', 't', 'a']);
    assert(ObjectType::PayloadLink.name() =~= seq![
        'p',
        'a',
        'y',
        'l',
        'o',
        'a',
        'd',
        'l',
        'i',
        'n',
        'k',
    ]);
    assert(ObjectType::FileXattrs.name() =~= seq!['f', 'i', 'l', 'e', 'x', 'a', 't', 't', 'r', 's']);
    assert(ObjectType::FileXattrsLink.name() =~= seq![
        'f',
        'i',
        'l',
        'e',
        'x',
        'a',
        't',
        't',
        'r',
        's',
        'l',
        'i',
        'n',
        'k',
    ]);
}

/// The name of a kind is made of lower-case letters, and there is at
/// least one.
pub proof fn lemma_extension_letters(typ: ObjectType, mode: RepoMode)
    ensures
        extension_of(typ, mode).len() >= 1,
        forall|i: int|
            0 <= i < extension_of(typ, mode).len() ==> 'a' <= #[trigger] extension_of(typ, mode)[i]
                <= 'z',
{
    lemma_type_names();
}

/// Two kinds with the same extension are the same kind.
pub proof fn lemma_extension_injective(a: ObjectType, b: ObjectType, mode: RepoMode)
    requires
        extension_of(a, mode) == extension_of(b, mode),
    ensures
        a == b,
{
    lemma_type_names();
    let x = extension_of(a, mode);
    let y = extension_of(b, mode);
    assert(x.len() == y.len());
    assert(x[0] == y[0]);
    if x.len() >= 8 {
        assert(x[3] == y[3]);
        assert(x[4] == y[4]);
        assert(x[6] == y[6]);
    }
    if x.len() >= 7 {
        assert(x[3] == y[3]);
        assert(x[6] == y[6]);
    }
}

/// The hex digits are digits and the letters up to `f`: none is a full
/// stop or a stroke.
pub proof fn lemma_hex_chars_are_digits(data: Seq<u8>)
    ensures
        hex_chars(data).len() == 2 * data.len(),
        forall|i: int|
            0 <= i < 2 * data.len() ==> ('0' <= #[trigger] hex_chars(data)[i] <= '9') || ('a'
                <= hex_chars(data)[i] <= 'f'),
{
    assert forall|i: int| 0 <= i < 2 * data.len() implies ('0' <= #[trigger] hex_chars(data)[i]
        <= '9') || ('a' <= hex_chars(data)[i] <= 'f') by {
        let b = data[i / 2];
        assert(0 <= b as int / 16 < 16 && 0 <= b as int % 16 < 16);
    }
}

/// Byte strings with the same hex form are the same.
pub proof fn lemma_hex_chars_injective(a: Seq<u8>, b: Seq<u8>)
    requires
        hex_chars(a) == hex_chars(b),
    ensures
        a == b,
{
    lemma_hex_round_trip(a);
    lemma_hex_round_trip(b);
}

/// An object is identified by its kind together with its checksum: two
/// objects that differ in either lie at different paths, so that one is
/// never taken for the other.
pub proof fn lemma_loose_path_injective(
    c1: Seq<u8>,
    t1: ObjectType,
    c2: Seq<u8>,
    t2: ObjectType,
    mode: RepoMode,
)
    requires
        c1.len() >= 1,
        c2.len() >= 1,
        loose_path_of(c1, t1, mode) == loose_path_of(c2, t2, mode),
    ensures
        c1 == c2,
        t1 == t2,
{
    let first = loose_path_of(c1, t1, mode);
    let second = loose_path_of(c2, t2, mode);
    let h1 = hex_chars(c1);
    let h2 = hex_chars(c2);
    let e1 = extension_of(t1, mode);
    let e2 = extension_of(t2, mode);
    lemma_hex_chars_are_digits(c1);
    lemma_hex_chars_are_digits(c2);
    lemma_extension_letters(t1, mode);
    lemma_extension_letters(t2, mode);
    let n1 = 2 * (c1.len() as int);
    let n2 = 2 * (c2.len() as int);
    // How the characters of a path fall.
    assert forall|i: int| 0 <= i < first.len() implies #[trigger] first[i] == (if i < 2 {
        h1[i]
    } else if i == 2 {
        '/'
    } else if i < n1 + 1 {
        h1[i - 1]
    } else if i == n1 + 1 {
        '.'
    } else {
        e1[i - n1 - 2]
    }) by {}
    assert forall|i: int| 0 <= i < second.len() implies #[trigger] second[i] == (if i < 2 {
        h2[i]
    } else if i == 2 {
        '/'
    } else if i < n2 + 1 {
        h2[i - 1]
    } else if i == n2 + 1 {
        '.'
    } else {
        e2[i - n2 - 2]
    }) by {}
    assert(first.len() == n1 + 2 + e1.len());
    assert(second.len() == n2 + 2 + e2.len());
    // The full stop stands where the hex digits end.
    if n1 < n2 {
        assert(first[n1 + 1] == '.');
        assert(second[n1 + 1] == h2[n1]);
    }
    if n2 < n1 {
        assert(second[n2 + 1] == '.');
        assert(first[n2 + 1] == h1[n2]);
    }
    assert(n1 == n2);
    assert(h1 =~= h2) by {
        assert forall|i: int| 0 <= i < n1 implies h1[i] == h2[i] by {
            if i < 2 {
                assert(first[i] == second[i]);
            } else {
                assert(first[i + 1] == second[i + 1]);
            }
        }
    }
    lemma_hex_chars_injective(c1, c2);
    assert(e1 =~= e2) by {
        assert forall|i: int| 0 <= i < e1.len() implies e1[i] == e2[i] by {
            assert(first[i + n1 + 2] == second[i + n1 + 2]);
        }
    }
    lemma_extension_injective(t1, t2, mode);
}

} // verus!
