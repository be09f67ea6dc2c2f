//! What can go wrong in a repository.

use crate::checksum::hex_chars;
use crate::checksum::Checksum;
use crate::object::RepoMode;
use vstd::prelude::*;
use vstd::string::StringExecFns;

verus! {

/// The error of the GVariant codec. Nothing is known of what is inside.
#[verifier::external_type_specification]
#[verifier::external_body]
pub struct ExVariantError(zvariant::Error);

/// What kind of failure the filesystem reported.
#[derive(Debug, Clone, Copy, PartialEq, Eq, Structural)]
pub enum IoErrorKind {
    /// There is nothing at the path.
    NotFound,
    /// There is something at the path already.
    AlreadyExists,
    /// Any other failure.
    Other,
}

/// A failure of the filesystem.
#[derive(Debug)]
pub struct IoError {
    pub kind: IoErrorKind,
    pub message: String,
}

impl IoError {
    /// The failure to find an object that was asked for: of the kind
    /// that says so, with the words that the filesystem has for it.
    pub fn not_found() -> (e: IoError)
        ensures
            e.kind == IoErrorKind::NotFound,
            e.message@ == "entity not found"@,
    {
        IoError { kind: IoErrorKind::NotFound, message: "entity not found".to_owned() }
    }
}

/// The kinds of failure of a repository operation.
#[derive(Debug)]
pub enum RepoErrorKind {
    /// A repository was to be created where there is one already.
    AlreadyExists,
    /// The name of a directory entry, given by its bytes, is not valid
    /// Unicode.
    InvalidFilename(Vec<u8>),
    /// A name was to be used for a file and a directory at once.
    InvalidMtree(String),
    /// The directory is not laid out as a repository is.
    MalformedRepo,
    /// An object could not be encoded or decoded.
    Variant(zvariant::Error),
    /// The filesystem failed.
    Io(IoError),
    /// Bytes are not in the form in which an object is kept.
    Format,
    /// The repository is in a storage mode that is not provided for.
    UnsupportedMode(RepoMode),
}

impl RepoErrorKind {
    /// What is said of a failure of this kind. The name of a file that is
    /// not valid Unicode is given by its bytes in hex.
    pub open spec fn message(&self) -> Seq<char> {
        match self {
            RepoErrorKind::AlreadyExists => "Repo already exists."@,
            RepoErrorKind::InvalidFilename(name) => "Filename is invalid: "@ + hex_chars(name@),
            RepoErrorKind::InvalidMtree(what) => "Invalid mutable tree: "@ + what@,
            RepoErrorKind::MalformedRepo => "Repo is malformed."@,
            RepoErrorKind::Variant(_) => "variant error"@,
            RepoErrorKind::Io(_) => "IO Error"@,
            RepoErrorKind::Format => "Format error"@,
            RepoErrorKind::UnsupportedMode(mode) => "Repo mode "@ + mode.name()
                + " is not yet supported."@,
        }
    }

    /// What is said of a failure of this kind.
    pub fn to_string(&self) -> (text: String)
        ensures
            text@ == self.message(),
    {
        match self {
            RepoErrorKind::AlreadyExists => "Repo already exists.".to_owned(),
            RepoErrorKind::InvalidFilename(name) => {
                let mut text = "Filename is invalid: ".to_owned();
                let mut copy: Vec<u8> = Vec::new();
                let mut i: usize = 0;
                while i < name.len()
                    invariant
                        i <= name.len(),
                        copy@ == name@.take(i as int),
                    decreases name.len() - i,
                {
                    copy.push(name[i]);
                    proof {
                        assert(name@.take(i + 1) =~= name@.take(i as int).push(name@[i as int]));
                    }
                    i += 1;
                }
                proof {
                    assert(name@.take(i as int) =~= name@);
                }
                text.append(Checksum::from(copy).to_string().as_str());
                text
            },
            RepoErrorKind::InvalidMtree(what) => {
                let mut text = "Invalid mutable tree: ".to_owned();
                text.append(what.as_str());
                text
            },
            RepoErrorKind::MalformedRepo => "Repo is malformed.".to_owned(),
            RepoErrorKind::Variant(_) => "variant error".to_owned(),
            RepoErrorKind::Io(_) => "IO Error".to_owned(),
            RepoErrorKind::Format => "Format error".to_owned(),
            RepoErrorKind::UnsupportedMode(mode) => {
                let mut text = "Repo mode ".to_owned();
                text.append(mode.to_string().as_str());
                text.append(" is not yet supported.");
                text
            },
        }
    }
}

/// The failure of a repository operation.
#[derive(Debug)]
pub struct RepoError {
    pub source: RepoErrorKind,
}

impl RepoError {
    /// The kind of failure.
    pub fn kind(&self) -> (k: &RepoErrorKind)
        ensures
            *k == self.source,
    {
        &self.source
    }

    /// What is said of the failure: what is said of its kind.
    pub fn to_string(&self) -> (text: String)
        ensures
            text@ == self.source.message(),
    {
        self.source.to_string()
    }
}

impl From<RepoErrorKind> for RepoError {
    fn from(source: RepoErrorKind) -> (e: RepoError)
        ensures
            e.source == source,
    {
        RepoError { source }
    }
}

impl vstd::std_specs::convert::FromSpecImpl<RepoErrorKind> for RepoError {
    open spec fn obeys_from_spec() -> bool {
        true
    }

    open spec fn from_spec(source: RepoErrorKind) -> RepoError {
        RepoError { source }
    }
}

impl From<zvariant::Error> for RepoError {
    fn from(e: zvariant::Error) -> (r: RepoError)
        ensures
            r.source == RepoErrorKind::Variant(e),
    {
        RepoError { source: RepoErrorKind::Variant(e) }
    }
}

impl vstd::std_specs::convert::FromSpecImpl<zvariant::Error> for RepoError {
    open spec fn obeys_from_spec() -> bool {
        true
    }

    open spec fn from_spec(e: zvariant::Error) -> RepoError {
        RepoError { source: RepoErrorKind::Variant(e) }
    }
}

impl From<IoError> for RepoError {
    fn from(e: IoError) -> (r: RepoError)
        ensures
            r.source == RepoErrorKind::Io(e),
    {
        RepoError { source: RepoErrorKind::Io(e) }
    }
}

impl vstd::std_specs::convert::FromSpecImpl<IoError> for RepoError {
    open spec fn obeys_from_spec() -> bool {
        true
    }

    open spec fn from_spec(e: IoError) -> RepoError {
        RepoError { source: RepoErrorKind::Io(e) }
    }
}

} // verus!
