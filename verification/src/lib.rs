//! A content-addressed object store for filesystem trees, in the OSTree
//! repository format, with the readers of archives and plugins and the
//! site addresses of the mod manager around it.
//!
//! Directories, files and their metadata are objects named by the SHA-256
//! digest of their canonical encoding; a snapshot is a Merkle tree of such
//! objects. The store and the trees in which snapshots are staged are
//! values in memory: reading them from disk and writing them to disk is
//! left to the caller.
//!
//! - [`checksum`], [`digest`]: checksums and their hex text.
//! - [`object`]: object kinds, storage modes, and where a loose object
//!   lies.
//! - [`codec`], [`schema`], [`framing`]: the structured objects, their
//!   canonical encoding, and how the metadata of a commit lies in it.
//! - [`names`], [`name_map`]: the order of names, and maps that are held
//!   in that order.
//! - [`repo`], [`traits`]: the repository and what it offers.
//! - [`mutable_tree`], [`ingest`], [`order`]: staging a snapshot,
//!   bringing a directory into it, and why the order in which the
//!   directory is read does not matter.
//! - [`stream`], [`bsa`], [`esp`]: reading archives and plugins from
//!   bytes.
//! - [`archive`], [`perms`], [`keyfile`], [`text`], [`nexus`],
//!   [`launcher`]: what else the mod manager needs.

pub mod archive;
pub mod bsa;
pub mod checksum;
pub mod codec;
pub mod digest;
pub mod error;
pub mod esp;
pub mod framing;
pub mod ingest;
pub mod keyfile;
pub mod launcher;
pub mod mutable_tree;
pub mod name_map;
pub mod names;
pub mod nexus;
pub mod object;
pub mod order;
pub mod perms;
pub mod repo;
pub mod schema;
pub mod stream;
pub mod text;
pub mod traits;

pub use crate::checksum::Checksum;
pub use crate::error::RepoError;
pub use crate::error::RepoErrorKind;
pub use crate::object::loose_path;
pub use crate::object::ObjectType;
pub use crate::object::RepoMode;
pub use crate::repo::hash_file;
pub use crate::repo::OsTreeRepo;
pub use crate::repo::RepoConfig;
pub use crate::repo::RepoCoreConfig;
pub use crate::schema::Commit;
pub use crate::schema::DirMeta;
pub use crate::schema::DirTree;
pub use crate::schema::DirTreeChecksums;
pub use crate::schema::FileHeader;
pub use crate::schema::Object;
pub use crate::schema::RelatedObject;
pub use crate::traits::RepoRead;
pub use crate::traits::RepoReadExt;
pub use crate::traits::RepoWrite;
pub use crate::traits::RepoWriteObject;
