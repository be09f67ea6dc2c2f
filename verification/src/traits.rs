//! What a repository offers, apart from how it is held: reading objects,
//! writing them, and loading structured objects.

use crate::checksum::Checksum;
use crate::digest::sha256;
use crate::digest::DIGEST_LEN;
use crate::error::RepoError;
use crate::error::RepoErrorKind;
use crate::framing::Unframed;
use crate::schema::entered;
use crate::schema::parsed_dir_entries;
use crate::schema::parsed_file_entries;
use crate::object::loose_path_of;
use crate::object::ObjectType;
use crate::object::RepoMode;
use crate::repo::hashed_bytes;
use crate::repo::with_object;
use crate::repo::OsTreeRepo;
use crate::schema::Commit;
use crate::schema::DirMeta;
use crate::schema::DirTree;
use crate::schema::Encode;
use crate::schema::Object;
use vstd::prelude::*;

verus! {

/// A store from which objects can be read. Objects do not know their own
/// kind, and two objects of different kinds may have the same checksum:
/// an object is asked for by kind and checksum together.
pub trait RepoRead {
    /// How a failure is reported.
    type Error;

    /// What is handed out for an object.
    type ObjectHandle;

    /// Whether the store is in order.
    spec fn readable(&self) -> bool;

    /// The bytes of the object of the given kind and checksum, if the
    /// store has it.
    spec fn stored(&self, typ: ObjectType, chk: Seq<u8>) -> Option<Seq<u8>>;

    /// Whether it can be told at all which objects the store has.
    spec fn can_tell(&self) -> bool;

    /// Whether objects can be handed out at all.
    spec fn can_get(&self) -> bool;

    /// The bytes that a handle stands for.
    spec fn handle_bytes(handle: Self::ObjectHandle) -> Seq<u8>;

    /// Whether the store has the object.
    fn try_contains(&self, typ: ObjectType, chk: &Checksum) -> (r: Result<bool, Self::Error>)
        requires
            self.readable(),
        ensures
            match r {
                Ok(b) => self.can_tell() && b == self.stored(typ, chk@).is_some(),
                Err(_) => !self.can_tell(),
            },
    ;

    /// The object, or `None` where the store does not have it.
    fn try_get(&self, typ: ObjectType, chk: &Checksum) -> (r: Result<
        Option<Self::ObjectHandle>,
        Self::Error,
    >)
        requires
            self.readable(),
        ensures
            match r {
                Ok(Some(handle)) => self.can_get() && self.stored(typ, chk@) == Some(
                    Self::handle_bytes(handle),
                ),
                Ok(None) => self.can_get() && self.stored(typ, chk@) is None,
                Err(_) => !self.can_get(),
            },
    ;

    /// Whether the store has the object; `false` where that cannot be
    /// told.
    fn contains(&self, typ: ObjectType, chk: &Checksum) -> (b: bool)
        requires
            self.readable(),
        ensures
            b == (self.can_tell() && self.stored(typ, chk@).is_some()),
    ;

    /// The object, or `None` where the store does not have it or cannot
    /// hand it out.
    fn get(&self, typ: ObjectType, chk: &Checksum) -> (r: Option<Self::ObjectHandle>)
        requires
            self.readable(),
        ensures
            match r {
                Some(handle) => self.can_get() && self.stored(typ, chk@) == Some(
                    Self::handle_bytes(handle),
                ),
                None => !self.can_get() || self.stored(typ, chk@) is None,
            },
    ;
}

impl RepoRead for OsTreeRepo {
    type Error = RepoError;

    type ObjectHandle = Vec<u8>;

    open spec fn readable(&self) -> bool {
        self.wf()
    }

    open spec fn stored(&self, typ: ObjectType, chk: Seq<u8>) -> Option<Seq<u8>> {
        self.object(typ, chk)
    }

    open spec fn can_tell(&self) -> bool {
        true
    }

    open spec fn can_get(&self) -> bool {
        self.config().core.mode == RepoMode::BareUserOnly
    }

    open spec fn handle_bytes(handle: Vec<u8>) -> Seq<u8> {
        handle@
    }

    fn try_contains(&self, typ: ObjectType, chk: &Checksum) -> (r: Result<bool, RepoError>) {
        OsTreeRepo::try_contains(self, typ, chk)
    }

    fn try_get(&self, typ: ObjectType, chk: &Checksum) -> (r: Result<Option<Vec<u8>>, RepoError>) {
        match OsTreeRepo::try_get(self, typ, chk) {
            Ok(Some(data)) => Ok(Some(data.clone())),
            Ok(None) => Ok(None),
            Err(e) => Err(e),
        }
    }

    fn contains(&self, typ: ObjectType, chk: &Checksum) -> (b: bool) {
        OsTreeRepo::contains(self, typ, chk)
    }

    fn get(&self, typ: ObjectType, chk: &Checksum) -> (r: Option<Vec<u8>>) {
        match OsTreeRepo::get(self, typ, chk) {
            Some(data) => Some(data.clone()),
            None => None,
        }
    }
}

/// A store to which values of type `T` can be written as objects of the
/// kind that goes with the type.
pub trait RepoWriteObject<T> {
    /// How a failure is reported.
    type Error;

    /// Whether the store is in order.
    spec fn writable(&self) -> bool;

    /// Whether writing `object` to the store `before` may leave the store
    /// `after` and return `r`.
    spec fn written(before: &Self, object: T, after: &Self, r: Result<Checksum, Self::Error>) -> bool;

    /// Writes `object` and returns its checksum.
    fn write(&mut self, object: T) -> (r: Result<Checksum, Self::Error>)
        requires
            old(self).writable(),
        ensures
            final(self).writable(),
            Self::written(old(self), object, final(self), r),
    ;
}

/// A store to which values of type `T` can be written as objects of a
/// kind that the caller names.
pub trait RepoWrite<T> {
    /// How a failure is reported.
    type Error;

    /// Whether the store is in order.
    spec fn writable_as(&self) -> bool;

    /// Whether writing `object` as an object of kind `typ` to the store
    /// `before` may leave the store `after` and return `r`.
    spec fn written_as(
        before: &Self,
        object: T,
        typ: ObjectType,
        after: &Self,
        r: Result<Checksum, Self::Error>,
    ) -> bool;

    /// Writes `object` as an object of kind `typ` and returns its
    /// checksum.
    fn write_with_type(&mut self, object: T, typ: ObjectType) -> (r: Result<Checksum, Self::Error>)
        requires
            old(self).writable_as(),
        ensures
            final(self).writable_as(),
            Self::written_as(old(self), object, typ, final(self), r),
    ;
}

impl<'a> RepoWrite<&'a [u8]> for OsTreeRepo {
    type Error = RepoError;

    open spec fn writable_as(&self) -> bool {
        self.wf()
    }

    open spec fn written_as(
        before: &Self,
        object: &'a [u8],
        typ: ObjectType,
        after: &Self,
        r: Result<Checksum, RepoError>,
    ) -> bool {
        &&& after.config() == before.config()
        &&& match r {
            Ok(chk) => {
                &&& hashed_bytes(typ, before.config().core.mode, object@) is Some
                &&& chk@.len() == DIGEST_LEN
                &&& chk@ == sha256(hashed_bytes(typ, before.config().core.mode, object@)->0)
                &&& after.objects() == with_object(
                    before.objects(),
                    loose_path_of(chk@, typ, before.config().core.mode),
                    object@,
                )
            },
            Err(e) => {
                &&& hashed_bytes(typ, before.config().core.mode, object@) is None
                &&& e.source is Variant
                &&& after.objects() == before.objects()
            },
        }
    }

    fn write_with_type(&mut self, object: &'a [u8], typ: ObjectType) -> (r: Result<
        Checksum,
        RepoError,
    >) {
        OsTreeRepo::write_with_type(self, object, typ)
    }
}

impl<'a> RepoWriteObject<&'a [u8]> for OsTreeRepo {
    type Error = RepoError;

    open spec fn writable(&self) -> bool {
        self.wf()
    }

    open spec fn written(
        before: &Self,
        object: &'a [u8],
        after: &Self,
        r: Result<Checksum, RepoError>,
    ) -> bool {
        <OsTreeRepo as RepoWrite<&'a [u8]>>::written_as(before, object, ObjectType::File, after, r)
    }

    fn write(&mut self, object: &'a [u8]) -> (r: Result<Checksum, RepoError>) {
        OsTreeRepo::write_with_type(self, object, ObjectType::File)
    }
}

impl<'a, T: Object + Encode> RepoWriteObject<&'a T> for OsTreeRepo {
    type Error = RepoError;

    open spec fn writable(&self) -> bool {
        self.wf()
    }

    open spec fn written(before: &Self, object: &'a T, after: &Self, r: Result<Checksum, RepoError>) -> bool {
        &&& after.config() == before.config()
        &&& match r {
            Ok(chk) => {
                &&& object.encoding() is Some
                &&& chk@.len() == DIGEST_LEN
                &&& chk@ == sha256(object.encoding()->0)
                &&& after.objects() == with_object(
                    before.objects(),
                    loose_path_of(chk@, T::spec_object_type(), before.config().core.mode),
                    object.encoding()->0,
                )
            },
            Err(e) => {
                &&& object.encoding() is None
                &&& e.source is Variant
                &&& after.objects() == before.objects()
            },
        }
    }

    fn write(&mut self, object: &'a T) -> (r: Result<Checksum, RepoError>) {
        OsTreeRepo::write(self, object)
    }
}

/// A structured object that can be read from its canonical encoding.
pub trait Decode: Sized {
    /// Whether the bytes are accepted as a value of this type.
    spec fn decodable(bytes: Seq<u8>) -> bool;

    /// Whether `value` holds what the codec reads from `bytes`.
    spec fn reads_as(bytes: Seq<u8>, value: &Self) -> bool;

    /// Whether `e` is the failure with which `bytes`, which are not
    /// accepted, are refused.
    spec fn refusal(bytes: Seq<u8>, e: RepoError) -> bool;

    /// Reads a value from its canonical encoding: the value that holds
    /// what the codec reads from the bytes. It fails where the bytes are
    /// not accepted, and only then, with the failure that `refusal`
    /// names.
    fn decode_canonical(bytes: &[u8]) -> (r: Result<Self, RepoError>)
        ensures
            match r {
                Ok(value) => Self::decodable(bytes@) && Self::reads_as(bytes@, &value),
                Err(e) => !Self::decodable(bytes@) && Self::refusal(bytes@, e),
            },
    ;
}

impl Decode for DirTree {
    open spec fn decodable(bytes: Seq<u8>) -> bool {
        crate::codec::gvariant_dirtree_parsed(bytes) is Some
    }

    open spec fn reads_as(bytes: Seq<u8>, value: &Self) -> bool {
        &&& value.wf()
        &&& value.file_map() == entered(parsed_file_entries(bytes))
        &&& value.dir_map() == entered(parsed_dir_entries(bytes))
    }

    open spec fn refusal(bytes: Seq<u8>, e: RepoError) -> bool {
        e.source is Variant
    }

    fn decode_canonical(bytes: &[u8]) -> (r: Result<Self, RepoError>) {
        DirTree::decode(bytes)
    }
}

impl Decode for DirMeta {
    open spec fn decodable(bytes: Seq<u8>) -> bool {
        crate::codec::gvariant_dirmeta_parsed(bytes) is Some
    }

    open spec fn reads_as(bytes: Seq<u8>, value: &Self) -> bool {
        crate::codec::gvariant_dirmeta_parsed(bytes) == Some(
            (value.uid, value.gid, value.mode, value.xattrs.deep_view()),
        )
    }

    open spec fn refusal(bytes: Seq<u8>, e: RepoError) -> bool {
        e.source is Variant
    }

    fn decode_canonical(bytes: &[u8]) -> (r: Result<Self, RepoError>) {
        DirMeta::decode(bytes)
    }
}

impl Decode for Commit {
    open spec fn decodable(bytes: Seq<u8>) -> bool {
        crate::schema::commit_parsed(bytes) is Ok
    }

    open spec fn reads_as(bytes: Seq<u8>, value: &Self) -> bool {
        crate::schema::commit_parsed(bytes) matches Ok(fields) && value.holds(fields)
    }

    open spec fn refusal(bytes: Seq<u8>, e: RepoError) -> bool {
        match crate::schema::commit_parsed(bytes) {
            Err(Unframed::Codec) => e.source is Variant,
            Err(Unframed::Padding) => e.source is Format,
            Ok(_) => false,
        }
    }

    fn decode_canonical(bytes: &[u8]) -> (r: Result<Self, RepoError>) {
        Commit::decode(bytes)
    }
}

/// A store from which structured objects of type `T` can be loaded.
pub trait RepoReadExt<T>: RepoRead {
    /// Whether the bytes are accepted as a value of type `T`.
    spec fn loadable(bytes: Seq<u8>) -> bool;

    /// Whether `value` holds what the codec reads from `bytes`.
    spec fn loaded(bytes: Seq<u8>, value: &T) -> bool;

    /// The kind of object that values of type `T` are stored as.
    spec fn loaded_type() -> ObjectType;

    /// Whether `e` is the failure with which loading the object with
    /// checksum `chk` fails, where it does.
    spec fn load_failure(&self, chk: Seq<u8>, e: Self::Error) -> bool;

    /// Loads the object with the given checksum: the value that holds what
    /// the codec reads from the object's bytes, or `None` where the store
    /// does not have the object. The call fails where the store cannot
    /// hand objects out, and where the object's bytes are not accepted.
    fn try_load(&self, chk: &Checksum) -> (r: Result<Option<T>, Self::Error>)
        requires
            self.readable(),
        ensures
            match r {
                Ok(Some(value)) => {
                    &&& self.can_get()
                    &&& self.stored(Self::loaded_type(), chk@) matches Some(bytes)
                    &&& Self::loadable(bytes)
                    &&& Self::loaded(bytes, &value)
                },
                Ok(None) => self.can_get() && self.stored(Self::loaded_type(), chk@) is None,
                Err(e) => {
                    &&& !self.can_get() || (self.stored(Self::loaded_type(), chk@) matches Some(
                        bytes,
                    ) && !Self::loadable(bytes))
                    &&& self.load_failure(chk@, e)
                },
            },
    ;

    /// Loads the object with the given checksum: `None` where it cannot
    /// be had for any reason.
    fn load(&self, chk: &Checksum) -> (r: Option<T>)
        requires
            self.readable(),
        ensures
            match r {
                Some(value) => {
                    &&& self.can_get()
                    &&& self.stored(Self::loaded_type(), chk@) matches Some(bytes)
                    &&& Self::loadable(bytes)
                    &&& Self::loaded(bytes, &value)
                },
                None => !(self.can_get() && (self.stored(Self::loaded_type(), chk@) matches Some(
                    bytes,
                ) && Self::loadable(bytes))),
            },
    ;
}

impl<T: Object + Decode> RepoReadExt<T> for OsTreeRepo {
    open spec fn loadable(bytes: Seq<u8>) -> bool {
        T::decodable(bytes)
    }

    open spec fn loaded(bytes: Seq<u8>, value: &T) -> bool {
        T::reads_as(bytes, value)
    }

    open spec fn loaded_type() -> ObjectType {
        T::spec_object_type()
    }

    /// Outside the one storage mode that is provided for, loading fails
    /// and names the mode; otherwise it fails only where the object's
    /// bytes are refused, with the failure of the decoder.
    open spec fn load_failure(&self, chk: Seq<u8>, e: RepoError) -> bool {
        if self.config().core.mode != RepoMode::BareUserOnly {
            e.source == RepoErrorKind::UnsupportedMode(self.config().core.mode)
        } else {
            self.object(T::spec_object_type(), chk) matches Some(bytes) && T::refusal(bytes, e)
        }
    }

    fn try_load(&self, chk: &Checksum) -> (r: Result<Option<T>, RepoError>) {
        let bytes = match OsTreeRepo::try_get(self, T::object_type(), chk) {
            Ok(Some(bytes)) => bytes,
            Ok(None) => {
                return Ok(None);
            },
            Err(e) => {
                return Err(e);
            },
        };
        match T::decode_canonical(bytes.as_slice()) {
            Ok(value) => Ok(Some(value)),
            Err(e) => Err(e),
        }
    }

    fn load(&self, chk: &Checksum) -> (r: Option<T>) {
        match <OsTreeRepo as RepoReadExt<T>>::try_load(self, chk) {
            Ok(r) => r,
            Err(_) => None,
        }
    }
}

} // verus!
