//! Permissions as nine bits: read, write and execute for the owner, the
//! group and everyone.

use crate::error::IoError;
use vstd::prelude::*;

verus! {

/// The rights that reading a file takes on Windows.
pub const FILE_GENERIC_READ: u32 = 0x0012_0089;

/// The rights that writing a file takes on Windows.
pub const FILE_GENERIC_WRITE: u32 = 0x0012_0116;

/// The rights that running a file takes on Windows.
pub const FILE_GENERIC_EXECUTE: u32 = 0x0012_00a0;

/// Something whose permissions can be told as nine bits.
pub trait PermissionsExtExt: Sized {
    /// The permissions of the value, as far as they can be told.
    spec fn permissions(self) -> Option<u32>;

    /// The permissions as nine bits: never a bit above them.
    fn unixy_permissions(self) -> (r: Result<u32, IoError>)
        ensures
            match r {
                Ok(p) => self.permissions() == Some(p) && p <= 0o777,
                Err(_) => self.permissions() is None,
            },
    ;
}

/// The mode of a file as Unix reports it.
#[derive(Debug, Clone, Copy, PartialEq, Eq, Structural)]
pub struct UnixMode(pub u32);

impl PermissionsExtExt for UnixMode {
    open spec fn permissions(self) -> Option<u32> {
        Some(self.0 & 0o777)
    }

    fn unixy_permissions(self) -> (r: Result<u32, IoError>) {
        let mode = self.0;
        let p = mode & 0o777;
        assert(mode & 0o777 <= 0o777) by (bit_vector);
        Ok(p)
    }
}

/// The three permission bits that an access mask grants: four for
/// reading, two for writing, one for running, each where the mask holds
/// all the rights that it takes.
pub open spec fn unix_perms_of(mask: u32) -> u32 {
    let x: u32 = if mask & FILE_GENERIC_EXECUTE == FILE_GENERIC_EXECUTE {
        1
    } else {
        0
    };
    let w: u32 = if mask & FILE_GENERIC_WRITE == FILE_GENERIC_WRITE {
        2
    } else {
        0
    };
    let r: u32 = if mask & FILE_GENERIC_READ == FILE_GENERIC_READ {
        4
    } else {
        0
    };
    (x + w + r) as u32
}

/// The three permission bits that an access mask grants.
pub fn access_mask_to_unix_perms(mask: u32) -> (result: u32)
    ensures
        result == unix_perms_of(mask),
        result <= 7,
{
    let mut result: u32 = 0;
    if mask & FILE_GENERIC_EXECUTE == FILE_GENERIC_EXECUTE {
        result += 1;
    }
    if mask & FILE_GENERIC_WRITE == FILE_GENERIC_WRITE {
        result += 2;
    }
    if mask & FILE_GENERIC_READ == FILE_GENERIC_READ {
        result += 4;
    }
    result
}

/// The access mask that grants what three permission bits allow.
pub open spec fn access_mask_of(perms: u8) -> u32 {
    let x: u32 = if perms & 1 == 1 {
        FILE_GENERIC_EXECUTE
    } else {
        0
    };
    let w: u32 = if perms & 2 == 2 {
        FILE_GENERIC_WRITE
    } else {
        0
    };
    let r: u32 = if perms & 4 == 4 {
        FILE_GENERIC_READ
    } else {
        0
    };
    x | w | r
}

/// The access mask that grants what three permission bits allow.
pub fn unix_perms_to_access_mask(perms: u8) -> (result: u32)
    ensures
        result == access_mask_of(perms),
{
    let mut result: u32 = 0;
    if perms & 1 == 1 {
        result = result | FILE_GENERIC_EXECUTE;
    }
    if perms & 2 == 2 {
        result = result | FILE_GENERIC_WRITE;
    }
    if perms & 4 == 4 {
        result = result | FILE_GENERIC_READ;
    }
    proof {
        assert(0u32 | FILE_GENERIC_EXECUTE == FILE_GENERIC_EXECUTE) by (bit_vector);
        assert(0u32 | FILE_GENERIC_WRITE == FILE_GENERIC_WRITE) by (bit_vector);
        assert(0u32 | FILE_GENERIC_READ == FILE_GENERIC_READ) by (bit_vector);
        assert(0u32 | 0u32 == 0u32) by (bit_vector);
        assert(forall|a: u32| #[trigger] (a | 0u32) == a) by (bit_vector);
        assert(forall|a: u32| #[trigger] (0u32 | a) == a) by (bit_vector);
    }
    result
}

/// The access masks that a file grants to its owner, to its group and to
/// everyone.
#[derive(Debug, Clone, Copy, PartialEq, Eq, Structural)]
pub struct EffectiveRights {
    pub owner: u32,
    pub group: u32,
    pub everyone: u32,
}

/// The nine permission bits that three access masks grant: the owner's
/// bits highest, those of everyone lowest.
pub open spec fn unixy_mode_of(rights: EffectiveRights) -> u32 {
    (unix_perms_of(rights.everyone) + unix_perms_of(rights.group) * 8 + unix_perms_of(rights.owner)
        * 64) as u32
}

/// The nine permission bits that three access masks grant.
pub fn get_unixy_mode(rights: EffectiveRights) -> (mode: u32)
    ensures
        mode == unixy_mode_of(rights),
        mode <= 0o777,
{
    let owner = access_mask_to_unix_perms(rights.owner);
    let group = access_mask_to_unix_perms(rights.group);
    let everyone = access_mask_to_unix_perms(rights.everyone);
    everyone + group * 8 + owner * 64
}

/// The three permission bits that a file grants to its owner.
pub fn get_owner_permissions(rights: EffectiveRights) -> (perms: u8)
    ensures
        perms == unix_perms_of(rights.owner),
{
    access_mask_to_unix_perms(rights.owner) as u8
}

impl PermissionsExtExt for EffectiveRights {
    open spec fn permissions(self) -> Option<u32> {
        Some(unixy_mode_of(self))
    }

    fn unixy_permissions(self) -> (r: Result<u32, IoError>) {
        Ok(get_unixy_mode(self))
    }
}

} // verus!
