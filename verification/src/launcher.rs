//! The directories that a game is started with.

use vstd::prelude::*;

verus! {

/// The directories of the mods that lie over a game's own, the directory
/// that takes what the game writes, and the directory that the game sees.
#[derive(Debug)]
#[allow(non_snake_case)]
pub struct ModEnvironment {
    pub modDirectories: Vec<String>,
    pub overrideDirectory: String,
    pub targetDirectory: String,
}

/// What the options of an overlay mount begin with.
pub open spec fn lower_dir_option() -> Seq<u8> {
    seq![45u8, 111u8, 108u8, 111u8, 119u8, 101u8, 114u8, 100u8, 105u8, 114u8, 61u8]
}

impl ModEnvironment {
    /// Prepares the environment. The directories stay as they are: the
    /// options of the mount are begun and nothing is mounted yet.
    pub fn setup(&mut self)
        ensures
            *final(self) == *old(self),
    {
        let mut data_buf: Vec<u8> = Vec::new();
        data_buf.push(45);
        data_buf.push(111);
        data_buf.push(108);
        data_buf.push(111);
        data_buf.push(119);
        data_buf.push(101);
        data_buf.push(114);
        data_buf.push(100);
        data_buf.push(105);
        data_buf.push(114);
        data_buf.push(61);
        assert(data_buf@ =~= lower_dir_option());
    }
}

/// The version of a program as one number: the major version in the
/// highest byte, the minor version in the next, and the build, of which
/// twelve bits are kept, in the twelve bits above the lowest four.
pub open spec fn exe_version(major: u8, minor: u8, build: u16) -> u32 {
    (major as u32) << 24 | (minor as u32) << 16 | ((build & 0xfff) as u32) << 4
}

/// The version of a program as one number.
pub fn make_exe_version(major: u8, minor: u8, build: u16) -> (v: u32)
    ensures
        v == exe_version(major, minor, build),
{
    ((major as u32) << 24) | ((minor as u32) << 16) | (((build & 0xfff) as u32) << 4)
}

/// An array that begins with the bytes of `init` and is zero behind
/// them.
pub fn make_u8array<const N: usize>(init: &[u8]) -> (result: [u8; N])
    requires
        init@.len() <= N,
    ensures
        forall|i: int| 0 <= i < init@.len() ==> result@[i] == init@[i],
        forall|i: int| init@.len() <= i < N ==> result@[i] == 0,
{
    let mut result: [u8; N] = [0; N];
    let mut i: usize = 0;
    while i < init.len()
        invariant
            i <= init@.len() <= N,
            forall|k: int| 0 <= k < i ==> result@[k] == init@[k],
            forall|k: int| i <= k < N ==> result@[k] == 0,
        decreases init@.len() - i,
    {
        result[i] = init[i];
        i += 1;
    }
    result
}

/// An array that begins with the numbers of `init` and is zero behind
/// them.
pub fn make_u32array<const N: usize>(init: &[u32]) -> (result: [u32; N])
    requires
        init@.len() <= N,
    ensures
        forall|i: int| 0 <= i < init@.len() ==> result@[i] == init@[i],
        forall|i: int| init@.len() <= i < N ==> result@[i] == 0,
{
    let mut result: [u32; N] = [0; N];
    let mut i: usize = 0;
    while i < init.len()
        invariant
            i <= init@.len() <= N,
            forall|k: int| 0 <= k < i ==> result@[k] == init@[k],
            forall|k: int| i <= k < N ==> result@[k] == 0,
        decreases init@.len() - i,
    {
        result[i] = init[i];
        i += 1;
    }
    result
}

} // verus!
