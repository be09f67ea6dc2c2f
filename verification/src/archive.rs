//! What is known of the entries of an archive, whatever its format, and
//! how the outcome of an extraction is read.

use crate::checksum::Checksum;
use crate::error::IoError;
use vstd::prelude::*;

verus! {

/// How the data of an entry is stored.
#[derive(Debug, Clone, Copy, PartialEq, Eq, Structural)]
pub enum CompressionMethod {
    Store,
    Deflate,
    Deflate64,
    Unknown,
}

/// What an archive knows of one of its entries. Times are in seconds
/// since the beginning of 1970.
pub trait EntryMetadata {
    /// Why the time of the last change cannot be told.
    type Error;

    spec fn spec_is_dir(&self) -> bool;

    spec fn spec_is_file(&self) -> bool;

    spec fn spec_is_symlink(&self) -> bool;

    spec fn spec_len(&self) -> u64;

    spec fn spec_modified(&self) -> Result<u64, Self::Error>;

    spec fn spec_compression_method(&self) -> CompressionMethod;

    spec fn spec_compression_level(&self) -> Option<u8>;

    /// Whether the entry is a directory.
    fn is_dir(&self) -> (r: bool)
        ensures
            r == self.spec_is_dir(),
    ;

    /// Whether the entry is a regular file.
    fn is_file(&self) -> (r: bool)
        ensures
            r == self.spec_is_file(),
    ;

    /// Whether the entry is a symbolic link.
    fn is_symlink(&self) -> (r: bool)
        ensures
            r == self.spec_is_symlink(),
    ;

    /// The size of the entry's data once unpacked.
    fn len(&self) -> (r: u64)
        ensures
            r == self.spec_len(),
    ;

    /// When the entry was last changed.
    fn modified(&self) -> (r: Result<u64, Self::Error>)
        ensures
            r == self.spec_modified(),
    ;

    /// How the entry's data is stored.
    fn compression_method(&self) -> (r: CompressionMethod)
        ensures
            r == self.spec_compression_method(),
    ;

    /// How hard the entry's data was compressed, where that is known.
    fn compression_level(&self) -> (r: Option<u8>)
        ensures
            r == self.spec_compression_level(),
    ;
}

/// What an archive knows of one of its entries, as plain values.
#[derive(Debug)]
pub struct EntryMetadataData<E> {
    pub is_dir: bool,
    pub is_file: bool,
    pub is_symlink: bool,
    pub len: u64,
    pub modified: Result<u64, E>,
    pub compression_method: CompressionMethod,
    pub compression_level: Option<u8>,
}

impl<E: Copy> EntryMetadata for EntryMetadataData<E> {
    type Error = E;

    open spec fn spec_is_dir(&self) -> bool {
        self.is_dir
    }

    open spec fn spec_is_file(&self) -> bool {
        self.is_file
    }

    open spec fn spec_is_symlink(&self) -> bool {
        self.is_symlink
    }

    open spec fn spec_len(&self) -> u64 {
        self.len
    }

    open spec fn spec_modified(&self) -> Result<u64, E> {
        self.modified
    }

    open spec fn spec_compression_method(&self) -> CompressionMethod {
        self.compression_method
    }

    open spec fn spec_compression_level(&self) -> Option<u8> {
        self.compression_level
    }

    fn is_dir(&self) -> (r: bool) {
        self.is_dir
    }

    fn is_file(&self) -> (r: bool) {
        self.is_file
    }

    fn is_symlink(&self) -> (r: bool) {
        self.is_symlink
    }

    fn len(&self) -> (r: u64) {
        self.len
    }

    fn modified(&self) -> (r: Result<u64, E>) {
        self.modified
    }

    fn compression_method(&self) -> (r: CompressionMethod) {
        self.compression_method
    }

    fn compression_level(&self) -> (r: Option<u8>) {
        self.compression_level
    }
}

impl<E> EntryMetadataData<E> {
    /// What `value` knows of its entry, as plain values.
    pub fn new<M: EntryMetadata<Error = E>>(value: &M) -> (data: EntryMetadataData<E>)
        ensures
            data.is_dir == value.spec_is_dir(),
            data.is_file == value.spec_is_file(),
            data.is_symlink == value.spec_is_symlink(),
            data.len == value.spec_len(),
            data.modified == value.spec_modified(),
            data.compression_method == value.spec_compression_method(),
            data.compression_level == value.spec_compression_level(),
    {
        EntryMetadataData {
            is_file: value.is_file(),
            is_dir: value.is_dir(),
            is_symlink: value.is_symlink(),
            len: value.len(),
            modified: value.modified(),
            compression_method: value.compression_method(),
            compression_level: value.compression_level(),
        }
    }
}

/// An entry of an archive that keeps its files elsewhere: where the entry
/// lies in the archive, and the checksums of its data as stored and as
/// unpacked.
#[derive(Debug)]
pub struct ThinArchiveEntry {
    pub offset: u64,
    pub compressed_file: Checksum,
    pub uncompressed_file: Checksum,
    pub compression_method: CompressionMethod,
    pub compression_level: i8,
}

/// Where and with what an archive is unpacked.
#[derive(Debug)]
pub struct ArchiveOptions {
    /// The directory in which the archive is unpacked; the system's
    /// directory for temporary files where there is none.
    pub dir: Option<String>,
    /// The program that unpacks.
    pub sevenz_path: String,
}

impl Default for ArchiveOptions {
    fn default() -> (options: ArchiveOptions)
        ensures
            options.dir is None,
            options.sevenz_path@ == "7z"@,
    {
        ArchiveOptions { dir: None, sevenz_path: "7z".to_owned() }
    }
}

/// How the unpacking program ended.
#[derive(Debug, Clone, Copy, PartialEq, Eq, Structural)]
pub enum SevenZExitCode {
    Success,
    Warning,
    Fatal,
    CommandLine,
    OOM,
    UserStop,
}

/// Whether an exit status stands for a code.
pub open spec fn is_exit_code(status: i32) -> bool {
    status == 0 || status == 1 || status == 2 || status == 7 || status == 8 || status == 255
}

impl SevenZExitCode {
    /// The exit status that stands for the code.
    pub open spec fn number(self) -> i32 {
        match self {
            SevenZExitCode::Success => 0,
            SevenZExitCode::Warning => 1,
            SevenZExitCode::Fatal => 2,
            SevenZExitCode::CommandLine => 7,
            SevenZExitCode::OOM => 8,
            SevenZExitCode::UserStop => 255,
        }
    }

    /// The name of the code.
    pub fn to_string(self) -> (text: String)
        ensures
            text@ == match self {
                SevenZExitCode::Success => "Success"@,
                SevenZExitCode::Warning => "Warning"@,
                SevenZExitCode::Fatal => "Fatal"@,
                SevenZExitCode::CommandLine => "CommandLine"@,
                SevenZExitCode::OOM => "OOM"@,
                SevenZExitCode::UserStop => "UserStop"@,
            },
    {
        match self {
            SevenZExitCode::Success => "Success".to_owned(),
            SevenZExitCode::Warning => "Warning".to_owned(),
            SevenZExitCode::Fatal => "Fatal".to_owned(),
            SevenZExitCode::CommandLine => "CommandLine".to_owned(),
            SevenZExitCode::OOM => "OOM".to_owned(),
            SevenZExitCode::UserStop => "UserStop".to_owned(),
        }
    }

    /// The code that an exit status stands for; the status itself where
    /// it stands for none.
    pub fn try_from(status: i32) -> (r: Result<SevenZExitCode, i32>)
        ensures
            match r {
                Ok(code) => code.number() == status,
                Err(unknown) => unknown == status && !is_exit_code(status),
            },
    {
        if status == 0 {
            Ok(SevenZExitCode::Success)
        } else if status == 1 {
            Ok(SevenZExitCode::Warning)
        } else if status == 2 {
            Ok(SevenZExitCode::Fatal)
        } else if status == 7 {
            Ok(SevenZExitCode::CommandLine)
        } else if status == 8 {
            Ok(SevenZExitCode::OOM)
        } else if status == 255 {
            Ok(SevenZExitCode::UserStop)
        } else {
            Err(status)
        }
    }
}

/// Why an archive could not be unpacked.
#[derive(Debug)]
pub enum ExtractError {
    /// The filesystem failed.
    Io(IoError),
    /// The unpacking program reported a failure.
    ExtractionFailed(SevenZExitCode),
    /// The unpacking program ended with a status that it does not
    /// document.
    UnknownExitCode(i32),
    /// The unpacking program was ended from outside.
    Terminated,
}

/// What the end of the unpacking program means: success where it exited
/// with the status of success, else the failure that its status stands
/// for. A program that was ended by a signal has no status.
pub fn extraction_outcome(status: Option<i32>) -> (r: Result<(), ExtractError>)
    ensures
        match status {
            None => r matches Err(ExtractError::Terminated),
            Some(s) => if s == 0 {
                r is Ok
            } else if is_exit_code(s) {
                r matches Err(ExtractError::ExtractionFailed(code)) && code.number() == s
            } else {
                r matches Err(ExtractError::UnknownExitCode(unknown)) && unknown == s
            },
        },
{
    let number = match status {
        Some(s) => s,
        None => {
            return Err(ExtractError::Terminated);
        },
    };
    match SevenZExitCode::try_from(number) {
        Ok(code) => match code {
            SevenZExitCode::Success => Ok(()),
            _ => Err(ExtractError::ExtractionFailed(code)),
        },
        Err(unknown) => Err(ExtractError::UnknownExitCode(unknown)),
    }
}

} // verus!
