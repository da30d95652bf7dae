//! The status of a file.

use vstd::prelude::*;

verus! {

/// The kind of a file, as a set of flags.
#[derive(Debug, Clone, Copy, PartialEq, Eq, Structural)]
pub struct StatMode {
    /// The flags.
    pub bits: u32,
}

/// The flags of no kind of file.
pub const STAT_MODE_NULL: u32 = 0;

/// The flag of a directory.
pub const STAT_MODE_DIR: u32 = 0o040000;

/// The flag of an ordinary file.
pub const STAT_MODE_FILE: u32 = 0o100000;

impl StatMode {
    /// No kind.
    pub fn null() -> (mode: StatMode)
        ensures
            mode.bits == STAT_MODE_NULL,
    {
        StatMode { bits: STAT_MODE_NULL }
    }

    /// A directory.
    pub fn dir() -> (mode: StatMode)
        ensures
            mode.bits == STAT_MODE_DIR,
    {
        StatMode { bits: STAT_MODE_DIR }
    }

    /// An ordinary file.
    pub fn file() -> (mode: StatMode)
        ensures
            mode.bits == STAT_MODE_FILE,
    {
        StatMode { bits: STAT_MODE_FILE }
    }

    /// Whether all flags of `other` are set.
    pub fn contains(&self, other: StatMode) -> (b: bool)
        ensures
            b == (self.bits & other.bits == other.bits),
    {
        self.bits & other.bits == other.bits
    }
}

/// The status of a file as a program sees it.
#[derive(Debug, Clone, Copy)]
pub struct Stat {
    /// The device that holds the file.
    pub dev: u64,
    /// The number of the inode.
    pub ino: u64,
    /// The kind of the file.
    pub mode: StatMode,
    /// The number of paths of the file.
    pub nlink: u32,
    /// Unused.
    pub pad: [u64; 7],
}

/// The status of a file as a file reports it.
#[derive(Debug, Clone, Copy, PartialEq, Eq, Structural)]
pub struct FileStatus {
    /// The number of the inode.
    pub inumber: u64,
    /// The kind of the file.
    pub mode: StatMode,
    /// The number of paths of the file.
    pub num_links: u32,
}

impl From<FileStatus> for Stat {
    fn from(status: FileStatus) -> (stat: Stat) {
        let stat = Stat {
            dev: 0,
            ino: status.inumber,
            mode: status.mode,
            nlink: status.num_links,
            pad: [0;7],
        };
        proof {
            assert(stat.pad =~= [0u64, 0u64, 0u64, 0u64, 0u64, 0u64, 0u64]);
        }
        stat
    }
}

impl vstd::std_specs::convert::FromSpecImpl<FileStatus> for Stat {
    open spec fn obeys_from_spec() -> bool {
        true
    }

    open spec fn from_spec(status: FileStatus) -> Stat {
        Stat {
            dev: 0,
            ino: status.inumber,
            mode: status.mode,
            nlink: status.num_links,
            pad: [0u64, 0u64, 0u64, 0u64, 0u64, 0u64, 0u64],
        }
    }
}

/// What the kernel expects of a file.
pub trait File {
    /// Whether the file can be read from.
    fn readable(&self) -> bool;

    /// Whether the file can be written to.
    fn writable(&self) -> bool;

    /// Read from the file into `buf`; returns the number of bytes read.
    fn read(&self, buf: &mut Vec<u8>) -> usize;

    /// Write `buf` to the file; returns the number of bytes written.
    fn write(&self, buf: &[u8]) -> usize;

    /// The status of the file.
    fn status(&self) -> FileStatus;
}

} // verus!
