//! The values this library hands out: file types, times, stat records,
//! inodes, directory entries and the type-specific details of an inode.
use vstd::prelude::*;

use crate::flags::InodeFlags;

verus! {

/// Size of the region of an inode that holds the extent-tree root, a short
/// symlink target, or a device number.
pub const INODE_CORE_SIZE: usize = 60;

/// Flag indicating the type of file stored in this inode.
#[derive(Clone, Copy, Debug, PartialEq, Eq, Structural)]
pub enum FileType {
    RegularFile,
    SymbolicLink,
    CharacterDevice,
    BlockDevice,
    Directory,
    Fifo,
    Socket,
}

/// The file type that the top four bits of an inode's mode name.
pub open spec fn file_type_of_mode(mode: u16) -> Option<FileType> {
    let t = mode / 0x1000;
    if t == 0x1 {
        Some(FileType::Fifo)
    } else if t == 0x2 {
        Some(FileType::CharacterDevice)
    } else if t == 0x4 {
        Some(FileType::Directory)
    } else if t == 0x6 {
        Some(FileType::BlockDevice)
    } else if t == 0x8 {
        Some(FileType::RegularFile)
    } else if t == 0xA {
        Some(FileType::SymbolicLink)
    } else if t == 0xC {
        Some(FileType::Socket)
    } else {
        None
    }
}

/// The file type that a directory record's type byte names.
pub open spec fn file_type_of_hint(hint: u8) -> Option<FileType> {
    if hint == 1 {
        Some(FileType::RegularFile)
    } else if hint == 2 {
        Some(FileType::Directory)
    } else if hint == 3 {
        Some(FileType::CharacterDevice)
    } else if hint == 4 {
        Some(FileType::BlockDevice)
    } else if hint == 5 {
        Some(FileType::Fifo)
    } else if hint == 6 {
        Some(FileType::Socket)
    } else if hint == 7 {
        Some(FileType::SymbolicLink)
    } else {
        None
    }
}

impl FileType {
    pub fn from_mode(mode: u16) -> (r: Option<FileType>)
        ensures
            r == file_type_of_mode(mode),
    {
        let t = mode / 0x1000;
        if t == 0x1 {
            Some(FileType::Fifo)
        } else if t == 0x2 {
            Some(FileType::CharacterDevice)
        } else if t == 0x4 {
            Some(FileType::Directory)
        } else if t == 0x6 {
            Some(FileType::BlockDevice)
        } else if t == 0x8 {
            Some(FileType::RegularFile)
        } else if t == 0xA {
            Some(FileType::SymbolicLink)
        } else if t == 0xC {
            Some(FileType::Socket)
        } else {
            None
        }
    }

    pub fn from_dir_hint(hint: u8) -> (r: Option<FileType>)
        ensures
            r == file_type_of_hint(hint),
    {
        match hint {
            1 => Some(FileType::RegularFile),
            2 => Some(FileType::Directory),
            3 => Some(FileType::CharacterDevice),
            4 => Some(FileType::BlockDevice),
            5 => Some(FileType::Fifo),
            6 => Some(FileType::Socket),
            7 => Some(FileType::SymbolicLink),
            _ => None,
        }
    }
}

/// A raw filesystem time.
#[derive(Clone, Copy, Debug, PartialEq, Eq, Structural)]
pub struct Time {
    pub epoch_secs: i64,
    pub nanos: Option<u32>,
}

/// Largest number of nanoseconds a time may carry.
pub const MAX_NANOS: u32 = 999_999_999;

/// The time that a 32-bit seconds field and its optional extra word encode:
/// the low two bits of the extra word extend the seconds past 32 bits, the
/// other thirty count nanoseconds.
pub open spec fn time_of(epoch_secs: i32, extra: Option<u32>) -> Time {
    match extra {
        None => Time { epoch_secs: epoch_secs as i64, nanos: None },
        Some(x) => Time {
            epoch_secs: (epoch_secs as int + (x % 4) as int * 0x1_0000_0000) as i64,
            nanos: Some(if x / 4 > MAX_NANOS { MAX_NANOS } else { x / 4 }),
        },
    }
}

impl Time {
    pub fn from_extra(epoch_secs: i32, extra: Option<u32>) -> (r: Time)
        ensures
            r == time_of(epoch_secs, extra),
    {
        match extra {
            None => Time { epoch_secs: epoch_secs as i64, nanos: None },
            Some(x) => {
                let high: i64 = (x % 4) as i64 * 0x1_0000_0000;
                let nanos: u32 = x / 4;
                Time {
                    epoch_secs: epoch_secs as i64 + high,
                    nanos: Some(if nanos > MAX_NANOS { MAX_NANOS } else { nanos }),
                }
            },
        }
    }
}

/// An extended attribute: a name and its value.
#[derive(Debug)]
pub struct Xattr {
    pub name: String,
    pub value: Vec<u8>,
}

/// An entry in a directory, without its extra metadata.
#[derive(Debug)]
pub struct DirEntry {
    pub inode: u32,
    pub file_type: FileType,
    pub name: String,
}

/// Full information about a disc entry.
#[derive(Debug)]
pub struct Stat {
    pub extracted_type: FileType,
    pub file_mode: u16,
    pub uid: u32,
    pub gid: u32,
    pub size: u64,
    pub atime: Time,
    pub ctime: Time,
    pub mtime: Time,
    pub btime: Option<Time>,
    pub link_count: u16,
    /// The extended attributes, each name at most once.
    pub xattrs: Vec<Xattr>,
}

/// An actual disc metadata entry.
#[derive(Debug)]
pub struct Inode {
    pub stat: Stat,
    pub number: u32,
    pub flags: InodeFlags,
    /// The checksum seed of this inode, when the filesystem has metadata
    /// checksums; extent blocks and directory blocks are checked against it.
    pub checksum_prefix: Option<u32>,
    /// The extent-tree root, short symlink target or device number.
    pub core: [u8; INODE_CORE_SIZE],
    pub block_size: u32,
}

/// Extended, type-specific information read from an inode.
#[derive(Debug)]
pub enum Enhanced {
    RegularFile,
    /// A symlink, with its decoded destination.
    SymbolicLink(String),
    /// A 'c' device, with its major and minor numbers.
    CharacterDevice(u16, u32),
    /// A 'b' device, with its major and minor numbers.
    BlockDevice(u16, u32),
    /// A directory, with its listing.
    Directory(Vec<DirEntry>),
    Fifo,
    Socket,
}

/// Whether metadata checksums must be present.
#[derive(Clone, Copy, Debug, PartialEq, Eq, Structural)]
pub enum Checksums {
    /// Refuse a filesystem without metadata checksums.
    Required,
    /// Check them where the filesystem has them.
    Enabled,
}

impl Default for Checksums {
    fn default() -> (r: Checksums)
        ensures
            r == Checksums::Required,
    {
        Checksums::Required
    }
}

/// How a filesystem is opened.
#[derive(Clone, Copy, Debug, PartialEq, Eq, Structural)]
pub struct Options {
    pub checksums: Checksums,
}

impl Default for Options {
    fn default() -> (r: Options)
        ensures
            r.checksums == Checksums::Required,
    {
        Options { checksums: Checksums::Required }
    }
}

} // verus!
