//! Read-only access to ext4 filesystems: superblock validation, the
//! block-group table, inodes with their extended attributes, extent trees,
//! directories and symbolic links, over any positioned byte source.
pub mod block_groups;
pub mod bytes;
pub mod crc;
pub mod dir;
pub mod error;
pub mod extents;
pub mod flags;
pub mod fs;
pub mod inner_reader;
pub mod mbr;
pub mod parse;
pub mod raw;
pub mod source;
pub mod text;
pub mod types;
pub mod xattr;

pub use crate::block_groups::BlockGroups;
pub use crate::error::{map_lib_error_to_io, Error, IoError, IoErrorKind, ParseError};
pub use crate::extents::{SeekFrom, TreeReader};
pub use crate::flags::InodeFlags;
pub use crate::fs::SuperBlock;
pub use crate::inner_reader::{InnerReader, MetadataCrypto, NoneCrypto};
pub use crate::source::ReadAt;
pub use crate::types::{
    Checksums, DirEntry, Enhanced, FileType, Inode, Options, Stat, Time, Xattr,
};
