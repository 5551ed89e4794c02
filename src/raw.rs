//! The on-disk records of ext4, field by field.
use vstd::prelude::*;

use crate::bytes::{le16, le32, read_le16, read_le32, read_lei32};

verus! {

fn copy_60(data: &[u8], off: usize) -> (r: [u8; 60])
    requires
        off + 60 <= data@.len(),
    ensures
        r@ == data@.subrange(off as int, off + 60),
{
    let n: usize = data.len();
    let mut r = [0u8; 60];
    let mut i: usize = 0;
    while i < 60
        invariant
            off + 60 <= data@.len(),
            n == data@.len(),
            i <= 60,
            r@.len() == 60,
            forall|j: int| 0 <= j < i ==> r@[j] == data@[off + j],
        decreases 60 - i,
    {
        r[i] = data[off + i];
        i += 1;
    }
    assert(r@ =~= data@.subrange(off as int, off + 60));
    r
}

fn copy_16(data: &[u8], off: usize) -> (r: [u8; 16])
    requires
        off + 16 <= data@.len(),
    ensures
        r@ == data@.subrange(off as int, off + 16),
{
    let n: usize = data.len();
    let mut r = [0u8; 16];
    let mut i: usize = 0;
    while i < 16
        invariant
            off + 16 <= data@.len(),
            n == data@.len(),
            i <= 16,
            r@.len() == 16,
            forall|j: int| 0 <= j < i ==> r@[j] == data@[off + j],
        decreases 16 - i,
    {
        r[i] = data[off + i];
        i += 1;
    }
    assert(r@ =~= data@.subrange(off as int, off + 16));
    r
}

/// An inode as stored on disk.
#[derive(Debug)]
pub struct RawInode {
    /// File mode
    pub i_mode: u16,
    /// Low 16 bits of owner uid
    pub i_uid: u16,
    /// Size in bytes, low half
    pub i_size_lo: u32,
    /// Access time
    pub i_atime: i32,
    /// Inode change time
    pub i_ctime: i32,
    /// Modification time
    pub i_mtime: i32,
    /// Deletion time
    pub i_dtime: i32,
    /// Low 16 bits of group id
    pub i_gid: u16,
    /// Links count
    pub i_links_count: u16,
    /// Blocks count
    pub i_blocks_lo: u32,
    /// File flags
    pub i_flags: u32,
    /// Version
    pub l_i_version: u32,
    /// Extent root, short symlink target or device number
    pub i_block: [u8; 60],
    /// File version (for NFS)
    pub i_generation: u32,
    /// Extended attribute block, low half
    pub i_file_acl_lo: u32,
    /// Size in bytes, high half
    pub i_size_high: u32,
    /// Obsolete fragment address
    pub i_obso_faddr: u32,
    /// Blocks count, high half
    pub l_i_blocks_high: u16,
    /// Extended attribute block, high half
    pub l_i_file_acl_high: u16,
    /// High 16 bits of owner uid
    pub l_i_uid_high: u16,
    /// High 16 bits of group id
    pub l_i_gid_high: u16,
    /// Low half of the inode checksum
    pub l_i_checksum_lo: u16,
    /// Reserved
    pub l_i_reserved: u16,
    /// Size of the extra fields; present when the record is long enough
    pub i_extra_isize: Option<u16>,
    /// High half of the inode checksum; present when the record is long enough
    pub i_checksum_hi: Option<u16>,
    /// Extra change time (nsec << 2 | epoch); present when the record is long enough
    pub i_ctime_extra: Option<u32>,
    /// Extra modification time (nsec << 2 | epoch); present when the record is long enough
    pub i_mtime_extra: Option<u32>,
    /// Extra access time (nsec << 2 | epoch); present when the record is long enough
    pub i_atime_extra: Option<u32>,
    /// File creation time; present when the record is long enough
    pub i_crtime: Option<i32>,
    /// Extra creation time (nsec << 2 | epoch); present when the record is long enough
    pub i_crtime_extra: Option<u32>,
    /// High 32 bits of the version; present when the record is long enough
    pub i_version_hi: Option<u32>,
    /// Project id; present when the record is long enough
    pub i_projid: Option<u32>,
}

impl RawInode {
    pub fn from_slice(data: &[u8]) -> (r: RawInode)
        requires
            data@.len() >= 0x80,
        ensures
            r.i_mode == le16(data@, 0x0),
            r.i_uid == le16(data@, 0x2),
            r.i_size_lo == le32(data@, 0x4),
            r.i_atime == le32(data@, 0x8) as i32,
            r.i_ctime == le32(data@, 0xc) as i32,
            r.i_mtime == le32(data@, 0x10) as i32,
            r.i_dtime == le32(data@, 0x14) as i32,
            r.i_gid == le16(data@, 0x18),
            r.i_links_count == le16(data@, 0x1a),
            r.i_blocks_lo == le32(data@, 0x1c),
            r.i_flags == le32(data@, 0x20),
            r.l_i_version == le32(data@, 0x24),
            r.i_block@ == data@.subrange(0x28, 0x64),
            r.i_generation == le32(data@, 0x64),
            r.i_file_acl_lo == le32(data@, 0x68),
            r.i_size_high == le32(data@, 0x6c),
            r.i_obso_faddr == le32(data@, 0x70),
            r.l_i_blocks_high == le16(data@, 0x74),
            r.l_i_file_acl_high == le16(data@, 0x76),
            r.l_i_uid_high == le16(data@, 0x78),
            r.l_i_gid_high == le16(data@, 0x7a),
            r.l_i_checksum_lo == le16(data@, 0x7c),
            r.l_i_reserved == le16(data@, 0x7e),
            r.i_extra_isize == (if data@.len() >= 0x82 { Some(le16(data@, 0x80)) } else { None }),
            r.i_checksum_hi == (if data@.len() >= 0x84 { Some(le16(data@, 0x82)) } else { None }),
            r.i_ctime_extra == (if data@.len() >= 0x88 { Some(le32(data@, 0x84)) } else { None }),
            r.i_mtime_extra == (if data@.len() >= 0x8c { Some(le32(data@, 0x88)) } else { None }),
            r.i_atime_extra == (if data@.len() >= 0x90 { Some(le32(data@, 0x8c)) } else { None }),
            r.i_crtime == (if data@.len() >= 0x94 { Some(le32(data@, 0x90) as i32) } else { None }),
            r.i_crtime_extra == (if data@.len() >= 0x98 { Some(le32(data@, 0x94)) } else { None }),
            r.i_version_hi == (if data@.len() >= 0x9c { Some(le32(data@, 0x98)) } else { None }),
            r.i_projid == (if data@.len() >= 0xa0 { Some(le32(data@, 0x9c)) } else { None }),
    {
        let i_block = copy_60(data, 0x28);
        RawInode {
            i_mode: read_le16(data, 0x0),
            i_uid: read_le16(data, 0x2),
            i_size_lo: read_le32(data, 0x4),
            i_atime: read_lei32(data, 0x8),
            i_ctime: read_lei32(data, 0xc),
            i_mtime: read_lei32(data, 0x10),
            i_dtime: read_lei32(data, 0x14),
            i_gid: read_le16(data, 0x18),
            i_links_count: read_le16(data, 0x1a),
            i_blocks_lo: read_le32(data, 0x1c),
            i_flags: read_le32(data, 0x20),
            l_i_version: read_le32(data, 0x24),
            i_block,
            i_generation: read_le32(data, 0x64),
            i_file_acl_lo: read_le32(data, 0x68),
            i_size_high: read_le32(data, 0x6c),
            i_obso_faddr: read_le32(data, 0x70),
            l_i_blocks_high: read_le16(data, 0x74),
            l_i_file_acl_high: read_le16(data, 0x76),
            l_i_uid_high: read_le16(data, 0x78),
            l_i_gid_high: read_le16(data, 0x7a),
            l_i_checksum_lo: read_le16(data, 0x7c),
            l_i_reserved: read_le16(data, 0x7e),
            i_extra_isize: if data.len() >= 0x82 {
                Some(read_le16(data, 0x80))
            } else {
                None
            },
            i_checksum_hi: if data.len() >= 0x84 {
                Some(read_le16(data, 0x82))
            } else {
                None
            },
            i_ctime_extra: if data.len() >= 0x88 {
                Some(read_le32(data, 0x84))
            } else {
                None
            },
            i_mtime_extra: if data.len() >= 0x8c {
                Some(read_le32(data, 0x88))
            } else {
                None
            },
            i_atime_extra: if data.len() >= 0x90 {
                Some(read_le32(data, 0x8c))
            } else {
                None
            },
            i_crtime: if data.len() >= 0x94 {
                Some(read_lei32(data, 0x90))
            } else {
                None
            },
            i_crtime_extra: if data.len() >= 0x98 {
                Some(read_le32(data, 0x94))
            } else {
                None
            },
            i_version_hi: if data.len() >= 0x9c {
                Some(read_le32(data, 0x98))
            } else {
                None
            },
            i_projid: if data.len() >= 0xa0 {
                Some(read_le32(data, 0x9c))
            } else {
                None
            },
        }
    }

    /// The size of the extra fields, read before the record's length is known.
    pub fn peek_i_extra_isize(data: &[u8]) -> (r: Option<u16>)
        ensures
            r == (if data@.len() >= 0x82 { Some(le16(data@, 0x80)) } else { None }),
    {
        if data.len() >= 0x82 {
            Some(read_le16(data, 0x80))
        } else {
            None
        }
    }
}

/// A block group descriptor as stored on disk.
#[derive(Debug)]
pub struct RawBlockGroup {
    /// Block bitmap block
    pub bg_block_bitmap_lo: u32,
    /// Inode bitmap block
    pub bg_inode_bitmap_lo: u32,
    /// Inode table block
    pub bg_inode_table_lo: u32,
    /// Free blocks count
    pub bg_free_blocks_count_lo: u16,
    /// Free inodes count
    pub bg_free_inodes_count_lo: u16,
    /// Directories count
    pub bg_used_dirs_count_lo: u16,
    /// Group flags (INODE_UNINIT, etc)
    pub bg_flags: u16,
    /// Exclude bitmap for snapshots
    pub bg_exclude_bitmap_lo: u32,
    /// Block bitmap checksum, low half
    pub bg_block_bitmap_csum_lo: u16,
    /// Inode bitmap checksum, low half
    pub bg_inode_bitmap_csum_lo: u16,
    /// Unused inodes count
    pub bg_itable_unused_lo: u16,
    /// Descriptor checksum
    pub bg_checksum: u16,
    /// Block bitmap block, high half; present when the record is long enough
    pub bg_block_bitmap_hi: Option<u32>,
    /// Inode bitmap block, high half; present when the record is long enough
    pub bg_inode_bitmap_hi: Option<u32>,
    /// Inode table block, high half; present when the record is long enough
    pub bg_inode_table_hi: Option<u32>,
    /// Free blocks count, high half; present when the record is long enough
    pub bg_free_blocks_count_hi: Option<u16>,
    /// Free inodes count, high half; present when the record is long enough
    pub bg_free_inodes_count_hi: Option<u16>,
    /// Directories count, high half; present when the record is long enough
    pub bg_used_dirs_count_hi: Option<u16>,
    /// Unused inodes count, high half; present when the record is long enough
    pub bg_itable_unused_hi: Option<u16>,
    /// Exclude bitmap block, high half; present when the record is long enough
    pub bg_exclude_bitmap_hi: Option<u32>,
    /// Reserved; present when the record is long enough
    pub bg_reserved: Option<u32>,
}

impl RawBlockGroup {
    pub fn from_slice(data: &[u8]) -> (r: RawBlockGroup)
        requires
            data@.len() >= 0x20,
        ensures
            r.bg_block_bitmap_lo == le32(data@, 0x0),
            r.bg_inode_bitmap_lo == le32(data@, 0x4),
            r.bg_inode_table_lo == le32(data@, 0x8),
            r.bg_free_blocks_count_lo == le16(data@, 0xc),
            r.bg_free_inodes_count_lo == le16(data@, 0xe),
            r.bg_used_dirs_count_lo == le16(data@, 0x10),
            r.bg_flags == le16(data@, 0x12),
            r.bg_exclude_bitmap_lo == le32(data@, 0x14),
            r.bg_block_bitmap_csum_lo == le16(data@, 0x18),
            r.bg_inode_bitmap_csum_lo == le16(data@, 0x1a),
            r.bg_itable_unused_lo == le16(data@, 0x1c),
            r.bg_checksum == le16(data@, 0x1e),
            r.bg_block_bitmap_hi == (if data@.len() >= 0x24 { Some(le32(data@, 0x20)) } else { None }),
            r.bg_inode_bitmap_hi == (if data@.len() >= 0x28 { Some(le32(data@, 0x24)) } else { None }),
            r.bg_inode_table_hi == (if data@.len() >= 0x2c { Some(le32(data@, 0x28)) } else { None }),
            r.bg_free_blocks_count_hi == (if data@.len() >= 0x2e { Some(le16(data@, 0x2c)) } else { None }),
            r.bg_free_inodes_count_hi == (if data@.len() >= 0x30 { Some(le16(data@, 0x2e)) } else { None }),
            r.bg_used_dirs_count_hi == (if data@.len() >= 0x32 { Some(le16(data@, 0x30)) } else { None }),
            r.bg_itable_unused_hi == (if data@.len() >= 0x34 { Some(le16(data@, 0x32)) } else { None }),
            r.bg_exclude_bitmap_hi == (if data@.len() >= 0x38 { Some(le32(data@, 0x34)) } else { None }),
            r.bg_reserved == (if data@.len() >= 0x40 { Some(le32(data@, 0x3c)) } else { None }),
    {
        RawBlockGroup {
            bg_block_bitmap_lo: read_le32(data, 0x0),
            bg_inode_bitmap_lo: read_le32(data, 0x4),
            bg_inode_table_lo: read_le32(data, 0x8),
            bg_free_blocks_count_lo: read_le16(data, 0xc),
            bg_free_inodes_count_lo: read_le16(data, 0xe),
            bg_used_dirs_count_lo: read_le16(data, 0x10),
            bg_flags: read_le16(data, 0x12),
            bg_exclude_bitmap_lo: read_le32(data, 0x14),
            bg_block_bitmap_csum_lo: read_le16(data, 0x18),
            bg_inode_bitmap_csum_lo: read_le16(data, 0x1a),
            bg_itable_unused_lo: read_le16(data, 0x1c),
            bg_checksum: read_le16(data, 0x1e),
            bg_block_bitmap_hi: if data.len() >= 0x24 {
                Some(read_le32(data, 0x20))
            } else {
                None
            },
            bg_inode_bitmap_hi: if data.len() >= 0x28 {
                Some(read_le32(data, 0x24))
            } else {
                None
            },
            bg_inode_table_hi: if data.len() >= 0x2c {
                Some(read_le32(data, 0x28))
            } else {
                None
            },
            bg_free_blocks_count_hi: if data.len() >= 0x2e {
                Some(read_le16(data, 0x2c))
            } else {
                None
            },
            bg_free_inodes_count_hi: if data.len() >= 0x30 {
                Some(read_le16(data, 0x2e))
            } else {
                None
            },
            bg_used_dirs_count_hi: if data.len() >= 0x32 {
                Some(read_le16(data, 0x30))
            } else {
                None
            },
            bg_itable_unused_hi: if data.len() >= 0x34 {
                Some(read_le16(data, 0x32))
            } else {
                None
            },
            bg_exclude_bitmap_hi: if data.len() >= 0x38 {
                Some(read_le32(data, 0x34))
            } else {
                None
            },
            bg_reserved: if data.len() >= 0x40 {
                Some(read_le32(data, 0x3c))
            } else {
                None
            },
        }
    }
}

/// The fields of the superblock that this library reads.
#[derive(Debug)]
pub struct RawSuperblock {
    /// Inodes count
    pub s_inodes_count: u32,
    /// Blocks count, low half
    pub s_blocks_count_lo: u32,
    /// Reserved blocks count
    pub s_r_blocks_count_lo: u32,
    /// Free blocks count
    pub s_free_blocks_count_lo: u32,
    /// Free inodes count
    pub s_free_inodes_count: u32,
    /// First data block
    pub s_first_data_block: u32,
    /// Block size, as a power of two above 1024
    pub s_log_block_size: u32,
    /// Allocation cluster size
    pub s_log_cluster_size: u32,
    /// Blocks per group
    pub s_blocks_per_group: u32,
    /// Clusters per group
    pub s_clusters_per_group: u32,
    /// Inodes per group
    pub s_inodes_per_group: u32,
    /// Mount time
    pub s_mtime: u32,
    /// Write time
    pub s_wtime: u32,
    /// Mount count
    pub s_mnt_count: u16,
    /// Maximal mount count
    pub s_max_mnt_count: u16,
    /// Magic signature
    pub s_magic: u16,
    /// File system state
    pub s_state: u16,
    /// Behaviour when detecting errors
    pub s_errors: u16,
    /// Minor revision level
    pub s_minor_rev_level: u16,
    /// Time of last check
    pub s_lastcheck: u32,
    /// Maximal time between checks
    pub s_checkinterval: u32,
    /// Creator OS
    pub s_creator_os: u32,
    /// Revision level
    pub s_rev_level: u32,
    /// Default uid for reserved blocks
    pub s_def_resuid: u16,
    /// Default gid for reserved blocks
    pub s_def_resgid: u16,
    /// First non-reserved inode
    pub s_first_ino: u32,
    /// Size of the inode structure
    pub s_inode_size: u16,
    /// Block group of this superblock
    pub s_block_group_nr: u16,
    /// Compatible feature set
    pub s_feature_compat: u32,
    /// Incompatible feature set
    pub s_feature_incompat: u32,
    /// Read-only compatible feature set
    pub s_feature_ro_compat: u32,
    /// 128-bit uuid of the volume
    pub s_uuid: [u8; 16],
    /// Volume name
    pub s_volume_name: [u8; 16],
    /// Size of a group descriptor
    pub s_desc_size: u16,
    /// When the filesystem was created
    pub s_mkfs_time: u32,
    /// Blocks count, high half
    pub s_blocks_count_hi: u32,
    /// All inodes have at least this many extra bytes
    pub s_min_extra_isize: u16,
    /// New inodes should reserve this many extra bytes
    pub s_want_extra_isize: u16,
    /// Metadata checksum algorithm
    pub s_checksum_type: u8,
    /// crc32c(uuid) if the checksum seed feature is set
    pub s_checksum_seed: u32,
    /// crc32c of the superblock
    pub s_checksum: u32,
}

impl RawSuperblock {
    pub fn from_slice(data: &[u8]) -> (r: RawSuperblock)
        requires
            data@.len() >= 0x400,
        ensures
            r.s_inodes_count == le32(data@, 0x0),
            r.s_blocks_count_lo == le32(data@, 0x4),
            r.s_r_blocks_count_lo == le32(data@, 0x8),
            r.s_free_blocks_count_lo == le32(data@, 0xc),
            r.s_free_inodes_count == le32(data@, 0x10),
            r.s_first_data_block == le32(data@, 0x14),
            r.s_log_block_size == le32(data@, 0x18),
            r.s_log_cluster_size == le32(data@, 0x1c),
            r.s_blocks_per_group == le32(data@, 0x20),
            r.s_clusters_per_group == le32(data@, 0x24),
            r.s_inodes_per_group == le32(data@, 0x28),
            r.s_mtime == le32(data@, 0x2c),
            r.s_wtime == le32(data@, 0x30),
            r.s_mnt_count == le16(data@, 0x34),
            r.s_max_mnt_count == le16(data@, 0x36),
            r.s_magic == le16(data@, 0x38),
            r.s_state == le16(data@, 0x3a),
            r.s_errors == le16(data@, 0x3c),
            r.s_minor_rev_level == le16(data@, 0x3e),
            r.s_lastcheck == le32(data@, 0x40),
            r.s_checkinterval == le32(data@, 0x44),
            r.s_creator_os == le32(data@, 0x48),
            r.s_rev_level == le32(data@, 0x4c),
            r.s_def_resuid == le16(data@, 0x50),
            r.s_def_resgid == le16(data@, 0x52),
            r.s_first_ino == le32(data@, 0x54),
            r.s_inode_size == le16(data@, 0x58),
            r.s_block_group_nr == le16(data@, 0x5a),
            r.s_feature_compat == le32(data@, 0x5c),
            r.s_feature_incompat == le32(data@, 0x60),
            r.s_feature_ro_compat == le32(data@, 0x64),
            r.s_uuid@ == data@.subrange(0x68, 0x78),
            r.s_volume_name@ == data@.subrange(0x78, 0x88),
            r.s_desc_size == le16(data@, 0xfe),
            r.s_mkfs_time == le32(data@, 0x108),
            r.s_blocks_count_hi == le32(data@, 0x150),
            r.s_min_extra_isize == le16(data@, 0x15c),
            r.s_want_extra_isize == le16(data@, 0x15e),
            r.s_checksum_type == data@[0x175],
            r.s_checksum_seed == le32(data@, 0x270),
            r.s_checksum == le32(data@, 0x3fc),
    {
        let s_uuid = copy_16(data, 0x68);
        let s_volume_name = copy_16(data, 0x78);
        RawSuperblock {
            s_inodes_count: read_le32(data, 0x0),
            s_blocks_count_lo: read_le32(data, 0x4),
            s_r_blocks_count_lo: read_le32(data, 0x8),
            s_free_blocks_count_lo: read_le32(data, 0xc),
            s_free_inodes_count: read_le32(data, 0x10),
            s_first_data_block: read_le32(data, 0x14),
            s_log_block_size: read_le32(data, 0x18),
            s_log_cluster_size: read_le32(data, 0x1c),
            s_blocks_per_group: read_le32(data, 0x20),
            s_clusters_per_group: read_le32(data, 0x24),
            s_inodes_per_group: read_le32(data, 0x28),
            s_mtime: read_le32(data, 0x2c),
            s_wtime: read_le32(data, 0x30),
            s_mnt_count: read_le16(data, 0x34),
            s_max_mnt_count: read_le16(data, 0x36),
            s_magic: read_le16(data, 0x38),
            s_state: read_le16(data, 0x3a),
            s_errors: read_le16(data, 0x3c),
            s_minor_rev_level: read_le16(data, 0x3e),
            s_lastcheck: read_le32(data, 0x40),
            s_checkinterval: read_le32(data, 0x44),
            s_creator_os: read_le32(data, 0x48),
            s_rev_level: read_le32(data, 0x4c),
            s_def_resuid: read_le16(data, 0x50),
            s_def_resgid: read_le16(data, 0x52),
            s_first_ino: read_le32(data, 0x54),
            s_inode_size: read_le16(data, 0x58),
            s_block_group_nr: read_le16(data, 0x5a),
            s_feature_compat: read_le32(data, 0x5c),
            s_feature_incompat: read_le32(data, 0x60),
            s_feature_ro_compat: read_le32(data, 0x64),
            s_uuid,
            s_volume_name,
            s_desc_size: read_le16(data, 0xfe),
            s_mkfs_time: read_le32(data, 0x108),
            s_blocks_count_hi: read_le32(data, 0x150),
            s_min_extra_isize: read_le16(data, 0x15c),
            s_want_extra_isize: read_le16(data, 0x15e),
            s_checksum_type: data[0x175],
            s_checksum_seed: read_le32(data, 0x270),
            s_checksum: read_le32(data, 0x3fc),
        }
    }
}

} // verus!
