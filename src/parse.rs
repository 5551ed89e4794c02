//! Decoding of the superblock and of inodes.
use vstd::prelude::*;

pub use crate::crc::ext4_style_crc32c_le;

use crate::bytes::{copy_range, le16, le32, read_le16, read_le32};
use crate::crc::ext4_crc32c;
use crate::error::{
    assumption_failed, fails_as, fails_assumption, fails_io, fails_not_found, fails_unsupported, not_found,
    unsupported_feature, Error, ErrorKind,
};
use crate::flags::{InodeFlags, KNOWN};
use crate::block_groups::{desc_at, desc_len, entry_of, free_inodes_of, BlockGroups};
use crate::fs::SuperBlock;
use crate::raw::{RawInode, RawSuperblock};
use crate::source::{load_disc_bytes, read_exact_at, ReadAt};
use crate::types::{
    file_type_of_mode, time_of, Checksums, FileType, Options, Stat, Time, Xattr, INODE_CORE_SIZE,
};
use crate::xattr::{
    xattr_block_entries, apply_xattrs, names_unique, read_xattrs, xattr_block, xattr_entries, xattr_model, XATTR_MAGIC,
};

verus! {

/// Length of the part of an inode that every inode has.
pub const INODE_BASE_LEN: usize = 128;

/// An inode decoded from its on-disk bytes.
#[derive(Debug)]
pub struct ParsedInode {
    pub stat: Stat,
    pub flags: InodeFlags,
    pub core: [u8; INODE_CORE_SIZE],
    pub checksum_prefix: Option<u32>,
}

/// The four little-endian bytes of `x`.
pub open spec fn le32_bytes(x: u32) -> Seq<u8> {
    seq![
        (x % 0x100) as u8,
        ((x / 0x100) % 0x100) as u8,
        ((x / 0x1_0000) % 0x100) as u8,
        (x / 0x100_0000) as u8,
    ]
}

fn push_le32(v: &mut Vec<u8>, x: u32)
    ensures
        final(v)@ == old(v)@ + le32_bytes(x),
{
    v.push((x % 0x100) as u8);
    v.push(((x / 0x100) % 0x100) as u8);
    v.push(((x / 0x1_0000) % 0x100) as u8);
    v.push((x / 0x100_0000) as u8);
    assert(final(v)@ =~= old(v)@ + le32_bytes(x));
}

/// Where the inode record `d` ends: the base part and its extra fields.
pub open spec fn inode_end(d: Seq<u8>) -> int {
    INODE_BASE_LEN + if d.len() >= 0x82 {
        le16(d, 0x80) as int
    } else {
        0
    }
}

/// The record carries the high half of its checksum.
pub open spec fn has_checksum_hi(d: Seq<u8>) -> bool {
    inode_end(d) >= 0x84
}

/// The checksum seed of inode `number` with generation `generation`.
pub open spec fn inode_checksum_seed(uuid_checksum: u32, number: u32, generation: u32) -> u32 {
    ext4_crc32c(uuid_checksum, le32_bytes(number) + le32_bytes(generation))
}

/// `d` with its checksum fields set to zero.
pub open spec fn zero_inode_checksum(d: Seq<u8>) -> Seq<u8> {
    let z = d.update(0x7c, 0).update(0x7d, 0);
    if has_checksum_hi(d) {
        z.update(0x82, 0).update(0x83, 0)
    } else {
        z
    }
}

/// The checksum stored in `d` agrees with the one computed from `seed`.
pub open spec fn inode_checksum_matches(d: Seq<u8>, seed: u32) -> bool {
    let computed = ext4_crc32c(seed, zero_inode_checksum(d));
    if has_checksum_hi(d) {
        le16(d, 0x7c) as int + le16(d, 0x82) as int * 0x1_0000 == computed
    } else {
        le16(d, 0x7c) as int == computed as int % 0x1_0000
    }
}

/// The optional 32-bit field at `o` of the record `d`.
pub open spec fn opt32(d: Seq<u8>, o: int) -> Option<u32> {
    if d.len() >= o + 4 {
        Some(le32(d, o))
    } else {
        None
    }
}

/// `s` holds what the inode record `d` (cut at its end) says.
pub open spec fn stat_of_record(s: Stat, d: Seq<u8>) -> bool {
    &&& file_type_of_mode(le16(d, 0x00)) == Some(s.extracted_type)
    &&& s.file_mode == le16(d, 0x00) % 0x1000
    &&& s.uid == le16(d, 0x02) as int + le16(d, 0x78) as int * 0x1_0000
    &&& s.gid == le16(d, 0x18) as int + le16(d, 0x7a) as int * 0x1_0000
    &&& s.size == le32(d, 0x04) as int + le32(d, 0x6c) as int * 0x1_0000_0000
    &&& s.atime == time_of(le32(d, 0x08) as i32, opt32(d, 0x8c))
    &&& s.ctime == time_of(le32(d, 0x0c) as i32, opt32(d, 0x84))
    &&& s.mtime == time_of(le32(d, 0x10) as i32, opt32(d, 0x88))
    &&& s.btime == (if d.len() >= 0x94 {
        Some(time_of(le32(d, 0x90) as i32, opt32(d, 0x94)))
    } else {
        None
    })
    &&& s.link_count == le16(d, 0x1a)
}

fn check_inode_checksum(data: &Vec<u8>, u: u32, number: u32, generation: u32) -> (r: Result<u32, Error>)
    requires
        data@.len() >= INODE_BASE_LEN,
        inode_end(data@) <= data@.len(),
        generation == le32(data@, 0x64),
    ensures
        r is Ok <==> inode_checksum_matches(data@, inode_checksum_seed(u, number, generation)),
        r matches Ok(seed) ==> seed == inode_checksum_seed(u, number, generation),
        r is Err ==> fails_assumption(r),
{
    let mut zeroed = data.clone();
    assert(zeroed@ =~= data@);
    zeroed.set(0x7c, 0);
    zeroed.set(0x7d, 0);
    let mut bytes: Vec<u8> = Vec::new();
    push_le32(&mut bytes, number);
    push_le32(&mut bytes, generation);
    assert(bytes@ =~= le32_bytes(number) + le32_bytes(generation));
    let seed = ext4_style_crc32c_le(u, &bytes);
    let lo = read_le16(data, 0x7c);
    let has_hi = data.len() >= 0x82 && INODE_BASE_LEN + read_le16(data, 0x80) as usize >= 0x84;
    if has_hi {
        zeroed.set(0x82, 0);
        zeroed.set(0x83, 0);
    }
    assert(zeroed@ =~= zero_inode_checksum(data@));
    let computed = ext4_style_crc32c_le(seed, &zeroed);
    if has_hi {
        let expected = lo as u32 + (read_le16(data, 0x82) as u32) * 0x1_0000;
        if expected != computed {
            return Err(assumption_failed("full checksum mismatch"));
        }
    } else {
        let short_computed = (computed % 0x1_0000) as u16;
        if lo != short_computed {
            return Err(assumption_failed("short checksum mismatch"));
        }
    }
    Ok(seed)
}

fn stat_from_raw(raw: &RawInode, extracted_type: FileType, xattrs: Vec<Xattr>, Ghost(d): Ghost<Seq<u8>>) -> (s: Stat)
    requires
        d.len() >= INODE_BASE_LEN,
        file_type_of_mode(le16(d, 0x00)) == Some(extracted_type),
        raw.i_mode == le16(d, 0x00),
        raw.i_uid == le16(d, 0x02),
        raw.l_i_uid_high == le16(d, 0x78),
        raw.i_gid == le16(d, 0x18),
        raw.l_i_gid_high == le16(d, 0x7a),
        raw.i_size_lo == le32(d, 0x04),
        raw.i_size_high == le32(d, 0x6c),
        raw.i_atime == le32(d, 0x08) as i32,
        raw.i_ctime == le32(d, 0x0c) as i32,
        raw.i_mtime == le32(d, 0x10) as i32,
        raw.i_atime_extra == opt32(d, 0x8c),
        raw.i_ctime_extra == opt32(d, 0x84),
        raw.i_mtime_extra == opt32(d, 0x88),
        raw.i_crtime == (if d.len() >= 0x94 { Some(le32(d, 0x90) as i32) } else { None }),
        raw.i_crtime_extra == opt32(d, 0x94),
        raw.i_links_count == le16(d, 0x1a),
    ensures
        stat_of_record(s, d),
        s.xattrs == xattrs,
{
    let btime: Option<Time> = match raw.i_crtime {
        Some(c) => Some(Time::from_extra(c, raw.i_crtime_extra)),
        None => None,
    };
    Stat {
        extracted_type,
        file_mode: raw.i_mode % 0x1000,
        uid: raw.i_uid as u32 + (raw.l_i_uid_high as u32) * 0x1_0000,
        gid: raw.i_gid as u32 + (raw.l_i_gid_high as u32) * 0x1_0000,
        size: raw.i_size_lo as u64 + (raw.i_size_high as u64) * 0x1_0000_0000,
        atime: Time::from_extra(raw.i_atime, raw.i_atime_extra),
        ctime: Time::from_extra(raw.i_ctime, raw.i_ctime_extra),
        mtime: Time::from_extra(raw.i_mtime, raw.i_mtime_extra),
        btime,
        link_count: raw.i_links_count,
        xattrs,
    }
}

/// The attribute entries stored in the inode record `data` after its
/// extra fields, if its table is there.
pub open spec fn inline_xattr_entries(data: Seq<u8>) -> Result<Seq<(Seq<char>, Seq<u8>)>, ErrorKind> {
    let end = inode_end(data);
    if end + 4 <= data.len() && le32(data, end) == XATTR_MAGIC {
        xattr_entries(data.subrange(end + 4, data.len() as int), 0)
    } else {
        Ok(seq![])
    }
}

/// The number of the external attribute block of the inode record `data`.
pub open spec fn xattr_block_number(data: Seq<u8>) -> int {
    le32(data, 0x68) as int + le16(data, 0x76) as int * 0x1_0000_0000
}

/// The attribute entries of the external block of `data`, if it has one.
pub open spec fn block_xattr_entries(data: Seq<u8>, disk: Seq<u8>, bs: u32, uuid_checksum: Option<u32>) -> Result<
    Seq<(Seq<char>, Seq<u8>)>,
    ErrorKind,
> {
    let b = xattr_block_number(data);
    if b == 0 {
        Ok(seq![])
    } else if b * bs > u64::MAX {
        Err(ErrorKind::AssumptionFailed)
    } else if b * bs + bs > disk.len() {
        Err(ErrorKind::Io)
    } else {
        xattr_block_entries(disk.subrange(b * bs, b * bs + bs), uuid_checksum, b as u64)
    }
}

/// The attributes the inode record `data` gives: its inline ones, then
/// those of its external block.
pub open spec fn xattrs_of_record(data: Seq<u8>, disk: Seq<u8>, bs: u32, uuid_checksum: Option<u32>) -> Option<
    Map<Seq<char>, Seq<u8>>,
> {
    match (inline_xattr_entries(data), block_xattr_entries(data, disk, bs, uuid_checksum)) {
        (Ok(a), Ok(b)) => Some(apply_xattrs(apply_xattrs(Map::empty(), a), b)),
        _ => None,
    }
}

/// The extended attributes of the inode record `data`: its inline table,
/// then its external block, loaded from `source`.
fn inode_xattrs<R: ReadAt>(data: &Vec<u8>, source: &R, block_size: u32, uuid_checksum: Option<u32>) -> (r:
    Result<Vec<Xattr>, Error>)
    requires
        data@.len() >= INODE_BASE_LEN,
        inode_end(data@) <= data@.len(),
    ensures
        r matches Ok(v) ==> names_unique(v@) && xattrs_of_record(data@, source.contents(), block_size, uuid_checksum)
            == Some(xattr_model(v@)),
        inline_xattr_entries(data@) matches Err(k) ==> r matches Err(e) && e.kind() == k,
        inline_xattr_entries(data@) is Ok ==> (block_xattr_entries(data@, source.contents(), block_size, uuid_checksum)
            matches Err(k) ==> fails_as(r, k)),
        inline_xattr_entries(data@) is Ok && xattr_block_number(data@) == 0 ==> r is Ok,
        r matches Err(e) ==> e.is_assumption_failed() || e.is_unsupported_feature() || e.is_io(),
{
    let extra: u16 = if data.len() >= 0x82 { read_le16(data, 0x80) } else { 0 };
    let inode_end = INODE_BASE_LEN + extra as usize;
    let file_acl_lo = read_le32(data, 0x68);
    let file_acl_high = read_le16(data, 0x76);
    let mut xattrs: Vec<Xattr> = Vec::new();
    assert(xattr_model(xattrs@) =~= Map::empty());
    if inode_end + 4 <= data.len() && read_le32(data, inode_end) == XATTR_MAGIC {
        let table = copy_range(data, inode_end + 4, data.len());
        read_xattrs(&mut xattrs, &table, 0)?;
    } else {
        assert(apply_xattrs(Map::empty(), seq![]) == Map::<Seq<char>, Seq<u8>>::empty());
    }
    let ghost inline_model = xattr_model(xattrs@);
    assert(inline_model == apply_xattrs(Map::empty(), inline_xattr_entries(data@).unwrap()));
    if file_acl_lo != 0 || file_acl_high != 0 {
        let block = file_acl_lo as u64 + (file_acl_high as u64) * 0x1_0000_0000;
        let loaded = load_disc_bytes(source, block_size, block)?;
        assert(block == xattr_block_number(data@));
        proof {
            if block_size == 0 {
                assert(block as int * block_size as int == 0) by (nonlinear_arith)
                    requires block_size == 0;
            }
        }
        assert(loaded@ =~= source.contents().subrange(
            block as int * block_size as int,
            block as int * block_size as int + block_size as int,
        ));
        xattr_block(&mut xattrs, loaded, uuid_checksum, block)?;
    }
    Ok(xattrs)
}

/// The length and checksum checks on inode record `d` pass.
pub open spec fn inode_header_ok(d: Seq<u8>, uuid_checksum: Option<u32>, number: u32) -> bool {
    &&& d.len() >= INODE_BASE_LEN
    &&& inode_end(d) <= d.len()
    &&& uuid_checksum matches Some(u) ==> inode_checksum_matches(d, inode_checksum_seed(u, number, le32(d, 0x64)))
}

/// Decode inode number `number` from its bytes `data`, checking its checksum
/// when `uuid_checksum` is given and loading its external attribute block,
/// if it has one, from `source`.
#[verifier::rlimit(40)]
pub fn inode<R: ReadAt>(
    data: Vec<u8>,
    source: &R,
    block_size: u32,
    uuid_checksum: Option<u32>,
    number: u32,
) -> (r: Result<ParsedInode, Error>)
    ensures
        data@.len() < INODE_BASE_LEN ==> fails_assumption(r),
        data@.len() >= INODE_BASE_LEN && inode_end(data@) > data@.len() ==> fails_assumption(r),
        data@.len() >= INODE_BASE_LEN && inode_end(data@) <= data@.len() ==> (uuid_checksum matches Some(u)
            && !inode_checksum_matches(data@, inode_checksum_seed(u, number, le32(data@, 0x64)))
            ==> fails_assumption(r)),
        r matches Ok(p) ==> {
            let d = data@.subrange(0, inode_end(data@));
            &&& data@.len() >= INODE_BASE_LEN
            &&& inode_end(data@) <= data@.len()
            &&& p.checksum_prefix == (match uuid_checksum {
                Some(u) => Some(inode_checksum_seed(u, number, le32(data@, 0x64))),
                None => None,
            })
            &&& uuid_checksum matches Some(u) ==> inode_checksum_matches(
                data@,
                inode_checksum_seed(u, number, le32(data@, 0x64)),
            )
            &&& stat_of_record(p.stat, d)
            &&& names_unique(p.stat.xattrs@)
            &&& xattrs_of_record(data@, source.contents(), block_size, uuid_checksum) == Some(xattr_model(p.stat.xattrs@))
            &&& p.flags.bits == le32(data@, 0x20)
            &&& le32(data@, 0x20) & !KNOWN == 0
            &&& p.core@ == data@.subrange(0x28, 0x64)
        },
        ({
            let d = data@;
            &&& d.len() >= INODE_BASE_LEN
            &&& inode_end(d) <= d.len()
            &&& uuid_checksum matches Some(u) ==> inode_checksum_matches(d, inode_checksum_seed(u, number, le32(d, 0x64)))
            &&& inline_xattr_entries(d) is Ok
            &&& xattr_block_number(d) == 0
            &&& file_type_of_mode(le16(d, 0x00)) is Some
            &&& le32(d, 0x20) & !KNOWN == 0
        }) ==> r is Ok,
        inode_header_ok(data@, uuid_checksum, number) ==> (inline_xattr_entries(data@) matches Err(k)
            ==> r matches Err(e) && e.kind() == k),
        inode_header_ok(data@, uuid_checksum, number) && inline_xattr_entries(data@) is Ok ==> (
        block_xattr_entries(data@, source.contents(), block_size, uuid_checksum) matches Err(k)
            ==> fails_as(r, k)),
        inode_header_ok(data@, uuid_checksum, number) && inline_xattr_entries(data@) is Ok
            && xattr_block_number(data@) == 0 ==> (file_type_of_mode(le16(data@, 0x00)) is None
            ==> fails_unsupported(r)),
        inode_header_ok(data@, uuid_checksum, number) && inline_xattr_entries(data@) is Ok
            && xattr_block_number(data@) == 0 && file_type_of_mode(le16(data@, 0x00)) is Some
            ==> (le32(data@, 0x20) & !KNOWN != 0 ==> fails_unsupported(r)),
        r matches Err(e) ==> e.is_assumption_failed() || e.is_unsupported_feature() || e.is_io(),
{
    if data.len() < INODE_BASE_LEN {
        return Err(assumption_failed("inode isn't bigger than the minimum length"));
    }
    let i_extra_isize: u16 = match RawInode::peek_i_extra_isize(&data) {
        Some(x) => x,
        None => 0,
    };
    let inode_end = INODE_BASE_LEN + i_extra_isize as usize;
    if inode_end > data.len() {
        return Err(assumption_failed("more extra inode than inode"));
    }
    let record = copy_range(&data, 0, inode_end);
    let raw = RawInode::from_slice(&record);
    assert(record@ == data@.subrange(0, inode_end as int));
    let checksum_prefix: Option<u32> = match uuid_checksum {
        Some(u) => Some(check_inode_checksum(&data, u, number, raw.i_generation)?),
        None => None,
    };
    let xattrs = inode_xattrs(&data, source, block_size, uuid_checksum)?;
    let extracted_type = match FileType::from_mode(raw.i_mode) {
        Some(t) => t,
        None => return Err(unsupported_feature("unexpected file type in mode")),
    };
    let flags = match InodeFlags::from_bits(raw.i_flags) {
        Some(f) => f,
        None => return Err(unsupported_feature("unrecognised inode flags")),
    };
    let stat = stat_from_raw(&raw, extracted_type, xattrs, Ghost(record@));
    assert(raw.i_block@ =~= data@.subrange(0x28, 0x64));
    Ok(ParsedInode { stat, flags, core: raw.i_block, checksum_prefix })
}

/// Magic number of the superblock.
pub const EXT4_SUPER_MAGIC: u16 = 0xEF53;
/// The incompatible features this library can read: FILETYPE, RECOVER,
/// EXTENTS, SIXTY_FOUR_BIT and FLEX_BG.
pub const SUPPORTED_INCOMPAT: u32 = 0x2c6;
pub const INCOMPAT_SIXTY_FOUR_BIT: u32 = 0x80;
pub const COMPAT_EXT_ATTR: u32 = 0x8;
pub const RO_COMPAT_GDT_CSUM: u32 = 0x10;
pub const RO_COMPAT_METADATA_CSUM: u32 = 0x400;
pub const STATE_UNMOUNTED_CLEANLY: u16 = 0b01;
pub const STATE_ERRORS_DETECTED: u16 = 0b10;

/// The 1024 superblock bytes of a disk image.
pub open spec fn sb_bytes(disk: Seq<u8>) -> Seq<u8> {
    disk.subrange(1024, 2048)
}

/// The block size that the superblock's size field names, if any.
pub open spec fn block_size_of(log: u32) -> Option<u32> {
    if log == 0 {
        Some(1024)
    } else if log == 1 {
        Some(2048)
    } else if log == 2 {
        Some(4096)
    } else if log == 6 {
        Some(65536)
    } else {
        None
    }
}

pub open spec fn has_metadata_csum(sb: Seq<u8>) -> bool {
    le32(sb, 0x64) & RO_COMPAT_METADATA_CSUM != 0
}

/// Every check of the superblock `sb` that comes before the group table passes.
pub open spec fn sb_accepted(sb: Seq<u8>, options: Options) -> bool {
    &&& le16(sb, 0x38) == EXT4_SUPER_MAGIC
    &&& le32(sb, 0x48) == 0
    &&& le32(sb, 0x60) & !SUPPORTED_INCOMPAT == 0
    &&& le32(sb, 0x60) & INCOMPAT_SIXTY_FOUR_BIT == 0 ==> le16(sb, 0xfe) == 0
    &&& !(has_metadata_csum(sb) && le32(sb, 0x64) & RO_COMPAT_GDT_CSUM != 0)
    &&& (has_metadata_csum(sb) || options.checksums != Checksums::Required)
    &&& has_metadata_csum(sb) ==> le32(sb, 0x3fc) == ext4_crc32c(0xFFFF_FFFF, sb.subrange(0, 0x3fc))
    &&& le16(sb, 0x3a) & STATE_UNMOUNTED_CLEANLY != 0
    &&& le16(sb, 0x3a) & STATE_ERRORS_DETECTED == 0
    &&& le32(sb, 0x28) > 0
    &&& le32(sb, 0x4c) == 1
    &&& block_size_of(le32(sb, 0x18)) is Some
}

/// Where the block-group table starts, for a given block size.
pub open spec fn group_table_pos(block_size: u32) -> int {
    if block_size == 1024 {
        2048
    } else {
        block_size as int
    }
}

/// How many block groups the superblock `sb` describes.
pub open spec fn groups_count(sb: Seq<u8>) -> int {
    (le32(sb, 0x04) as int + le32(sb, 0x150) as int * 0x1_0000_0000 - le32(sb, 0x14) as int
        + le32(sb, 0x20) as int - 1) / le32(sb, 0x20) as int
}

/// The bytes of the block-group table of the disk image `disk`.
pub open spec fn group_table(disk: Seq<u8>, sb: Seq<u8>, block_size: u32) -> Seq<u8> {
    let pos = group_table_pos(block_size);
    disk.subrange(pos, pos + groups_count(sb) * desc_len(le16(sb, 0xfe)))
}

/// The verdict on superblock `sb` before its group table is read, check by
/// check in order: the kind of error of the first check that fails.
pub open spec fn sb_verdict(sb: Seq<u8>, options: Options) -> Result<(), ErrorKind> {
    let bpg = le32(sb, 0x20) as int;
    let span = le32(sb, 0x04) as int + le32(sb, 0x150) as int * 0x1_0000_0000 + bpg - 1;
    if le16(sb, 0x38) != EXT4_SUPER_MAGIC {
        Err(ErrorKind::NotFound)
    } else if le32(sb, 0x48) != 0 || le32(sb, 0x60) & !SUPPORTED_INCOMPAT != 0 {
        Err(ErrorKind::UnsupportedFeature)
    } else if le32(sb, 0x60) & INCOMPAT_SIXTY_FOUR_BIT == 0 && le16(sb, 0xfe) != 0 {
        Err(ErrorKind::AssumptionFailed)
    } else if has_metadata_csum(sb) && le32(sb, 0x64) & RO_COMPAT_GDT_CSUM != 0 {
        Err(ErrorKind::AssumptionFailed)
    } else if !has_metadata_csum(sb) && options.checksums == Checksums::Required {
        Err(ErrorKind::NotFound)
    } else if has_metadata_csum(sb) && le32(sb, 0x3fc) != ext4_crc32c(0xFFFF_FFFF, sb.subrange(0, 0x3fc)) {
        Err(ErrorKind::AssumptionFailed)
    } else if le16(sb, 0x3a) & STATE_UNMOUNTED_CLEANLY == 0 || le16(sb, 0x3a) & STATE_ERRORS_DETECTED != 0 {
        Err(ErrorKind::AssumptionFailed)
    } else if le32(sb, 0x28) == 0 || le32(sb, 0x4c) != 1 || block_size_of(le32(sb, 0x18)) is None {
        Err(ErrorKind::AssumptionFailed)
    } else if bpg == 0 || span < le32(sb, 0x14) || groups_count(sb) > u64::MAX || groups_count(sb)
        * desc_len(le16(sb, 0xfe)) > u64::MAX || groups_count(sb) * desc_len(le16(sb, 0xfe)) > usize::MAX {
        Err(ErrorKind::AssumptionFailed)
    } else {
        Ok(())
    }
}

/// No group of the table claims more free inodes than a group holds.
pub open spec fn table_ok(disk: Seq<u8>, sb: Seq<u8>, block_size: u32) -> bool {
    forall|i: int|
        0 <= i < groups_count(sb) ==> #[trigger] free_inodes_of(
            desc_at(group_table(disk, sb, block_size), le16(sb, 0xfe), i),
        ) <= le32(sb, 0x28)
}

fn block_size_from_log(log: u32) -> (r: Option<u32>)
    ensures
        r == block_size_of(log),
{
    match log {
        0 => Some(1024),
        1 => Some(2048),
        2 => Some(4096),
        6 => Some(65536),
        _ => None,
    }
}

/// Open the filesystem held by `reader`: validate its superblock and load
/// its block-group table.
#[verifier::rlimit(60)]
/// `s` is the filesystem that `superblock` opens on `reader` with `options`.
pub open spec fn opened_from<R: ReadAt>(reader: R, options: Options, s: SuperBlock<R>) -> bool {
    let sb = sb_bytes(reader.contents());
    &&& reader.contents().len() >= 2048
    &&& sb_accepted(sb, options)
    &&& s.wf()
    &&& s.inner == reader
    &&& Some(s.groups.block_size) == block_size_of(le32(sb, 0x18))
    &&& s.groups.inodes_per_group == le32(sb, 0x28)
    &&& s.groups.inode_size == le16(sb, 0x58)
    &&& le32(sb, 0x20) > 0
    &&& s.groups.groups@.len() == groups_count(sb)
    &&& forall|i: int|
        0 <= i < groups_count(sb) ==> #[trigger] s.groups.groups@[i] == entry_of(
            desc_at(group_table(reader.contents(), sb, s.groups.block_size), le16(sb, 0xfe), i),
            le32(sb, 0x28),
        )
    &&& s.uuid@ == sb.subrange(0x68, 0x78)
    &&& s.load_xattrs == (le32(sb, 0x5c) & COMPAT_EXT_ATTR != 0)
    &&& s.uuid_checksum == (if has_metadata_csum(sb) {
        Some(ext4_crc32c(0xFFFF_FFFF, sb.subrange(0x68, 0x78)))
    } else {
        None
    })
}

/// What `superblock` on a source holding `disk` may fail with, and when.
pub open spec fn superblock_outcome<T>(disk: Seq<u8>, options: Options, r: Result<T, Error>) -> bool {
    let sb = sb_bytes(disk);
    let bs = block_size_of(le32(sb, 0x18)).unwrap();
    &&& disk.len() >= 2048 && le16(sb, 0x38) != EXT4_SUPER_MAGIC ==> fails_not_found(r) || fails_io(r)
    &&& disk.len() >= 2048 && le16(sb, 0x38) == EXT4_SUPER_MAGIC && le32(sb, 0x48) != 0
        ==> fails_unsupported(r) || fails_io(r)
    &&& r matches Err(e) ==> e.is_assumption_failed() || e.is_unsupported_feature() || e.is_not_found()
        || e.is_io()
    &&& disk.len() >= 2048 ==> (sb_verdict(sb, options) matches Err(k) ==> fails_as(r, k))
    &&& r matches Err(e) ==> !e.is_io() ==> disk.len() >= 2048 && (sb_verdict(sb, options) == Err::<
        (),
        ErrorKind,
    >(e.kind()) || (sb_verdict(sb, options) is Ok && e.is_assumption_failed() && !table_ok(disk, sb, bs)))
    &&& disk.len() >= 2048 && sb_verdict(sb, options) is Ok && table_ok(disk, sb, bs) ==> r is Ok || fails_io(r)
    &&& fails_not_found(r) ==> le16(sb, 0x38) != EXT4_SUPER_MAGIC || (!has_metadata_csum(sb)
        && options.checksums == Checksums::Required)
    &&& fails_unsupported(r) ==> le32(sb, 0x48) != 0 || le32(sb, 0x60) & !SUPPORTED_INCOMPAT != 0
}

pub fn superblock<R: ReadAt>(reader: R, options: &Options) -> (r: Result<SuperBlock<R>, Error>)
    ensures
        r matches Ok(s) ==> opened_from(reader, *options, s),
        superblock_outcome(reader.contents(), *options, r),
{
    let entire = read_exact_at(&reader, 1024, 1024)?;
    let ghost sb = entire@;
    let raw = RawSuperblock::from_slice(&entire);
    if raw.s_magic != EXT4_SUPER_MAGIC {
        return Err(not_found("invalid magic number"));
    }
    if raw.s_creator_os != 0 {
        return Err(unsupported_feature("only filesystems created on linux are supported"));
    }
    let load_xattrs = raw.s_feature_compat & COMPAT_EXT_ATTR != 0;
    if raw.s_feature_incompat & !SUPPORTED_INCOMPAT != 0 {
        return Err(unsupported_feature("unsupported incompatible feature flags"));
    }
    let long_structs = raw.s_feature_incompat & INCOMPAT_SIXTY_FOUR_BIT != 0;
    if !long_structs && raw.s_desc_size != 0 {
        return Err(assumption_failed("outside long mode, block group desc size must be zero"));
    }
    let has_checksums = raw.s_feature_ro_compat & RO_COMPAT_METADATA_CSUM != 0;
    if has_checksums && raw.s_feature_ro_compat & RO_COMPAT_GDT_CSUM != 0 {
        return Err(assumption_failed("metadata checksums are incompatible with the GDT checksum feature"));
    }
    if !has_checksums && options.checksums == Checksums::Required {
        return Err(not_found("checksums are disabled, but required by options"));
    }
    if has_checksums {
        let expected = ext4_style_crc32c_le(0xFFFF_FFFF, &entire.as_slice()[0..0x3fc]);
        if raw.s_checksum != expected {
            return Err(assumption_failed("superblock checksum mismatch"));
        }
    }
    if raw.s_state & STATE_UNMOUNTED_CLEANLY == 0 || raw.s_state & STATE_ERRORS_DETECTED != 0 {
        return Err(assumption_failed("filesystem is not in a clean state"));
    }
    if raw.s_inodes_per_group == 0 {
        return Err(assumption_failed("inodes per group cannot be zero"));
    }
    if raw.s_rev_level != 1 {
        return Err(assumption_failed("unsupported revision level"));
    }
    let block_size = match block_size_from_log(raw.s_log_block_size) {
        Some(b) => b,
        None => return Err(assumption_failed("unexpected block size")),
    };
    let group_table_pos: u64 = if block_size == 1024 { 2048 } else { block_size as u64 };
    if raw.s_blocks_per_group == 0 {
        return Err(assumption_failed("blocks per group cannot be zero"));
    }
    let combined = raw.s_blocks_count_lo as u128 + (raw.s_blocks_count_hi as u128) * 0x1_0000_0000;
    let span = combined + raw.s_blocks_per_group as u128 - 1;
    if span < raw.s_first_data_block as u128 {
        return Err(assumption_failed("first data block lies past the last block"));
    }
    let blocks_count_wide = (span - raw.s_first_data_block as u128) / raw.s_blocks_per_group as u128;
    if blocks_count_wide > u64::MAX as u128 {
        return Err(assumption_failed("too many block groups"));
    }
    let blocks_count = blocks_count_wide as u64;
    let len: u64 = if raw.s_desc_size < 32 {
        32
    } else if raw.s_desc_size > 4096 {
        4096
    } else {
        raw.s_desc_size as u64
    };
    let table_len = match blocks_count.checked_mul(len) {
        Some(n) => n,
        None => return Err(assumption_failed("block group table is too large")),
    };
    if table_len > usize::MAX as u64 {
        return Err(assumption_failed("block group table is too large"));
    }
    assert(blocks_count == groups_count(sb));
    assert(sb_verdict(sb, *options) is Ok);
    let table = read_exact_at(&reader, group_table_pos, table_len as usize)?;
    assert(table_len as usize == 0 || table@ == group_table(reader.contents(), sb, block_size));
    proof {
        assert(table_len > 0 || blocks_count == 0) by (nonlinear_arith)
            requires table_len == blocks_count * len, len >= 32;
    }
    let groups = match BlockGroups::new(
        &table,
        blocks_count,
        raw.s_desc_size,
        raw.s_inodes_per_group,
        block_size,
        raw.s_inode_size,
    ) {
        Ok(g) => g,
        Err(e) => {
            assert(table@ == group_table(reader.contents(), sb, block_size));
            assert(!table_ok(reader.contents(), sb, block_size));
            return Err(e);
        },
    };
    proof {
        assert forall|i: int| 0 <= i < groups_count(sb) implies #[trigger] groups.groups@[i] == entry_of(
            desc_at(group_table(reader.contents(), sb, block_size), raw.s_desc_size, i),
            raw.s_inodes_per_group,
        ) by {
            assert(table@ == group_table(reader.contents(), sb, block_size));
        }
    }
    let uuid_checksum = if has_checksums {
        Some(ext4_style_crc32c_le(0xFFFF_FFFF, raw.s_uuid.as_slice()))
    } else {
        None
    };
    assert(entire@.subrange(0, 0x3fc) == sb.subrange(0, 0x3fc));
    Ok(SuperBlock { inner: reader, load_xattrs, uuid_checksum, uuid: raw.s_uuid, groups })
}

} // verus!
