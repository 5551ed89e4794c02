use ext4::block_groups::BlockGroups;
use ext4::dir::read_directory;
use ext4::fs::load_maj_min;
use ext4::mbr::{parse_partition_table, read_partition, read_partition_table, RangeReader};
use ext4::parse::{ext4_style_crc32c_le, inode};
use ext4::raw::RawInode;
use ext4::{map_lib_error_to_io, Error, FileType, IoErrorKind, ParseError, ReadAt};

fn record(out: &mut Vec<u8>, inode: u32, rec_len: u16, kind: u8, name: &[u8]) {
    let start = out.len();
    out.extend_from_slice(&inode.to_le_bytes());
    out.extend_from_slice(&rec_len.to_le_bytes());
    out.push(name.len() as u8);
    out.push(kind);
    out.extend_from_slice(name);
    out.resize(start + rec_len as usize, 0);
}

#[test]
fn directory_records_decode() {
    let mut data = Vec::new();
    record(&mut data, 2, 12, 2, b".");
    record(&mut data, 11, 20, 1, b"notes\0\0");
    record(&mut data, 0, 16, 0, b"");
    record(&mut data, 12, 16, 7, b"ln");
    let entries = read_directory(&data, None).unwrap();
    assert_eq!(3, entries.len());
    assert_eq!("notes", entries[1].name);
    assert_eq!(11, entries[1].inode);
    assert_eq!(FileType::SymbolicLink, entries[2].file_type);
}

fn with_trailer(prefix: u32, corrupt: bool) -> Vec<u8> {
    let mut data = Vec::new();
    record(&mut data, 2, 12, 2, b".");
    record(&mut data, 2, 12, 2, b"..");
    let crc = ext4_style_crc32c_le(prefix, &data);
    record(&mut data, 0, 12, 0xDE, b"");
    let end = data.len();
    data[end - 4..].copy_from_slice(&(if corrupt { crc ^ 1 } else { crc }).to_le_bytes());
    data
}

#[test]
fn directory_trailer_checksum_is_checked() {
    let entries = read_directory(&with_trailer(77, false), Some(77)).unwrap();
    assert_eq!(2, entries.len());
    assert!(matches!(
        read_directory(&with_trailer(77, true), Some(77)),
        Err(Error::Parse(ParseError::AssumptionFailed { .. }))
    ));
}

#[test]
fn directory_without_trailer_fails_when_checksummed() {
    let mut data = Vec::new();
    record(&mut data, 2, 12, 2, b".");
    assert!(read_directory(&data, None).is_ok());
    assert!(matches!(
        read_directory(&data, Some(1)),
        Err(Error::Parse(ParseError::AssumptionFailed { .. }))
    ));
}

#[test]
fn directory_record_too_short_is_unsupported() {
    let mut data = Vec::new();
    record(&mut data, 2, 12, 2, b".");
    data[4] = 8;
    assert!(matches!(
        read_directory(&data, None),
        Err(Error::Parse(ParseError::UnsupportedFeature { .. }))
    ));
}

#[test]
fn directory_overrun_is_refused() {
    let mut data = Vec::new();
    record(&mut data, 2, 12, 2, b".");
    data[4] = 16;
    assert!(read_directory(&data, None).is_err());
}

#[test]
fn directory_name_must_be_utf8() {
    let mut data = Vec::new();
    record(&mut data, 5, 12, 1, &[0xff, 0xfe]);
    assert!(matches!(
        read_directory(&data, None),
        Err(Error::Parse(ParseError::AssumptionFailed { .. }))
    ));
}

#[test]
fn directory_unknown_type_is_unsupported() {
    let mut data = Vec::new();
    record(&mut data, 5, 12, 9, b"x");
    assert!(matches!(
        read_directory(&data, None),
        Err(Error::Parse(ParseError::UnsupportedFeature { .. }))
    ));
}

fn checksummed_inode(uuid_checksum: u32, number: u32) -> Vec<u8> {
    let mut data = vec![0u8; 256];
    data[0..2].copy_from_slice(&0x81A4u16.to_le_bytes());
    data[0x04..0x08].copy_from_slice(&5u32.to_le_bytes());
    data[0x20..0x24].copy_from_slice(&0x80000u32.to_le_bytes());
    data[0x64..0x68].copy_from_slice(&9u32.to_le_bytes());
    data[0x80..0x82].copy_from_slice(&32u16.to_le_bytes());
    data[0x90..0x94].copy_from_slice(&1234i32.to_le_bytes());
    let mut seed_bytes = Vec::new();
    seed_bytes.extend_from_slice(&number.to_le_bytes());
    seed_bytes.extend_from_slice(&9u32.to_le_bytes());
    let seed = ext4_style_crc32c_le(uuid_checksum, &seed_bytes);
    let crc = ext4_style_crc32c_le(seed, &data);
    data[0x7c..0x7e].copy_from_slice(&((crc & 0xFFFF) as u16).to_le_bytes());
    data[0x82..0x84].copy_from_slice(&((crc >> 16) as u16).to_le_bytes());
    data
}

#[test]
fn checksummed_inode_is_accepted() {
    let disk: Vec<u8> = Vec::new();
    let parsed = inode(checksummed_inode(0xABCD, 12), &disk, 1024, Some(0xABCD), 12).unwrap();
    assert_eq!(5, parsed.stat.size);
    assert_eq!(Some(1234), parsed.stat.btime.map(|t| t.epoch_secs));
    assert!(parsed.checksum_prefix.is_some());
}

#[test]
fn flipped_inode_byte_fails_checksum() {
    let disk: Vec<u8> = Vec::new();
    let mut data = checksummed_inode(0xABCD, 12);
    data[0x10] ^= 0x40;
    assert!(matches!(
        inode(data, &disk, 1024, Some(0xABCD), 12),
        Err(Error::Parse(ParseError::AssumptionFailed { .. }))
    ));
    // The same inode under another number fails too: the seed covers it.
    assert!(inode(checksummed_inode(0xABCD, 12), &disk, 1024, Some(0xABCD), 13).is_err());
}

#[test]
fn short_inode_is_refused() {
    let disk: Vec<u8> = Vec::new();
    assert!(matches!(
        inode(vec![0u8; 100], &disk, 1024, None, 1),
        Err(Error::Parse(ParseError::AssumptionFailed { .. }))
    ));
    let mut data = vec![0u8; 160];
    data[0x80..0x82].copy_from_slice(&64u16.to_le_bytes());
    assert!(matches!(
        inode(data, &disk, 1024, None, 1),
        Err(Error::Parse(ParseError::AssumptionFailed { .. }))
    ));
}

fn xattr_entry(out: &mut Vec<u8>, prefix: u8, name: &[u8], value_offset: u16, value_size: u32) {
    out.push(name.len() as u8);
    out.push(prefix);
    out.extend_from_slice(&value_offset.to_le_bytes());
    out.extend_from_slice(&0u32.to_le_bytes());
    out.extend_from_slice(&value_size.to_le_bytes());
    out.extend_from_slice(&0u32.to_le_bytes());
    out.extend_from_slice(name);
    while out.len() % 4 != 0 {
        out.push(0);
    }
}

#[test]
fn inline_xattrs_are_read() {
    let disk: Vec<u8> = Vec::new();
    let mut data = vec![0u8; 256];
    data[0..2].copy_from_slice(&0x81A4u16.to_le_bytes());
    data[0x80..0x82].copy_from_slice(&32u16.to_le_bytes());
    data[160..164].copy_from_slice(&0xEA02_0000u32.to_le_bytes());
    let mut table = Vec::new();
    xattr_entry(&mut table, 1, b"colour", 64, 4);
    table.extend_from_slice(&[0u8; 16]);
    table.resize(64, 0);
    table.extend_from_slice(b"blue");
    data[164..164 + table.len()].copy_from_slice(&table);
    let parsed = inode(data, &disk, 1024, None, 7).unwrap();
    assert_eq!(1, parsed.stat.xattrs.len());
    assert_eq!("user.colour", parsed.stat.xattrs[0].name);
    assert_eq!(b"blue".to_vec(), parsed.stat.xattrs[0].value);
}

#[test]
fn external_xattr_block_is_read_and_checked() {
    let bs = 1024usize;
    let mut disk = vec![0u8; 3 * bs];
    let blk = 2 * bs;
    disk[blk..blk + 4].copy_from_slice(&0xEA02_0000u32.to_le_bytes());
    disk[blk + 8..blk + 12].copy_from_slice(&1u32.to_le_bytes());
    let mut entries = Vec::new();
    xattr_entry(&mut entries, 6, b"label", 512, 3);
    disk[blk + 0x20..blk + 0x20 + entries.len()].copy_from_slice(&entries);
    disk[blk + 512..blk + 515].copy_from_slice(b"abc");
    let uuid_checksum = 0x55u32;
    let base = ext4_style_crc32c_le(uuid_checksum, &2u64.to_le_bytes());
    let crc = ext4_style_crc32c_le(base, &disk[blk..blk + bs]);
    disk[blk + 0x10..blk + 0x14].copy_from_slice(&crc.to_le_bytes());

    let mut data = vec![0u8; 128];
    data[0..2].copy_from_slice(&0x81A4u16.to_le_bytes());
    data[0x68..0x6c].copy_from_slice(&2u32.to_le_bytes());
    let mut seed_bytes = Vec::new();
    seed_bytes.extend_from_slice(&3u32.to_le_bytes());
    seed_bytes.extend_from_slice(&0u32.to_le_bytes());
    let seed = ext4_style_crc32c_le(uuid_checksum, &seed_bytes);
    let icrc = ext4_style_crc32c_le(seed, &data);
    data[0x7c..0x7e].copy_from_slice(&((icrc & 0xFFFF) as u16).to_le_bytes());

    let parsed = inode(data.clone(), &disk, 1024, Some(uuid_checksum), 3).unwrap();
    assert_eq!("security.label", parsed.stat.xattrs[0].name);
    assert_eq!(b"abc".to_vec(), parsed.stat.xattrs[0].value);

    disk[blk + 513] ^= 1;
    assert!(matches!(
        inode(data, &disk, 1024, Some(uuid_checksum), 3),
        Err(Error::Parse(ParseError::AssumptionFailed { .. }))
    ));
}

#[test]
fn xattr_unknown_prefix_is_unsupported() {
    let disk: Vec<u8> = Vec::new();
    let mut data = vec![0u8; 256];
    data[0..2].copy_from_slice(&0x81A4u16.to_le_bytes());
    data[0x80..0x82].copy_from_slice(&32u16.to_le_bytes());
    data[160..164].copy_from_slice(&0xEA02_0000u32.to_le_bytes());
    let mut table = Vec::new();
    xattr_entry(&mut table, 5, b"x", 0, 0);
    data[164..164 + table.len()].copy_from_slice(&table);
    assert!(matches!(
        inode(data, &disk, 1024, None, 7),
        Err(Error::Parse(ParseError::UnsupportedFeature { .. }))
    ));
}

#[test]
fn raw_inode_optional_fields_follow_length() {
    let mut data = vec![0u8; 0x88];
    data[0x84..0x88].copy_from_slice(&0x1234_5678u32.to_le_bytes());
    let raw = RawInode::from_slice(&data);
    assert_eq!(Some(0x1234_5678), raw.i_ctime_extra);
    assert_eq!(None, raw.i_mtime_extra);
    assert_eq!(Some(0), RawInode::peek_i_extra_isize(&data));
    assert_eq!(None, RawInode::peek_i_extra_isize(&data[..0x81]));
}

#[test]
fn block_groups_decode_descriptors() {
    let mut table = vec![0u8; 64];
    table[0x08..0x0c].copy_from_slice(&5u32.to_le_bytes());
    table[0x28..0x2c].copy_from_slice(&1u32.to_le_bytes());
    let groups = BlockGroups::new(&table, 1, 64, 8, 4096, 256).unwrap();
    assert_eq!(0x1_0000_0005, groups.groups[0].inode_table_block);
    assert_eq!(8, groups.groups[0].max_inode_number);
    assert_eq!(0x1_0000_0005 * 4096 + 2 * 256, groups.index_of(3).unwrap());

    let mut uninit = vec![0u8; 32];
    uninit[0x12] = 1;
    let groups = BlockGroups::new(&uninit, 1, 0, 8, 1024, 128).unwrap();
    assert!(matches!(
        groups.index_of(1),
        Err(Error::Parse(ParseError::AssumptionFailed { .. }))
    ));

    let mut crowded = vec![0u8; 32];
    crowded[0x0e] = 9;
    assert!(matches!(
        BlockGroups::new(&crowded, 1, 0, 8, 1024, 128),
        Err(Error::Parse(ParseError::AssumptionFailed { .. }))
    ));
}

#[test]
fn old_style_device_numbers() {
    let mut core = [0u8; 60];
    core[0] = 3;
    core[1] = 8;
    assert_eq!((8, 3), load_maj_min(&core));
    let mut core = [0u8; 60];
    core[4] = 0x21;
    core[5] = 0x03;
    core[6] = 0x5a;
    core[7] = 0x01;
    assert_eq!((0x0a03, 0x1521), load_maj_min(&core));
}

fn boot_sector() -> Vec<u8> {
    let mut sector = vec![0u8; 512];
    let e = 446;
    sector[e] = 0x80;
    sector[e + 4] = 0x83;
    sector[e + 8..e + 12].copy_from_slice(&2048u32.to_le_bytes());
    sector[e + 12..e + 16].copy_from_slice(&100u32.to_le_bytes());
    sector
}

#[test]
fn partition_table_is_parsed() {
    let parts = parse_partition_table(&boot_sector(), 512).unwrap();
    assert_eq!(1, parts.len());
    assert_eq!(0, parts[0].id);
    assert!(parts[0].bootable);
    assert_eq!(0x83, parts[0].type_code);
    assert_eq!(2048 * 512, parts[0].first_byte);
    assert_eq!(2048 * 512 + 100 * 512, parts[0].len);
    assert_eq!(1, read_partition_table(&boot_sector()).unwrap().len());

    let mut bad = boot_sector();
    bad[446 + 16] = 0x12;
    assert!(parse_partition_table(&bad, 512).is_err());
}

#[test]
fn range_reader_stays_in_its_range() {
    let data = vec![0u8, 1, 2, 3, 4, 5, 6, 7];
    let part = ext4::mbr::Partition { id: 0, bootable: false, type_code: 0x83, first_byte: 2, len: 5 };
    let reader: RangeReader<Vec<u8>> = read_partition(data, &part);
    assert_eq!(vec![2, 3], reader.read_at(0, 2).unwrap());
    assert_eq!(vec![5, 6], reader.read_at(3, 10).unwrap());
    assert_eq!(Vec::<u8>::new(), reader.read_at(5, 10).unwrap());
}

#[test]
fn lib_errors_map_to_io() {
    let e = Error::Parse(ParseError::NotFound { reason: "gone".to_string() });
    let io = map_lib_error_to_io(&e);
    assert_eq!(IoErrorKind::Other, io.kind);
    assert_eq!("Ext4 error: gone", io.message);
}
