use ext4::extents::{load_extent_tree, Extent, SeekFrom, TreeReader};
use ext4::Error;

#[test]
fn simple_tree() {
    let data = (0..255u8).collect::<Vec<u8>>();
    let size = 4 + 4 * 2;
    let mut reader = TreeReader::create(
        data,
        4,
        u64::try_from(size).expect("infallible u64 conversion"),
        vec![
            Extent {
                part: 0,
                start: 10,
                len: 1,
            },
            Extent {
                part: 1,
                start: 20,
                len: 2,
            },
        ],
    );

    let res = reader.read_to_end().unwrap();
    assert_eq!(size, res.len());

    assert_eq!(vec![40, 41, 42, 43, 80, 81, 82, 83, 84, 85, 86, 87], res);
}

#[test]
fn sparse_hole_reads_as_zeros() {
    let data = (0..255u8).collect::<Vec<u8>>();
    let mut reader = TreeReader::create(
        data,
        4,
        12,
        vec![Extent { part: 2, start: 5, len: 1 }],
    );
    let res = reader.read_to_end().unwrap();
    assert_eq!(vec![0, 0, 0, 0, 0, 0, 0, 0, 20, 21, 22, 23], res);
}

#[test]
fn hole_read_stops_at_next_extent_from_mid_block() {
    let data = (0..255u8).collect::<Vec<u8>>();
    let mut reader = TreeReader::create(data, 4, 12, vec![Extent { part: 2, start: 5, len: 1 }]);
    reader.seek(SeekFrom::Start(6)).unwrap();
    let first = reader.read(100).unwrap();
    assert_eq!(vec![0, 0], first);
    let second = reader.read(100).unwrap();
    assert_eq!(vec![20, 21, 22, 23], second);
}

#[test]
fn never_reads_past_file_size() {
    let data = (0..255u8).collect::<Vec<u8>>();
    let mut reader = TreeReader::create(data, 4, 6, vec![Extent { part: 0, start: 1, len: 3 }]);
    let res = reader.read_to_end().unwrap();
    assert_eq!(vec![4, 5, 6, 7, 8, 9], res);
    assert_eq!(0, reader.read(10).unwrap().len());
}

#[test]
fn seek_to_size_is_allowed_and_past_it_refused() {
    let data = vec![0u8; 64];
    let mut reader = TreeReader::create(data, 4, 10, vec![Extent { part: 0, start: 0, len: 3 }]);
    assert_eq!(10, reader.seek(SeekFrom::Start(10)).unwrap());
    assert!(reader.seek(SeekFrom::Start(11)).is_err());
    assert_eq!(10, reader.pos);
    assert_eq!(7, reader.seek(SeekFrom::End(-3)).unwrap());
    assert_eq!(5, reader.seek(SeekFrom::Current(-2)).unwrap());
    assert!(reader.seek(SeekFrom::Current(-6)).is_err());
}

fn root_node(entries: &[(u32, u16, u64)], depth: u16) -> [u8; 60] {
    let mut core = [0u8; 60];
    core[0] = 0x0a;
    core[1] = 0xf3;
    core[2..4].copy_from_slice(&(entries.len() as u16).to_le_bytes());
    core[4..6].copy_from_slice(&4u16.to_le_bytes());
    core[6..8].copy_from_slice(&depth.to_le_bytes());
    for (i, (part, len, start)) in entries.iter().enumerate() {
        let at = 12 + i * 12;
        core[at..at + 4].copy_from_slice(&part.to_le_bytes());
        core[at + 4..at + 6].copy_from_slice(&len.to_le_bytes());
        core[at + 6..at + 8].copy_from_slice(&((start >> 32) as u16).to_le_bytes());
        core[at + 8..at + 12].copy_from_slice(&(*start as u32).to_le_bytes());
    }
    core
}

#[test]
fn extent_list_comes_out_sorted() {
    let disk = vec![0u8; 16];
    let core = root_node(&[(10, 2, 7), (0, 3, 1), (4, 1, 0x1_0000_0002)], 0);
    let v = load_extent_tree(&disk, 1024, &core, None).unwrap();
    let parts: Vec<u32> = v.iter().map(|e| e.part).collect();
    assert_eq!(vec![0, 4, 10], parts);
    assert_eq!(0x1_0000_0002, v[1].start);
}

#[test]
fn overlapping_extents_are_refused() {
    let disk = vec![0u8; 16];
    let core = root_node(&[(0, 3, 1), (2, 1, 9)], 0);
    assert!(matches!(
        load_extent_tree(&disk, 1024, &core, None),
        Err(Error::Parse(ext4::ParseError::AssumptionFailed { .. }))
    ));
}

#[test]
fn bad_extent_magic_is_refused() {
    let disk = vec![0u8; 16];
    let mut core = root_node(&[(0, 1, 1)], 0);
    core[1] = 0;
    assert!(matches!(
        load_extent_tree(&disk, 1024, &core, None),
        Err(Error::Parse(ext4::ParseError::AssumptionFailed { .. }))
    ));
}

#[test]
fn too_deep_extent_tree_is_refused() {
    let disk = vec![0u8; 16];
    let core = root_node(&[], 6);
    assert!(matches!(
        load_extent_tree(&disk, 1024, &core, None),
        Err(Error::Parse(ext4::ParseError::AssumptionFailed { .. }))
    ));
}

#[test]
fn two_level_tree_checks_child_checksum() {
    let bs = 1024usize;
    let mut disk = vec![0u8; 3 * bs];
    // Child leaf node in block 2.
    let leaf = root_node(&[(0, 1, 1)], 0);
    disk[2 * bs..2 * bs + 60].copy_from_slice(&leaf);
    let prefix = 0x1234_5678u32;
    let crc = ext4::parse::ext4_style_crc32c_le(prefix, &disk[2 * bs..3 * bs - 4]);
    disk[3 * bs - 4..3 * bs].copy_from_slice(&crc.to_le_bytes());
    // Index root pointing at block 2.
    let mut core = root_node(&[], 1);
    core[2] = 1;
    core[12..16].copy_from_slice(&0u32.to_le_bytes());
    core[16..20].copy_from_slice(&2u32.to_le_bytes());
    let v = load_extent_tree(&disk, 1024, &core, Some(prefix)).unwrap();
    assert_eq!(1, v.len());
    assert_eq!(1, v[0].start);
    disk[2 * bs + 20] ^= 1;
    assert!(matches!(
        load_extent_tree(&disk, 1024, &core, Some(prefix)),
        Err(Error::Parse(ext4::ParseError::AssumptionFailed { .. }))
    ));
}

#[test]
fn read_after_seeking_to_size_returns_nothing() {
    let data = vec![1u8; 64];
    let mut reader = TreeReader::create(data, 4, 10, vec![Extent { part: 0, start: 0, len: 3 }]);
    assert_eq!(10, reader.seek(SeekFrom::Start(10)).unwrap());
    assert_eq!(0, reader.read(8).unwrap().len());
    assert_eq!(0, reader.read_to_end().unwrap().len());
}

#[test]
fn failed_tree_load_leaves_extents_unchanged() {
    let disk = vec![0u8; 16];
    let core = root_node(&[(0, 1, 1)], 1);
    let mut extents = vec![Extent { part: 9, start: 9, len: 1 }];
    assert!(ext4::extents::add_found_extents(&disk, 1024, &core, 1, &mut extents, None, true).is_err());
    assert_eq!(vec![Extent { part: 9, start: 9, len: 1 }], extents);
}
