use std::cell::Cell;

use ext4::parse::ext4_style_crc32c_le;
use ext4::{
    Checksums, Enhanced, Error, FileType, InnerReader, NoneCrypto, Options, ParseError, ReadAt,
    SuperBlock,
};

const BS: usize = 1024;

fn put16(img: &mut [u8], at: usize, v: u16) {
    img[at..at + 2].copy_from_slice(&v.to_le_bytes());
}

fn put32(img: &mut [u8], at: usize, v: u32) {
    img[at..at + 4].copy_from_slice(&v.to_le_bytes());
}

fn inode_at(n: usize) -> usize {
    3 * BS + (n - 1) * 256
}

fn extent_core(img: &mut [u8], inode: usize, block: u32) {
    let at = inode_at(inode) + 0x28;
    img[at] = 0x0a;
    img[at + 1] = 0xf3;
    put16(img, at + 2, 1);
    put16(img, at + 4, 4);
    put16(img, at + 6, 0);
    put32(img, at + 12, 0);
    put16(img, at + 16, 1);
    put16(img, at + 18, 0);
    put32(img, at + 20, block);
}

fn dir_record(img: &mut [u8], at: usize, inode: u32, rec_len: u16, kind: u8, name: &[u8]) {
    put32(img, at, inode);
    put16(img, at + 4, rec_len);
    img[at + 6] = name.len() as u8;
    img[at + 7] = kind;
    img[at + 8..at + 8 + name.len()].copy_from_slice(name);
}

/// A one-group filesystem of 1 KiB blocks: the root directory holds a
/// regular file, a short symlink and a character device.
fn tiny_image() -> Vec<u8> {
    let mut img = vec![0u8; 9 * BS];
    let sb = 1024;
    put32(&mut img, sb + 0x00, 16);
    put32(&mut img, sb + 0x04, 9);
    put32(&mut img, sb + 0x14, 1);
    put32(&mut img, sb + 0x18, 0);
    put32(&mut img, sb + 0x20, 8192);
    put32(&mut img, sb + 0x28, 16);
    put16(&mut img, sb + 0x38, 0xEF53);
    put16(&mut img, sb + 0x3a, 1);
    put32(&mut img, sb + 0x4c, 1);
    put16(&mut img, sb + 0x58, 256);
    put32(&mut img, sb + 0x60, 0x42);
    img[sb + 0x68..sb + 0x78].copy_from_slice(b"0123456789abcdef");
    // Group descriptor: inode table in block 3.
    put32(&mut img, 2 * BS + 0x08, 3);
    // Root directory, data in block 7.
    let root = inode_at(2);
    put16(&mut img, root, 0x41ED);
    put32(&mut img, root + 0x04, BS as u32);
    put16(&mut img, root + 0x1a, 3);
    put32(&mut img, root + 0x20, 0x80000);
    extent_core(&mut img, 2, 7);
    let d = 7 * BS;
    dir_record(&mut img, d, 2, 12, 2, b".");
    dir_record(&mut img, d + 12, 2, 12, 2, b"..");
    dir_record(&mut img, d + 24, 12, 20, 1, b"hello.txt");
    dir_record(&mut img, d + 44, 13, 12, 7, b"link");
    dir_record(&mut img, d + 56, 14, 12, 3, b"tty");
    dir_record(&mut img, d + 68, 15, (BS - 68) as u16, 1, b"future-file");
    // Regular file, data in block 8.
    let file = inode_at(12);
    put16(&mut img, file, 0x81A4);
    put32(&mut img, file + 0x04, 14);
    put32(&mut img, file + 0x10, 1_000_000);
    put16(&mut img, file + 0x1a, 1);
    put32(&mut img, file + 0x20, 0x80000);
    extent_core(&mut img, 12, 8);
    img[8 * BS..8 * BS + 14].copy_from_slice(b"Hello, world!\n");
    // Short symlink.
    let link = inode_at(13);
    put16(&mut img, link, 0xA1FF);
    put32(&mut img, link + 0x04, 9);
    img[link + 0x28..link + 0x28 + 9].copy_from_slice(b"hello.txt");
    // Character device 4:65 in the new encoding.
    let tty = inode_at(14);
    put16(&mut img, tty, 0x21B6);
    img[tty + 0x28 + 4] = 65;
    img[tty + 0x28 + 5] = 4;
    // An empty file modified in 2345, with extra time fields.
    let future = inode_at(15);
    put16(&mut img, future, 0x81A4);
    put32(&mut img, future + 0x10, 0xC229_D726);
    put32(&mut img, future + 0x20, 0x80000);
    extent_core(&mut img, 15, 8);
    put16(&mut img, future + 0x80, 32);
    put32(&mut img, future + 0x88, 0x1A83_E957);
    img
}

fn open_tiny(img: Vec<u8>) -> SuperBlock<Vec<u8>> {
    SuperBlock::new_with_options(img, &Options { checksums: Checksums::Enabled }).unwrap()
}

#[test]
fn tiny_image_opens_and_reads_a_file() {
    let fs = open_tiny(tiny_image());
    assert_eq!(b"0123456789abcdef", fs.get_uuid());
    let entry = fs.resolve_path("/hello.txt").unwrap();
    assert_eq!(12, entry.inode);
    assert_eq!(FileType::RegularFile, entry.file_type);
    let inode = fs.load_inode(entry.inode).unwrap();
    assert_eq!(14, inode.stat.size);
    assert_eq!(1_000_000, inode.stat.mtime.epoch_secs);
    let mut reader = fs.open(&inode).unwrap();
    let bytes = reader.read_to_end().unwrap();
    assert_eq!("Hello, world!\n", String::from_utf8(bytes).unwrap());
}

#[test]
fn future_file_mtime_extends_past_32_bits() {
    let fs = open_tiny(tiny_image());
    let future_file_inode = fs.resolve_path("future-file").unwrap().inode;
    let inode = fs.load_inode(future_file_inode).unwrap();
    assert_eq!(11847456550, inode.stat.mtime.epoch_secs);
    assert_eq!(Some(111213141), inode.stat.mtime.nanos);
    assert_eq!(0, fs.open(&inode).unwrap().read_to_end().unwrap().len());
}

#[test]
fn index_of_follows_group_layout() {
    let fs = open_tiny(tiny_image());
    assert_eq!(3 * 1024 + 11 * 256, fs.groups.index_of(12).unwrap());
    assert!(matches!(
        fs.groups.index_of(0),
        Err(Error::Parse(ParseError::NotFound { .. }))
    ));
    assert!(matches!(
        fs.groups.index_of(17),
        Err(Error::Parse(ParseError::NotFound { .. }))
    ));
}

#[test]
fn loading_an_inode_twice_gives_equal_stat() {
    let fs = open_tiny(tiny_image());
    let a = fs.load_inode(12).unwrap();
    let b = fs.load_inode(12).unwrap();
    assert_eq!(format!("{:?}", a.stat), format!("{:?}", b.stat));
}

#[test]
fn resolving_root_gives_inode_two() {
    let fs = open_tiny(tiny_image());
    let root = fs.resolve_path("/").unwrap();
    assert_eq!(2, root.inode);
    assert_eq!(FileType::Directory, root.file_type);
    assert_eq!("/", root.name);
    assert_eq!(2, fs.resolve_path("").unwrap().inode);
}

#[test]
fn resolving_each_root_entry_finds_it() {
    let fs = open_tiny(tiny_image());
    let root = fs.root().unwrap();
    match fs.enhance(&root).unwrap() {
        Enhanced::Directory(entries) => {
            assert_eq!(6, entries.len());
            for e in entries.iter().filter(|e| e.name != "." && e.name != "..") {
                assert_eq!(e.inode, fs.resolve_path(&format!("/{}", e.name)).unwrap().inode);
            }
        }
        other => panic!("root is not a directory: {:?}", other),
    }
}

#[test]
fn missing_path_component_is_not_found() {
    let fs = open_tiny(tiny_image());
    assert!(matches!(
        fs.resolve_path("/nothing-here"),
        Err(Error::Parse(ParseError::NotFound { .. }))
    ));
    assert!(matches!(
        fs.resolve_path("/hello.txt/below"),
        Err(Error::Parse(ParseError::NotFound { .. }))
    ));
}

#[test]
fn walk_visits_every_entry_once() {
    let fs = open_tiny(tiny_image());
    let root = fs.root().unwrap();
    let seen = Cell::new(0u32);
    let paths = std::cell::RefCell::new(Vec::new());
    let done = fs
        .walk(&root, "", &|_fs: &SuperBlock<Vec<u8>>, path: &str, _i, _e| {
            seen.set(seen.get() + 1);
            paths.borrow_mut().push(path.to_string());
            Ok(true)
        })
        .unwrap();
    assert!(done);
    assert_eq!(5, seen.get());
    assert_eq!(vec!["", "hello.txt", "link", "tty", "future-file"], *paths.borrow());
}

#[test]
fn walk_stops_when_visitor_says_so() {
    let fs = open_tiny(tiny_image());
    let root = fs.root().unwrap();
    let seen = Cell::new(0u32);
    let done = fs
        .walk(&root, "/", &|_fs: &SuperBlock<Vec<u8>>, _p: &str, _i, _e| {
            seen.set(seen.get() + 1);
            Ok(seen.get() < 2)
        })
        .unwrap();
    assert!(!done);
    assert_eq!(2, seen.get());
}

#[test]
fn short_symlink_and_device_are_decoded() {
    let fs = open_tiny(tiny_image());
    let link = fs.load_inode(13).unwrap();
    match fs.enhance(&link).unwrap() {
        Enhanced::SymbolicLink(target) => assert_eq!("hello.txt", target),
        other => panic!("not a symlink: {:?}", other),
    }
    let tty = fs.load_inode(14).unwrap();
    match fs.enhance(&tty).unwrap() {
        Enhanced::CharacterDevice(major, minor) => {
            assert_eq!(4, major);
            assert_eq!(65, minor);
        }
        other => panic!("not a device: {:?}", other),
    }
}

#[test]
fn short_symlink_with_flags_is_unsupported() {
    let mut img = tiny_image();
    put32(&mut img, inode_at(13) + 0x20, 0x10);
    let fs = open_tiny(img);
    let link = fs.load_inode(13).unwrap();
    assert!(matches!(
        fs.enhance(&link),
        Err(Error::Parse(ParseError::UnsupportedFeature { .. }))
    ));
}

#[test]
fn file_without_extents_is_unsupported() {
    let mut img = tiny_image();
    put32(&mut img, inode_at(12) + 0x20, 0);
    let fs = open_tiny(img);
    let inode = fs.load_inode(12).unwrap();
    assert!(matches!(
        fs.open(&inode),
        Err(Error::Parse(ParseError::UnsupportedFeature { .. }))
    ));
}

#[test]
fn unknown_inode_flag_is_unsupported() {
    let mut img = tiny_image();
    put32(&mut img, inode_at(12) + 0x20, 0x0010_0000 | 0x80000);
    let fs = open_tiny(img);
    assert!(matches!(
        fs.load_inode(12),
        Err(Error::Parse(ParseError::UnsupportedFeature { .. }))
    ));
}

#[test]
fn random_bytes_have_no_superblock() {
    let mut state = 0x2545_f491u32;
    let img: Vec<u8> = (0..8192)
        .map(|_| {
            state ^= state << 13;
            state ^= state >> 17;
            state ^= state << 5;
            state as u8
        })
        .collect();
    assert_ne!(0xEF53, u16::from_le_bytes([img[0x438], img[0x439]]));
    assert!(matches!(
        SuperBlock::new(img),
        Err(Error::Parse(ParseError::NotFound { .. }))
    ));
}

#[test]
fn checksums_required_but_absent_is_not_found() {
    assert!(matches!(
        SuperBlock::new(tiny_image()),
        Err(Error::Parse(ParseError::NotFound { .. }))
    ));
}

#[test]
fn unsupported_incompat_feature_is_refused() {
    let mut img = tiny_image();
    put32(&mut img, 1024 + 0x60, 0x42 | 0x8000);
    assert!(matches!(
        SuperBlock::new_with_options(img, &Options { checksums: Checksums::Enabled }),
        Err(Error::Parse(ParseError::UnsupportedFeature { .. }))
    ));
}

#[test]
fn unclean_filesystem_is_refused() {
    let mut img = tiny_image();
    put16(&mut img, 1024 + 0x3a, 3);
    assert!(matches!(
        SuperBlock::new_with_options(img, &Options { checksums: Checksums::Enabled }),
        Err(Error::Parse(ParseError::AssumptionFailed { .. }))
    ));
}

#[test]
fn checksummed_superblock_is_verified() {
    let mut img = tiny_image();
    put32(&mut img, 1024 + 0x64, 0x400);
    let crc = ext4_style_crc32c_le(!0, &img[1024..1024 + 0x3fc]);
    put32(&mut img, 1024 + 0x3fc, crc);
    // The inodes carry no checksums, so loading them fails, but the
    // superblock itself is accepted.
    let fs = SuperBlock::new(img.clone()).unwrap();
    assert_eq!(Some(ext4_style_crc32c_le(!0, b"0123456789abcdef")), fs.uuid_checksum);
    img[1024 + 0x10] ^= 1;
    assert!(matches!(
        SuperBlock::new(img),
        Err(Error::Parse(ParseError::AssumptionFailed { .. }))
    ));
}

#[test]
fn truncated_image_is_an_io_error() {
    assert!(matches!(SuperBlock::new(vec![0u8; 1500]), Err(Error::Io(_))));
}

#[test]
fn image_reads_the_same_through_the_identity_decryptor() {
    let fs = SuperBlock::new_with_options_and_crypto(
        tiny_image(),
        &Options { checksums: Checksums::Enabled },
        NoneCrypto {},
    )
    .unwrap();
    let entry = fs.resolve_path("/hello.txt").unwrap();
    let inode = fs.load_inode(entry.inode).unwrap();
    let bytes = fs.open(&inode).unwrap().read_to_end().unwrap();
    assert_eq!(b"Hello, world!\n".to_vec(), bytes);
    assert_eq!(&NoneCrypto {}, fs.get_metadata_crypto());
}

#[test]
fn decrypting_reader_reads_across_pages() {
    let data: Vec<u8> = (0..10000u32).map(|i| (i % 251) as u8).collect();
    let reader = InnerReader::new(data.clone(), NoneCrypto {});
    let first = reader.read_at(4090, 100).unwrap();
    assert_eq!(data[4090..4096].to_vec(), first);
    let tail = reader.read_at(9990, 100).unwrap();
    assert_eq!(data[9990..10000].to_vec(), tail);
    assert!(reader.read_at(10000, 5).unwrap().is_empty());
    assert_eq!(data[5..9].to_vec(), reader.read_at_without_decrypt(5, 4).unwrap());
}
