//! Directory blocks: the record stream and its checksum trailer.
use vstd::prelude::*;
use vstd::utf8::{decode_utf8, valid_utf8};

use crate::bytes::{le16, le32, read_le16, read_le32};
use crate::crc::{ext4_crc32c, ext4_style_crc32c_le};
use crate::error::{assumption_failed, unexpected_eof, unsupported_feature, Error, ErrorKind};
use crate::text::{trim_zeros, trimmed_len, utf8_string};
use crate::types::{file_type_of_hint, DirEntry, FileType};

verus! {

/// A directory entry as a value: inode, type and name.
pub open spec fn entry_view(e: DirEntry) -> (u32, FileType, Seq<char>) {
    (e.inode, e.file_type, e.name@)
}

pub open spec fn entries_view(v: Seq<DirEntry>) -> Seq<(u32, FileType, Seq<char>)> {
    v.map_values(|e: DirEntry| entry_view(e))
}

/// The record at `p` is the trailer that holds the block's checksum.
pub open spec fn is_trailer(d: Seq<u8>, p: int) -> bool {
    le32(d, p) == 0 && le16(d, p + 4) == 12 && d[p + 6] == 0 && d[p + 7] == 0xDE
}

/// The listing that the records of `d` from offset `p` on decode to, with
/// checksums checked against `prefix` when it is given; where the records
/// are refused, the kind of error that refuses them.
pub open spec fn dir_listing(d: Seq<u8>, p: int, prefix: Option<u32>) -> Result<
    Seq<(u32, FileType, Seq<char>)>,
    ErrorKind,
>
    decreases d.len() - p,
{
    if p < 0 || p + 8 > d.len() {
        Err(ErrorKind::Io)
    } else {
        let child = le32(d, p);
        let rec_len = le16(d, p + 4) as int;
        let name_len = d[p + 6] as int;
        let ft = d[p + 7];
        if rec_len <= 8 {
            Err(ErrorKind::UnsupportedFeature)
        } else if p + 8 + name_len > d.len() {
            Err(ErrorKind::Io)
        } else if is_trailer(d, p) {
            match prefix {
                None => Ok(seq![]),
                Some(c) => if p + 12 > d.len() {
                    Err(ErrorKind::Io)
                } else if le32(d, p + 8) == ext4_crc32c(c, d.subrange(0, p)) {
                    Ok(seq![])
                } else {
                    Err(ErrorKind::AssumptionFailed)
                },
            }
        } else {
            let name = trim_zeros(d.subrange(p + 8, p + 8 + name_len));
            let next = p + rec_len;
            if child != 0 && !valid_utf8(name) {
                Err(ErrorKind::AssumptionFailed)
            } else if child != 0 && file_type_of_hint(ft) is None {
                Err(ErrorKind::UnsupportedFeature)
            } else {
                let rest = if next >= d.len() {
                    if next == d.len() && prefix is None {
                        Ok(seq![])
                    } else {
                        Err(ErrorKind::AssumptionFailed)
                    }
                } else {
                    dir_listing(d, next, prefix)
                };
                if child != 0 {
                    match rest {
                        Ok(r) => Ok(seq![(child, file_type_of_hint(ft).unwrap(), decode_utf8(name))] + r),
                        Err(k) => Err(k),
                    }
                } else {
                    rest
                }
            }
        }
    }
}

/// A listing checked against a checksum seed ends in a trailer record, and
/// that trailer holds the checksum of every byte before it.
pub proof fn lemma_checked_listing_has_trailer(d: Seq<u8>, p: int, c: u32)
    requires
        dir_listing(d, p, Some(c)) is Ok,
    ensures
        exists|q: int|
            p <= q && q + 12 <= d.len() && #[trigger] is_trailer(d, q) && le32(d, q + 8)
                == ext4_crc32c(c, d.subrange(0, q)),
    decreases d.len() - p,
{
    let rec_len = le16(d, p + 4) as int;
    if is_trailer(d, p) {
        assert(is_trailer(d, p));
    } else {
        lemma_checked_listing_has_trailer(d, p + rec_len, c);
    }
}

/// A listing without a checksum seed either ends in a trailer record or its
/// records fill the data exactly.
pub proof fn lemma_listing_consumes_all(d: Seq<u8>, p: int)
    requires
        dir_listing(d, p, None) is Ok,
    ensures
        exists|q: int|
            p <= q && q + 8 <= d.len() && (#[trigger] is_trailer(d, q) || q + le16(d, q + 4) == d.len()),
    decreases d.len() - p,
{
    let rec_len = le16(d, p + 4) as int;
    if is_trailer(d, p) || p + rec_len >= d.len() {
        assert(is_trailer(d, p) || p + le16(d, p + 4) == d.len());
    } else {
        lemma_listing_consumes_all(d, p + rec_len);
    }
}

pub open spec fn prepend<T>(a: Seq<T>, r: Result<Seq<T>, ErrorKind>) -> Result<Seq<T>, ErrorKind> {
    match r {
        Ok(s) => Ok(a + s),
        Err(k) => Err(k),
    }
}

/// Decode the records of a directory's contents `data`.
pub fn read_directory(data: &[u8], checksum_prefix: Option<u32>) -> (r: Result<Vec<DirEntry>, Error>)
    ensures
        r is Ok <==> dir_listing(data@, 0, checksum_prefix) is Ok,
        r matches Ok(v) ==> dir_listing(data@, 0, checksum_prefix) == Ok::<Seq<(u32, FileType, Seq<char>)>, ErrorKind>(entries_view(v@)),
        r matches Err(e) ==> e.is_assumption_failed() || e.is_unsupported_feature() || e.is_io(),
        r matches Err(e) ==> dir_listing(data@, 0, checksum_prefix) == Err::<Seq<(u32, FileType, Seq<char>)>, ErrorKind>(e.kind()),
{
    let ghost d = data@;
    let total = data.len();
    let mut dirs: Vec<DirEntry> = Vec::new();
    let mut read: usize = 0;
    loop
        invariant
            total == d.len(),
            d == data@,
            read < total || (read == 0 && total == 0),
            dir_listing(d, 0, checksum_prefix) == prepend(
                entries_view(dirs@),
                dir_listing(d, read as int, checksum_prefix),
            ),
        decreases total - read,
    {
        if total - read < 8 {
            return Err(unexpected_eof());
        }
        let child_inode = read_le32(data, read);
        let rec_len = read_le16(data, read + 4);
        let name_len = data[read + 6];
        let file_type = data[read + 7];
        if rec_len <= 8 {
            return Err(unsupported_feature("directory record length is too short"));
        }
        if total - read - 8 < name_len as usize {
            return Err(unexpected_eof());
        }
        let name_start = read + 8;
        let name_end = name_start + name_len as usize;
        if child_inode == 0 && rec_len == 12 && name_len == 0 && file_type == 0xDE {
            if let Some(prefix) = checksum_prefix {
                if total - read < 12 {
                    return Err(unexpected_eof());
                }
                let expected = read_le32(data, read + 8);
                let computed = ext4_style_crc32c_le(prefix, &data[0..read]);
                if expected != computed {
                    return Err(assumption_failed("directory checksum mismatch"));
                }
            }
            assert(entries_view(dirs@) + seq![] =~= entries_view(dirs@));
            return Ok(dirs);
        }
        let ghost before = dirs@;
        if child_inode != 0 {
            let raw_name = &data[name_start..name_end];
            let keep = trimmed_len(raw_name, name_len as usize);
            assert(raw_name@.subrange(0, name_len as int) =~= raw_name@);
            let trimmed = &raw_name[0..keep];
            let name = match utf8_string(trimmed) {
                Some(s) => s,
                None => return Err(assumption_failed("invalid utf-8 in file name")),
            };
            let file_type = match FileType::from_dir_hint(file_type) {
                Some(t) => t,
                None => return Err(unsupported_feature("unexpected file type in directory")),
            };
            dirs.push(DirEntry { inode: child_inode, name, file_type });
            assert(entries_view(dirs@) =~= entries_view(before) + seq![entry_view(dirs@[dirs@.len() - 1])]);
        }
        if rec_len as usize >= total - read {
            if rec_len as usize != total - read {
                return Err(assumption_failed("directory records overrun the data"));
            }
            if checksum_prefix.is_some() {
                return Err(assumption_failed(
                    "directory checksums are enabled but checksum record not found",
                ));
            }
            assert(entries_view(dirs@) + seq![] =~= entries_view(dirs@));
            return Ok(dirs);
        }
        read = read + rec_len as usize;
        proof {
            let rest = dir_listing(d, read as int, checksum_prefix);
            if rest is Ok && child_inode != 0 {
                assert(entries_view(before) + (seq![entry_view(dirs@[dirs@.len() - 1])] + rest.unwrap())
                    =~= entries_view(dirs@) + rest.unwrap());
            }
        }
    }
}

} // verus!
