//! DOS/MBR partition tables (not GPT), and byte sources limited to one
//! partition.
use vstd::prelude::*;

use crate::bytes::{le32, read_le32};
use crate::error::{assumption_failed, Error, IoError, IoErrorKind};
use crate::source::{read_exact_at, ReadAt};

verus! {

/// An entry in the partition table.
#[derive(Clone, Copy, Debug, PartialEq, Eq, Structural)]
pub struct Partition {
    pub id: usize,
    pub bootable: bool,
    pub type_code: u8,
    pub first_byte: u64,
    pub len: u64,
}

/// Offset of partition entry `id` in the boot sector.
pub open spec fn entry_offset(id: int) -> int {
    446 + 16 * id
}

/// The status byte of entry `id` is one of the two defined values.
pub open spec fn status_valid(sector: Seq<u8>, id: int) -> bool {
    sector[entry_offset(id)] == 0x00 || sector[entry_offset(id)] == 0x80
}

/// `p` is what entry `p.id` of `sector` describes, with sectors of
/// `sector_size` bytes.
pub open spec fn partition_matches(sector: Seq<u8>, sector_size: u16, p: Partition) -> bool {
    let o = entry_offset(p.id as int);
    &&& p.id < 4
    &&& p.bootable == (sector[o] == 0x80)
    &&& p.type_code == sector[o + 4]
    &&& p.type_code != 0
    &&& p.first_byte == le32(sector, o + 8) as int * sector_size as int
    &&& p.len == p.first_byte + le32(sector, o + 12) as int * sector_size as int
}

/// Read a DOS/MBR partition table from the first 512 bytes of `reader`.
/// The sector size for the disc is assumed to be 512 bytes.
pub fn read_partition_table<R: ReadAt>(reader: &R) -> (r: Result<Vec<Partition>, Error>)
    ensures
        r matches Ok(v) ==> reader.contents().len() >= 512 && forall|k: int|
            0 <= k < v@.len() ==> partition_matches(reader.contents().subrange(0, 512), 512, #[trigger] v@[k]),
{
    let sector = read_exact_at(reader, 0, 512)?;
    parse_partition_table(&sector, 512)
}

/// Read a DOS/MBR partition table from a 512-byte boot sector, providing a
/// disc sector size. Entries of type zero are empty and left out.
pub fn parse_partition_table(sector: &[u8], sector_size: u16) -> (r: Result<Vec<Partition>, Error>)
    requires
        sector@.len() >= 512,
    ensures
        r is Ok <==> forall|id: int| 0 <= id < 4 ==> #[trigger] status_valid(sector@, id),
        r matches Ok(v) ==> v@.len() <= 4 && forall|k: int|
            0 <= k < v@.len() ==> partition_matches(sector@, sector_size, #[trigger] v@[k]),
        r matches Err(e) ==> e.is_assumption_failed(),
{
    let mut partitions: Vec<Partition> = Vec::new();
    let mut entry_id: usize = 0;
    while entry_id < 4
        invariant
            entry_id <= 4,
            sector@.len() >= 512,
            partitions@.len() <= entry_id,
            forall|id: int| 0 <= id < entry_id ==> #[trigger] status_valid(sector@, id),
            forall|k: int|
                0 <= k < partitions@.len() ==> partition_matches(sector@, sector_size, #[trigger] partitions@[k]),
        decreases 4 - entry_id,
    {
        let entry_offset = 446 + entry_id * 16;
        let status = sector[entry_offset];
        let bootable = if status == 0x00 {
            false
        } else if status == 0x80 {
            true
        } else {
            assert(!status_valid(sector@, entry_id as int));
            return Err(assumption_failed("invalid status code in partition table"));
        };
        let type_code = sector[entry_offset + 4];
        if type_code != 0 {
            proof {
                let (a, b) = (le32(sector@, entry_offset + 12) as int, sector_size as int);
                assert(a * b <= 0xFFFF_FFFF * 0xFFFF) by (nonlinear_arith)
                    requires 0 <= a <= 0xFFFF_FFFF, 0 <= b <= 0xFFFF;
                let c = le32(sector@, entry_offset + 8) as int;
                assert(c * b <= 0xFFFF_FFFF * 0xFFFF) by (nonlinear_arith)
                    requires 0 <= c <= 0xFFFF_FFFF, 0 <= b <= 0xFFFF;
            }
            let first_byte = read_le32(sector, entry_offset + 8) as u64 * sector_size as u64;
            let len = first_byte + read_le32(sector, entry_offset + 12) as u64 * sector_size as u64;
            partitions.push(Partition { id: entry_id, bootable, type_code, first_byte, len });
        }
        entry_id += 1;
    }
    Ok(partitions)
}

/// The bytes of `inner` from `first_byte` on, at most `len` of them.
#[derive(Debug)]
pub struct RangeReader<R> {
    pub inner: R,
    pub first_byte: u64,
    pub len: u64,
}

/// The part of `disk` that starts at `first` and spans at most `len` bytes.
pub open spec fn window(disk: Seq<u8>, first: int, len: int) -> Seq<u8> {
    let lo = if first < disk.len() { first } else { disk.len() as int };
    let hi = if first + len < disk.len() { first + len } else { disk.len() as int };
    disk.subrange(lo, hi)
}

impl<R: ReadAt> ReadAt for RangeReader<R> {
    open spec fn contents(&self) -> Seq<u8> {
        window(self.inner.contents(), self.first_byte as int, self.len as int)
    }

    fn read_at(&self, pos: u64, len: usize) -> (r: Result<Vec<u8>, IoError>) {
        if pos >= self.len || len == 0 {
            return Ok(Vec::new());
        }
        let at = match self.first_byte.checked_add(pos) {
            Some(a) => a,
            None => {
                return Err(
                    IoError { kind: IoErrorKind::Other, message: "position out of range".to_owned() },
                )
            },
        };
        let left = self.len - pos;
        let want: usize = if (len as u64) < left { len } else { left as usize };
        let got = self.inner.read_at(at, want)?;
        proof {
            let disk = self.inner.contents();
            if got@.len() > 0 {
                assert(self.contents() =~= disk.subrange(self.first_byte as int,
                    if self.first_byte + self.len < disk.len() { self.first_byte + self.len } else { disk.len() as int }));
                assert(got@ =~= self.contents().subrange(pos as int, pos + got@.len()));
            }
        }
        Ok(got)
    }
}

/// Open the contents of a partition for reading.
pub fn read_partition<R: ReadAt>(inner: R, part: &Partition) -> (r: RangeReader<R>)
    ensures
        r.inner == inner,
        r.first_byte == part.first_byte,
        r.len == part.len,
{
    RangeReader { inner, first_byte: part.first_byte, len: part.len }
}

} // verus!
