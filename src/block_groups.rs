//! The block-group descriptor table, and where each inode lives on disk.
use vstd::prelude::*;

use crate::bytes::{le16, le32};
use crate::error::{assumption_failed, fails_assumption, fails_not_found, not_found, Error};
use crate::raw::RawBlockGroup;

verus! {

pub const INODES_UNUSED: u16 = 0b1;
pub const BLOCKS_UNUSED: u16 = 0b10;

/// What the table records of one block group.
#[derive(Clone, Copy, Debug, PartialEq, Eq, Structural)]
pub struct Entry {
    pub inode_table_block: u64,
    /// Slots of the group that may be read: zero for an uninitialised group.
    pub max_inode_number: u32,
}

/// The block groups of a filesystem.
#[derive(Debug)]
pub struct BlockGroups {
    pub groups: Vec<Entry>,
    pub inodes_per_group: u32,
    pub block_size: u32,
    pub inode_size: u16,
}

/// How many bytes one descriptor takes, from the superblock's size field.
pub open spec fn desc_len(s_desc_size: u16) -> int {
    if s_desc_size < 32 {
        32
    } else if s_desc_size > 4096 {
        4096
    } else {
        s_desc_size as int
    }
}

/// The bytes of descriptor `i` in `table`.
pub open spec fn desc_at(table: Seq<u8>, s_desc_size: u16, i: int) -> Seq<u8> {
    table.subrange(i * desc_len(s_desc_size), (i + 1) * desc_len(s_desc_size))
}

pub open spec fn inode_table_of(d: Seq<u8>) -> u64 {
    (le32(d, 0x08) as int + (if d.len() >= 0x2c {
        le32(d, 0x28) as int
    } else {
        0
    }) * 0x1_0000_0000) as u64
}

pub open spec fn free_inodes_of(d: Seq<u8>) -> int {
    le16(d, 0x0e) as int + (if d.len() >= 0x30 {
        le16(d, 0x2e) as int
    } else {
        0
    }) * 0x1_0000
}

pub open spec fn is_uninitialised(d: Seq<u8>) -> bool {
    le16(d, 0x12) & INODES_UNUSED != 0 || le16(d, 0x12) & BLOCKS_UNUSED != 0
}

/// The entry that descriptor `d` gives a group of `inodes_per_group` inodes.
pub open spec fn entry_of(d: Seq<u8>, inodes_per_group: u32) -> Entry {
    Entry {
        inode_table_block: inode_table_of(d),
        max_inode_number: if is_uninitialised(d) {
            0
        } else {
            inodes_per_group
        },
    }
}

/// The absolute byte offset that `index_of` computes for `inode`, before
/// the checks on it.
pub open spec fn inode_offset(g: BlockGroups, inode: u32) -> int {
    let n = inode - 1;
    g.groups@[n / g.inodes_per_group as int].inode_table_block as int * g.block_size as int + (n
        % g.inodes_per_group as int) * g.inode_size as int
}

/// Whether `inode` names a slot that the table lets us read.
pub open spec fn inode_in_table(g: BlockGroups, inode: u32) -> bool {
    let n = inode - 1;
    &&& inode != 0
    &&& n / (g.inodes_per_group as int) < g.groups@.len()
    &&& n % (g.inodes_per_group as int) < g.groups@[n / (g.inodes_per_group as int)].max_inode_number
}

impl BlockGroups {
    pub open spec fn wf(&self) -> bool {
        self.inodes_per_group > 0
    }

    /// Decode `blocks_count` descriptors laid out one after another in `table`.
    pub fn new(
        table: &[u8],
        blocks_count: u64,
        s_desc_size: u16,
        s_inodes_per_group: u32,
        block_size: u32,
        inode_size: u16,
    ) -> (r: Result<BlockGroups, Error>)
        requires
            s_inodes_per_group > 0,
            table@.len() == blocks_count * desc_len(s_desc_size),
        ensures
            r is Ok <==> forall|i: int|
                0 <= i < blocks_count ==> #[trigger] free_inodes_of(desc_at(table@, s_desc_size, i))
                    <= s_inodes_per_group,
            r matches Ok(g) ==> {
                &&& g.wf()
                &&& g.inodes_per_group == s_inodes_per_group
                &&& g.block_size == block_size
                &&& g.inode_size == inode_size
                &&& g.groups@.len() == blocks_count
                &&& forall|i: int|
                    0 <= i < blocks_count ==> #[trigger] g.groups@[i] == entry_of(
                        desc_at(table@, s_desc_size, i),
                        s_inodes_per_group,
                    )
            },
            r matches Err(e) ==> e.is_assumption_failed(),
    {
        let len: usize = if s_desc_size < 32 {
            32
        } else if s_desc_size > 4096 {
            4096
        } else {
            s_desc_size as usize
        };
        let count = table.len() / len;
        proof {
            let t = table@.len() as int;
            let l = len as int;
            let b = blocks_count as int;
            assert(t / l == b) by (nonlinear_arith)
                requires
                    t == b * l,
                    l > 0,
            ;
        }
        let mut groups: Vec<Entry> = Vec::new();
        let mut i: usize = 0;
        let mut start: usize = 0;
        let tl: usize = table.len();
        while i < count
            invariant
                tl == table@.len(),
                start == i * len,
                len > 0,
                count == blocks_count,
                len == desc_len(s_desc_size),
                table@.len() == blocks_count * len,
                i <= count,
                groups@.len() == i,
                forall|j: int|
                    0 <= j < i ==> #[trigger] free_inodes_of(desc_at(table@, s_desc_size, j))
                        <= s_inodes_per_group,
                forall|j: int|
                    0 <= j < i ==> #[trigger] groups@[j] == entry_of(
                        desc_at(table@, s_desc_size, j),
                        s_inodes_per_group,
                    ),
            decreases count - i,
        {
            proof {
                let (a, c, l) = (i as int, count as int, len as int);
                assert((a + 1) * l <= c * l) by (nonlinear_arith)
                    requires
                        a < c,
                        l > 0,
                ;
                assert((a + 1) * l == a * l + l) by (nonlinear_arith);
            }
            let d = &table[start..start + len];
            assert(d@ == desc_at(table@, s_desc_size, i as int));
            let raw = RawBlockGroup::from_slice(d);
            let hi_table: u64 = match raw.bg_inode_table_hi {
                Some(h) => h as u64,
                None => 0,
            };
            let inode_table_block = raw.bg_inode_table_lo as u64 + hi_table * 0x1_0000_0000;
            let hi_free: u32 = match raw.bg_free_inodes_count_hi {
                Some(h) => h as u32,
                None => 0,
            };
            let free_inodes_count = raw.bg_free_inodes_count_lo as u32 + hi_free * 0x1_0000;
            assert(free_inodes_count == free_inodes_of(d@));
            assert(inode_table_block == inode_table_of(d@));
            if free_inodes_count > s_inodes_per_group {
                assert(free_inodes_of(desc_at(table@, s_desc_size, i as int)) > s_inodes_per_group);
                return Err(assumption_failed("too many free inodes in a group"));
            }
            let unallocated = raw.bg_flags & INODES_UNUSED != 0 || raw.bg_flags & BLOCKS_UNUSED
                != 0;
            let max_inode_number = if unallocated {
                0
            } else {
                s_inodes_per_group
            };
            groups.push(Entry { inode_table_block, max_inode_number });
            i += 1;
            start += len;
        }
        Ok(BlockGroups { groups, inodes_per_group: s_inodes_per_group, block_size, inode_size })
    }

    /// The absolute byte offset of inode number `inode`.
    pub fn index_of(&self, inode: u32) -> (r: Result<u64, Error>)
        requires
            self.wf(),
        ensures
            inode == 0 ==> fails_not_found(r),
            fails_not_found(r) ==> !inode_in_table(*self, inode),
            inode != 0 && (inode - 1) / (self.inodes_per_group as int) >= self.groups@.len() ==> fails_not_found(r),
            ({
                let n = inode - 1;
                let g = n / (self.inodes_per_group as int);
                inode != 0 && g < self.groups@.len() && n % (self.inodes_per_group as int)
                    >= self.groups@[g].max_inode_number ==> fails_assumption(r)
            }),
            r is Ok <==> inode_in_table(*self, inode) && inode_offset(*self, inode) <= u64::MAX,
            r matches Ok(off) ==> off == inode_offset(*self, inode),
            r matches Err(e) ==> e.is_not_found() || e.is_assumption_failed(),
    {
        if inode == 0 {
            return Err(not_found("there is no inode zero"));
        }
        let n = inode - 1;
        let group_number = n / self.inodes_per_group;
        if group_number as usize >= self.groups.len() {
            return Err(not_found("inode number is beyond the last group"));
        }
        let group = self.groups[group_number as usize];
        let slot = n % self.inodes_per_group;
        if slot >= group.max_inode_number {
            return Err(assumption_failed("inode number must fit in its group"));
        }
        proof {
            let (a, b) = (group.inode_table_block as int, self.block_size as int);
            let (c, d) = (slot as int, self.inode_size as int);
            assert(a * b <= 0xFFFF_FFFF_FFFF_FFFF * 0xFFFF_FFFF) by (nonlinear_arith)
                requires
                    0 <= a <= 0xFFFF_FFFF_FFFF_FFFF,
                    0 <= b <= 0xFFFF_FFFF,
            ;
            assert(c * d <= 0xFFFF_FFFF * 0xFFFF) by (nonlinear_arith)
                requires
                    0 <= c <= 0xFFFF_FFFF,
                    0 <= d <= 0xFFFF,
            ;
        }
        let table = (group.inode_table_block as u128) * (self.block_size as u128);
        let within = (slot as u128) * (self.inode_size as u128);
        if table + within > u64::MAX as u128 {
            return Err(assumption_failed("inode lies beyond the addressable range"));
        }
        Ok((table + within) as u64)
    }
}

} // verus!
