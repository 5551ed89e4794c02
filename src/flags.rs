//! Inode flag bits.
use vstd::prelude::*;

verus! {

pub const SECRM: u32 = 0x0000_0001;
pub const UNRM: u32 = 0x0000_0002;
pub const COMPR: u32 = 0x0000_0004;
pub const SYNC: u32 = 0x0000_0008;
pub const IMMUTABLE: u32 = 0x0000_0010;
pub const APPEND: u32 = 0x0000_0020;
pub const NODUMP: u32 = 0x0000_0040;
pub const NOATIME: u32 = 0x0000_0080;
pub const DIRTY: u32 = 0x0000_0100;
pub const COMPRBLK: u32 = 0x0000_0200;
pub const NOCOMPR: u32 = 0x0000_0400;
pub const ENCRYPT: u32 = 0x0000_0800;
pub const INDEX: u32 = 0x0000_1000;
pub const IMAGIC: u32 = 0x0000_2000;
pub const JOURNAL_DATA: u32 = 0x0000_4000;
pub const NOTAIL: u32 = 0x0000_8000;
pub const DIRSYNC: u32 = 0x0001_0000;
pub const TOPDIR: u32 = 0x0002_0000;
pub const HUGE_FILE: u32 = 0x0004_0000;
pub const EXTENTS: u32 = 0x0008_0000;
pub const EA_INODE: u32 = 0x0020_0000;
pub const EOFBLOCKS: u32 = 0x0040_0000;
pub const INLINE_DATA: u32 = 0x1000_0000;
pub const PROJINHERIT: u32 = 0x2000_0000;
pub const RESERVED: u32 = 0x8000_0000;
/// Every bit above.
pub const KNOWN: u32 = 0xb06f_ffff;
/// The bits that change how an inode's data is laid out: COMPR, DIRTY,
/// COMPRBLK, ENCRYPT, IMAGIC, NOTAIL, TOPDIR, HUGE_FILE, EXTENTS,
/// EA_INODE, EOFBLOCKS and INLINE_DATA.
pub const LAYOUT: u32 = 0x106e_ab04;

/// The set of flags of an inode; only bits of `KNOWN` are ever set.
#[derive(Clone, Copy, Debug, PartialEq, Eq, Structural)]
pub struct InodeFlags {
    pub bits: u32,
}

impl InodeFlags {
    /// The flags whose bits are `bits`, if every bit is a known one.
    pub fn from_bits(bits: u32) -> (r: Option<InodeFlags>)
        ensures
            r == (if bits & !KNOWN == 0 {
                Some(InodeFlags { bits })
            } else {
                None
            }),
    {
        if bits & !KNOWN == 0 {
            Some(InodeFlags { bits })
        } else {
            None
        }
    }

    /// True when, of the layout flags, exactly EXTENTS is set.
    pub fn only_relevant_flag_is_extents(&self) -> (r: bool)
        ensures
            r == (self.bits & LAYOUT == EXTENTS),
    {
        self.bits & LAYOUT == EXTENTS
    }
}

} // verus!
