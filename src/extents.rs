//! Extent trees, and reading a file's bytes through them.
use vstd::prelude::*;

use crate::bytes::{le16, le32, read_le16, read_le32};
use crate::crc::{ext4_crc32c, ext4_style_crc32c_le};
use crate::error::{assumption_failed, fails_assumption, unexpected_eof, Error, IoError, IoErrorKind};
use crate::source::{load_disc_bytes, ReadAt};
use crate::types::INODE_CORE_SIZE;

verus! {

/// `len` contiguous logical blocks from logical block `part` on, stored at
/// the physical blocks from `start` on.
#[derive(Clone, Copy, Debug, PartialEq, Eq, Structural)]
pub struct Extent {
    pub part: u32,
    pub start: u64,
    pub len: u16,
}

/// `x` maps logical block `b`.
pub open spec fn covers(x: Extent, b: int) -> bool {
    x.part <= b < x.part + x.len
}

/// Each extent ends before any later one starts: the list is sorted by
/// `part` and no two extents overlap.
pub open spec fn extents_wf(e: Seq<Extent>) -> bool {
    forall|i: int, j: int| 0 <= i < j < e.len() ==> #[trigger] e[i].part + e[i].len <= #[trigger] e[j].part
}

/// Some extent of `e` maps logical block `b`.
pub open spec fn is_mapped(e: Seq<Extent>, b: int) -> bool {
    exists|k: int| 0 <= k < e.len() && covers(#[trigger] e[k], b)
}

/// The extent of `e` that maps logical block `b`.
pub open spec fn mapping(e: Seq<Extent>, b: int) -> Extent
    recommends
        is_mapped(e, b),
{
    e[choose|k: int| 0 <= k < e.len() && covers(#[trigger] e[k], b)]
}

/// Byte `i` of a file laid out by `e` in blocks of `bs` bytes over the disk
/// bytes `disk`: zero in a hole.
pub open spec fn file_byte(e: Seq<Extent>, bs: int, disk: Seq<u8>, i: int) -> u8 {
    if is_mapped(e, i / bs) {
        let x = mapping(e, i / bs);
        disk[x.start * bs + i - x.part * bs]
    } else {
        0
    }
}

/// In a well-formed list, the extent that maps a block is the only one.
proof fn lemma_mapping_unique(e: Seq<Extent>, k: int, b: int)
    requires
        extents_wf(e),
        0 <= k < e.len(),
        covers(e[k], b),
    ensures
        is_mapped(e, b),
        mapping(e, b) == e[k],
{
    let j = choose|j: int| 0 <= j < e.len() && covers(#[trigger] e[j], b);
    if j < k {
        assert(e[j].part + e[j].len <= e[k].part);
    } else if j > k {
        assert(e[k].part + e[k].len <= e[j].part);
    }
}

proof fn lemma_block_between(i: int, bs: int, lo: int, hi: int)
    requires
        bs > 0,
        lo * bs <= i < hi * bs,
    ensures
        lo <= i / bs < hi,
{
    assert(lo <= i / bs) by (nonlinear_arith)
        requires
            bs > 0,
            lo * bs <= i,
    {
        if i / bs < lo {
            assert(i / bs + 1 <= lo);
            assert((i / bs + 1) * bs <= lo * bs);
            assert(i < (i / bs + 1) * bs);
        }
    }
    assert(i / bs < hi) by (nonlinear_arith)
        requires
            bs > 0,
            i < hi * bs,
    {
        if i / bs >= hi {
            assert(hi * bs <= (i / bs) * bs);
            assert((i / bs) * bs <= i);
        }
    }
}

/// Byte `i` of the file whose extent-tree root is `core`: what a reader
/// opened on it returns.
pub open spec fn tree_byte(disk: Seq<u8>, bs: u32, core: Seq<u8>, prefix: Option<u32>, i: int) -> u8 {
    match node_extents(disk, bs, core, le16(core, 6), prefix, true) {
        Some(found) => file_byte(found, bs as int, disk, i),
        None => 0,
    }
}

/// The first `size` bytes of the file whose extent-tree root is `core`.
pub open spec fn tree_bytes(disk: Seq<u8>, bs: u32, core: Seq<u8>, prefix: Option<u32>, size: int) -> Seq<u8> {
    Seq::new(size as nat, |i: int| tree_byte(disk, bs, core, prefix, i))
}

/// Byte `i` of a file laid out by `e` maps to a disk offset past `u64::MAX`.
pub open spec fn read_overflows(e: Seq<Extent>, bs: int, i: int) -> bool {
    is_mapped(e, i / bs) && mapping(e, i / bs).start * bs + i - mapping(e, i / bs).part * bs > u64::MAX
}

/// Some byte below `size` of the file whose extent-tree root is `core`
/// maps to a disk offset past `u64::MAX`.
pub open spec fn tree_read_overflows(disk: Seq<u8>, bs: u32, core: Seq<u8>, prefix: Option<u32>, size: int) -> bool {
    exists|i: int|
        0 <= i < size && read_overflows(
            node_extents(disk, bs, core, le16(core, 6), prefix, true).unwrap(),
            bs as int,
            i,
        )
}

/// A well-formed list maps each block as any list with the same extents in
/// another order does.
pub proof fn lemma_same_extents_same_mapping(v: Seq<Extent>, f: Seq<Extent>, b: int)
    requires
        extents_wf(v),
        v.to_multiset() == f.to_multiset(),
    ensures
        is_mapped(v, b) == is_mapped(f, b),
        is_mapped(v, b) ==> mapping(v, b) == mapping(f, b),
{
    broadcast use vstd::seq_lib::to_multiset_contains;

    if is_mapped(v, b) {
        let k = choose|k: int| 0 <= k < v.len() && covers(#[trigger] v[k], b);
        lemma_mapping_unique(v, k, b);
        assert(v.to_multiset().count(v[k]) > 0) by {
            assert(v.contains(v[k]));
        }
        assert(f.contains(v[k]));
        let j = choose|j: int| 0 <= j < f.len() && f[j] == v[k];
        assert(covers(f[j], b));
        let jj = choose|jj: int| 0 <= jj < f.len() && covers(#[trigger] f[jj], b);
        assert(f.contains(f[jj]));
        assert(f.to_multiset().count(f[jj]) > 0);
        assert(v.contains(f[jj]));
        let kk = choose|kk: int| 0 <= kk < v.len() && v[kk] == f[jj];
        lemma_mapping_unique(v, kk, b);
    } else if is_mapped(f, b) {
        let jj = choose|jj: int| 0 <= jj < f.len() && covers(#[trigger] f[jj], b);
        assert(f.contains(f[jj]));
        assert(f.to_multiset().count(f[jj]) > 0);
        assert(v.contains(f[jj]));
        let kk = choose|kk: int| 0 <= kk < v.len() && v[kk] == f[jj];
        assert(covers(v[kk], b));
    }
}

/// A well-formed list reads the same bytes as any list with the same
/// extents in another order.
pub proof fn lemma_same_extents_same_bytes(v: Seq<Extent>, f: Seq<Extent>, bs: int, disk: Seq<u8>, i: int)
    requires
        extents_wf(v),
        v.to_multiset() == f.to_multiset(),
        bs > 0,
    ensures
        file_byte(v, bs, disk, i) == file_byte(f, bs, disk, i),
{
    broadcast use vstd::seq_lib::to_multiset_contains;

    let b = i / bs;
    if is_mapped(v, b) {
        let k = choose|k: int| 0 <= k < v.len() && covers(#[trigger] v[k], b);
        lemma_mapping_unique(v, k, b);
        assert(v.to_multiset().count(v[k]) > 0) by {
            assert(v.contains(v[k]));
        }
        assert(f.contains(v[k]));
        let j = choose|j: int| 0 <= j < f.len() && f[j] == v[k];
        assert(covers(f[j], b));
        assert(is_mapped(f, b));
        let jj = choose|jj: int| 0 <= jj < f.len() && covers(#[trigger] f[jj], b);
        assert(f.contains(f[jj]));
        assert(f.to_multiset().count(f[jj]) > 0);
        assert(v.contains(f[jj]));
        let kk = choose|kk: int| 0 <= kk < v.len() && v[kk] == f[jj];
        lemma_mapping_unique(v, kk, b);
    } else if is_mapped(f, b) {
        let jj = choose|jj: int| 0 <= jj < f.len() && covers(#[trigger] f[jj], b);
        assert(f.contains(f[jj]));
        assert(f.to_multiset().count(f[jj]) > 0);
        assert(v.contains(f[jj]));
        let kk = choose|kk: int| 0 <= kk < v.len() && v[kk] == f[jj];
        assert(covers(v[kk], b));
    }
}

/// Where logical block `part` lies.
#[derive(Debug)]
pub enum FoundPart {
    /// In the extent with this index.
    Actual(usize),
    /// In a hole of at least this many blocks.
    Sparse(u64),
}

/// How many blocks from `b` on stay unmapped before the first extent of
/// `e` that starts after `b`; `u32::MAX` when none does.
pub open spec fn blocks_to_next(e: Seq<Extent>, b: int) -> int
    decreases e.len(),
{
    if e.len() == 0 {
        u32::MAX as int
    } else if e[0].part > b {
        e[0].part - b
    } else {
        blocks_to_next(e.drop_first(), b)
    }
}

proof fn lemma_blocks_to_next_positive(e: Seq<Extent>, b: int)
    ensures
        blocks_to_next(e, b) >= 1,
    decreases e.len(),
{
    if e.len() > 0 && e[0].part <= b {
        lemma_blocks_to_next_positive(e.drop_first(), b);
    }
}

/// The smaller of `a` and `b`.
pub open spec fn min(a: int, b: int) -> int {
    if a < b {
        a
    } else {
        b
    }
}

/// Look logical block `part` up in a well-formed extent list.
pub fn find_part(part: u64, extents: &Vec<Extent>) -> (r: FoundPart)
    requires
        extents_wf(extents@),
    ensures
        r matches FoundPart::Actual(k) ==> k < extents@.len() && covers(extents@[k as int], part as int),
        r matches FoundPart::Sparse(n) ==> n > 0 && forall|b: int|
            part <= b < part + n ==> !is_mapped(extents@, b),
        r matches FoundPart::Sparse(n) ==> n == blocks_to_next(extents@, part as int),
{
    let mut i: usize = 0;
    assert(extents@.subrange(0, extents@.len() as int) =~= extents@);
    while i < extents.len()
        invariant
            i <= extents@.len(),
            blocks_to_next(extents@, part as int) == blocks_to_next(
                extents@.subrange(i as int, extents@.len() as int),
                part as int,
            ),
            extents_wf(extents@),
            forall|j: int| 0 <= j < i ==> #[trigger] extents@[j].part + extents@[j].len <= part,
        decreases extents@.len() - i,
    {
        let x = extents[i];
        if part < x.part as u64 {
            proof {
                assert forall|b: int| part <= b < part + (x.part - part) implies !is_mapped(extents@, b) by {
                    if is_mapped(extents@, b) {
                        let k = choose|k: int| 0 <= k < extents@.len() && covers(#[trigger] extents@[k], b);
                        if k > i {
                            assert(extents@[i as int].part + extents@[i as int].len <= extents@[k].part);
                        } else if k < i {
                            assert(extents@[k].part + extents@[k].len <= part);
                        }
                    }
                }
            }
            return FoundPart::Sparse(x.part as u64 - part);
        }
        if part < x.part as u64 + x.len as u64 {
            return FoundPart::Actual(i);
        }
        assert(extents@.subrange(i as int, extents@.len() as int).drop_first() =~= extents@.subrange(
            i + 1,
            extents@.len() as int,
        ));
        i += 1;
    }
    proof {
        assert forall|b: int| part <= b < part + u32::MAX implies !is_mapped(extents@, b) by {
            if is_mapped(extents@, b) {
                let k = choose|k: int| 0 <= k < extents@.len() && covers(#[trigger] extents@[k], b);
                assert(extents@[k].part + extents@[k].len <= part);
            }
        }
    }
    assert(extents@.subrange(i as int, extents@.len() as int) =~= Seq::<Extent>::empty());
    FoundPart::Sparse(u32::MAX as u64)
}

/// Relies on `slice::sort_by_key`, which permutes the items into ascending
/// order of the key.
#[verifier::external_body]
fn sort_by_part(v: &mut Vec<Extent>)
    ensures
        final(v)@.to_multiset() == old(v)@.to_multiset(),
        forall|i: int, j: int|
            0 <= i < j < final(v)@.len() ==> #[trigger] final(v)@[i].part <= #[trigger] final(v)@[j].part,
{
    v.sort_by_key(|e| e.part)
}

/// The magic number at the start of every extent-tree node.
pub open spec fn has_extent_magic(d: Seq<u8>) -> bool {
    d.len() >= 2 && d[0] == 0x0a && d[1] == 0xf3
}

/// The checksum an extent-tree block must carry in its last four bytes.
pub open spec fn extent_block_checksum_ok(d: Seq<u8>, prefix: u32) -> bool {
    le32(d, d.len() - 4) == ext4_crc32c(prefix, d.subrange(0, d.len() - 4))
}

/// Leaf record `i` of the extent-tree node `d`.
pub open spec fn leaf_at(d: Seq<u8>, i: int) -> Extent {
    let at = 12 + 12 * i;
    Extent {
        part: le32(d, at),
        len: le16(d, at + 4),
        start: (le32(d, at + 8) as int + le16(d, at + 6) as int * 0x1_0000_0000) as u64,
    }
}

/// The header of node `d` is sound for a node at depth `depth`: magic,
/// depth, checksum when the node is a block of its own, and room for its
/// entries.
pub open spec fn node_ok(d: Seq<u8>, depth: u16, prefix: Option<u32>, first_level: bool) -> bool {
    &&& has_extent_magic(d)
    &&& d.len() >= 12
    &&& le16(d, 6) == depth
    &&& !first_level ==> (prefix matches Some(p) ==> extent_block_checksum_ok(d, p))
    &&& le16(d, 2) as int * 12 + 12 <= d.len()
}

/// The block that index record `i` of node `d` points at, when the disk
/// holds it.
pub open spec fn child_block(disk: Seq<u8>, bs: u32, d: Seq<u8>, i: int) -> Option<Seq<u8>> {
    let leaf = le32(d, 12 + 12 * i + 4) as int + le16(d, 12 + 12 * i + 8) as int * 0x1_0000_0000;
    if leaf * bs <= u64::MAX && leaf * bs + bs <= disk.len() {
        Some(disk.subrange(leaf * bs, leaf * bs + bs))
    } else {
        None
    }
}

/// The leaf extents under node `d`, in tree order; `None` where the tree
/// is refused.
pub open spec fn node_extents(
    disk: Seq<u8>,
    bs: u32,
    d: Seq<u8>,
    depth: u16,
    prefix: Option<u32>,
    first_level: bool,
) -> Option<Seq<Extent>>
    decreases depth, 0x2_0000int,
{
    if !node_ok(d, depth, prefix, first_level) {
        None
    } else if depth == 0 {
        Some(Seq::new(le16(d, 2) as nat, |i: int| leaf_at(d, i)))
    } else {
        children_extents(disk, bs, d, depth, prefix, le16(d, 2) as int)
    }
}

/// The leaf extents under the first `n` children of node `d`.
pub open spec fn children_extents(
    disk: Seq<u8>,
    bs: u32,
    d: Seq<u8>,
    depth: u16,
    prefix: Option<u32>,
    n: int,
) -> Option<Seq<Extent>>
    decreases depth, n,
{
    if n <= 0 || depth == 0 || n >= 0x2_0000 {
        if n <= 0 { Some(seq![]) } else { None }
    } else {
        match children_extents(disk, bs, d, depth, prefix, n - 1) {
            Some(a) => match child_block(disk, bs, d, n - 1) {
                Some(c) => match node_extents(disk, bs, c, (depth - 1) as u16, prefix, false) {
                    Some(b) => Some(a + b),
                    None => None,
                },
                None => None,
            },
            None => None,
        }
    }
}

/// Once the first `k` children are refused, so are the first `m`.
proof fn lemma_children_refused(
    disk: Seq<u8>,
    bs: u32,
    d: Seq<u8>,
    depth: u16,
    prefix: Option<u32>,
    k: int,
    m: int,
)
    requires
        0 < k <= m < 0x2_0000,
        depth > 0,
        children_extents(disk, bs, d, depth, prefix, k) is None,
    ensures
        children_extents(disk, bs, d, depth, prefix, m) is None,
    decreases m - k,
{
    if m > k {
        lemma_children_refused(disk, bs, d, depth, prefix, k, m - 1);
    }
}

/// Append the leaf extents of the node `data`, which must sit at depth
/// `expected_depth`, loading its children from `source`. On an error
/// `extents` is left as it was.
pub fn add_found_extents<R: ReadAt>(
    source: &R,
    block_size: u32,
    data: &[u8],
    expected_depth: u16,
    extents: &mut Vec<Extent>,
    checksum_prefix: Option<u32>,
    first_level: bool,
) -> (r: Result<(), Error>)
    requires
        block_size > 0,
    ensures
        r is Ok ==> (node_extents(source.contents(), block_size, data@, expected_depth, checksum_prefix, first_level)
            matches Some(found) && final(extents)@ == old(extents)@ + found),
        node_extents(source.contents(), block_size, data@, expected_depth, checksum_prefix, first_level)
            is None ==> r is Err,
        r matches Err(e) ==> e.is_assumption_failed() || e.is_io(),
        !has_extent_magic(data@) ==> fails_assumption(r),
        has_extent_magic(data@) && data@.len() >= 12 && le16(data@, 6) != expected_depth ==> fails_assumption(r),
        !first_level && data@.len() >= 12 && has_extent_magic(data@) && le16(data@, 6) == expected_depth
            ==> (checksum_prefix matches Some(p) && !extent_block_checksum_ok(data@, p) ==> fails_assumption(r)),
        r matches Err(e) && !e.is_io() ==> node_extents(source.contents(), block_size, data@, expected_depth,
            checksum_prefix, first_level) is None,
        node_ok(data@, expected_depth, checksum_prefix, first_level) && expected_depth == 0 ==> r is Ok,
        r is Err ==> final(extents)@ == old(extents)@,
{
    let before = extents.len();
    let r = collect_extents(source, block_size, data, expected_depth, extents, checksum_prefix, first_level);
    if r.is_err() {
        extents.truncate(before);
        assert(extents@ =~= old(extents)@);
    }
    r
}

fn collect_extents<R: ReadAt>(
    source: &R,
    block_size: u32,
    data: &[u8],
    expected_depth: u16,
    extents: &mut Vec<Extent>,
    checksum_prefix: Option<u32>,
    first_level: bool,
) -> (r: Result<(), Error>)
    requires
        block_size > 0,
    ensures
        r is Ok ==> (node_extents(source.contents(), block_size, data@, expected_depth, checksum_prefix, first_level)
            matches Some(found) && final(extents)@ == old(extents)@ + found),
        node_extents(source.contents(), block_size, data@, expected_depth, checksum_prefix, first_level)
            is None ==> r is Err,
        r matches Err(e) ==> e.is_assumption_failed() || e.is_io(),
        !has_extent_magic(data@) ==> fails_assumption(r),
        has_extent_magic(data@) && data@.len() >= 12 && le16(data@, 6) != expected_depth ==> fails_assumption(r),
        !first_level && data@.len() >= 12 && has_extent_magic(data@) && le16(data@, 6) == expected_depth
            ==> (checksum_prefix matches Some(p) && !extent_block_checksum_ok(data@, p) ==> fails_assumption(r)),
        r matches Err(e) && !e.is_io() ==> node_extents(source.contents(), block_size, data@, expected_depth,
            checksum_prefix, first_level) is None,
        node_ok(data@, expected_depth, checksum_prefix, first_level) && expected_depth == 0 ==> r is Ok,
        final(extents)@.len() >= old(extents)@.len(),
        final(extents)@.subrange(0, old(extents)@.len() as int) == old(extents)@,
    decreases expected_depth,
{
    if data.len() < 2 || data[0] != 0x0a || data[1] != 0xf3 {
        return Err(assumption_failed("invalid extent magic"));
    }
    if data.len() < 12 {
        return Err(assumption_failed("extent node is too short"));
    }
    let extent_entries = read_le16(data, 2);
    let depth = read_le16(data, 6);
    if expected_depth != depth {
        return Err(assumption_failed("extent tree depth incorrect"));
    }
    if !first_level {
        if let Some(p) = checksum_prefix {
            let end_of_entries = data.len() - 4;
            let on_disc = read_le32(data, end_of_entries);
            let computed = ext4_style_crc32c_le(p, &data[0..end_of_entries]);
            assert(data@.subrange(0, end_of_entries as int) == data@.subrange(0, data@.len() - 4));
            if computed != on_disc {
                return Err(assumption_failed("extent checksum mismatch"));
            }
        }
    }
    if (data.len() - 12) / 12 < extent_entries as usize {
        return Err(assumption_failed("extent entries overflow their node"));
    }
    let mut en: usize = 0;
    while en < extent_entries as usize
        invariant
            extent_entries as usize * 12 + 12 <= data@.len(),
            en <= extent_entries,
            has_extent_magic(data@),
            data@.len() >= 12,
            depth == le16(data@, 6),
            depth == expected_depth,
            !first_level ==> (checksum_prefix matches Some(p) ==> extent_block_checksum_ok(data@, p)),
            block_size > 0,
            extent_entries == le16(data@, 2),
            node_ok(data@, expected_depth, checksum_prefix, first_level),
            depth == 0 ==> extents@ == old(extents)@ + Seq::new(en as nat, |i: int| leaf_at(data@, i)),
            depth > 0 ==> (children_extents(source.contents(), block_size, data@, depth, checksum_prefix, en as int)
                matches Some(a) && extents@ == old(extents)@ + a),
        decreases extent_entries - en,
    {
        let at = 12 + en * 12;
        if depth == 0 {
            let ee_block = read_le32(data, at);
            let ee_len = read_le16(data, at + 4);
            let ee_start_hi = read_le16(data, at + 6);
            let ee_start_lo = read_le32(data, at + 8);
            let ee_start = ee_start_lo as u64 + (ee_start_hi as u64) * 0x1_0000_0000;
            let ghost before = extents@;
            extents.push(Extent { part: ee_block, start: ee_start, len: ee_len });
            assert(Seq::new((en + 1) as nat, |i: int| leaf_at(data@, i)) =~= Seq::new(en as nat, |i: int| leaf_at(data@, i)).push(leaf_at(data@, en as int)));
        } else {
            let ei_leaf_lo = read_le32(data, at + 4);
            let ei_leaf_hi = read_le16(data, at + 8);
            let leaf = ei_leaf_lo as u64 + (ei_leaf_hi as u64) * 0x1_0000_0000;
            let ghost before = extents@;
            let child = match load_disc_bytes(source, block_size, leaf) {
                Ok(c) => c,
                Err(e) => {
                    proof {
                        if !e.is_io() {
                            assert(child_block(source.contents(), block_size, data@, en as int) is None);
                            lemma_children_refused(source.contents(), block_size, data@, depth, checksum_prefix,
                                en + 1, extent_entries as int);
                        }
                    }
                    return Err(e);
                },
            };
            assert(child_block(source.contents(), block_size, data@, en as int) == Some(child@));
            match collect_extents(source, block_size, &child, depth - 1, extents, checksum_prefix, false) {
                Ok(()) => {},
                Err(e) => {
                    proof {
                        if !e.is_io() {
                            lemma_children_refused(source.contents(), block_size, data@, depth, checksum_prefix,
                                en + 1, extent_entries as int);
                        }
                    }
                    return Err(e);
                },
            }
            assert(extents@ =~= old(extents)@ + children_extents(source.contents(), block_size, data@, depth, checksum_prefix, en + 1).unwrap());
        }
        en += 1;
    }
    proof {
        if depth == 0 {
            assert(extents@ =~= old(extents)@ + Seq::new(extent_entries as nat, |i: int| leaf_at(data@, i)));
        }
    }
    Ok(())
}

/// `v` is in ascending order of `part`.
pub open spec fn sorted_by_part(v: Seq<Extent>) -> bool {
    forall|i: int, j: int| 0 <= i < j < v.len() ==> #[trigger] v[i].part <= #[trigger] v[j].part
}

/// The extent tree rooted at `core` is refused: a bad root, a root deeper
/// than five levels, a refused node below it, or leaves that overlap once
/// sorted by `part`.
pub open spec fn tree_refused(disk: Seq<u8>, bs: u32, core: Seq<u8>, prefix: Option<u32>) -> bool {
    ||| !has_extent_magic(core)
    ||| core.len() >= 8 && le16(core, 6) > 5
    ||| node_extents(disk, bs, core, le16(core, 6), prefix, true) is None
    ||| exists|v: Seq<Extent>|
        v.to_multiset() == node_extents(disk, bs, core, le16(core, 6), prefix, true).unwrap().to_multiset()
            && sorted_by_part(v) && !extents_wf(v)
}

/// The sorted extent list of the tree whose root is `core`.
pub fn load_extent_tree<R: ReadAt>(
    source: &R,
    block_size: u32,
    core: &[u8; INODE_CORE_SIZE],
    checksum_prefix: Option<u32>,
) -> (r: Result<Vec<Extent>, Error>)
    requires
        block_size > 0,
    ensures
        r matches Ok(v) ==> extents_wf(v@),
        r matches Ok(v) ==> (node_extents(source.contents(), block_size, core@, le16(core@, 6), checksum_prefix, true)
            matches Some(found) && v@.to_multiset() == found.to_multiset()),
        node_extents(source.contents(), block_size, core@, le16(core@, 6), checksum_prefix, true) is None ==> r is Err,
        r matches Err(e) ==> e.is_assumption_failed() || e.is_io(),
        r matches Err(e) && !e.is_io() ==> tree_refused(source.contents(), block_size, core@, checksum_prefix),
        !tree_refused(source.contents(), block_size, core@, checksum_prefix) && le16(core@, 6) == 0 ==> r is Ok,
        !has_extent_magic(core@) ==> fails_assumption(r),
        has_extent_magic(core@) && le16(core@, 6) > 5 ==> fails_assumption(r),
{
    let data = core.as_slice();
    if data[0] != 0x0a || data[1] != 0xf3 {
        return Err(assumption_failed("invalid extent magic"));
    }
    let depth = read_le16(data, 6);
    if depth > 5 {
        return Err(assumption_failed("initial extent depth too high"));
    }
    let mut extents: Vec<Extent> = Vec::new();
    add_found_extents(source, block_size, data, depth, &mut extents, checksum_prefix, true)?;
    assert(extents@ =~= node_extents(source.contents(), block_size, core@, depth, checksum_prefix, true).unwrap());
    let ghost found = extents@;
    sort_by_part(&mut extents);
    let mut i: usize = 1;
    while i < extents.len()
        invariant
            1 <= i,
            i <= extents@.len() || extents@.len() == 0,
            extents@.to_multiset() == found.to_multiset(),
            node_extents(source.contents(), block_size, core@, le16(core@, 6), checksum_prefix, true) == Some(found),
            forall|a: int, b: int|
                0 <= a < b < extents@.len() ==> #[trigger] extents@[a].part <= #[trigger] extents@[b].part,
            extents_wf(extents@.subrange(0, i as int)) || extents@.len() == 0,
        decreases extents@.len() - i,
    {
        let prev = extents[i - 1];
        if prev.part as u64 + prev.len as u64 > extents[i].part as u64 {
            assert(!extents_wf(extents@));
            assert(sorted_by_part(extents@));
            return Err(assumption_failed("extents overlap"));
        }
        proof {
            let s = extents@.subrange(0, i + 1);
            assert forall|a: int, b: int| 0 <= a < b < s.len() implies #[trigger] s[a].part + s[a].len <= #[trigger] s[b].part by {
                if b == i {
                    if a < i - 1 {
                        assert(extents@.subrange(0, i as int)[a].part + extents@.subrange(0, i as int)[a].len
                            <= extents@.subrange(0, i as int)[i - 1].part);
                    }
                } else {
                    assert(extents@.subrange(0, i as int)[a].part + extents@.subrange(0, i as int)[a].len
                        <= extents@.subrange(0, i as int)[b].part);
                }
            }
        }
        i += 1;
    }
    proof {
        if extents@.len() > 0 {
            assert(extents@.subrange(0, extents@.len() as int) =~= extents@);
        }
    }
    Ok(extents)
}

/// Where a seek goes.
#[derive(Debug)]
pub enum SeekFrom {
    /// To this many bytes from the start.
    Start(u64),
    /// To the end plus this many bytes.
    End(i64),
    /// To the current position plus this many bytes.
    Current(i64),
}

/// Reads the logical bytes of one file, through its extent list.
#[derive(Debug)]
pub struct TreeReader<R> {
    pub inner: R,
    pub pos: u64,
    pub len: u64,
    pub block_size: u32,
    pub extents: Vec<Extent>,
}

impl<R: ReadAt> TreeReader<R> {
    pub open spec fn wf(&self) -> bool {
        &&& self.block_size > 0
        &&& extents_wf(self.extents@)
        &&& self.pos <= self.len
    }

    /// Byte `i` of the file.
    pub open spec fn byte(&self, i: int) -> u8 {
        file_byte(self.extents@, self.block_size as int, self.inner.contents(), i)
    }

    /// Open the file of `size` bytes whose extent-tree root is `core`.
    pub fn new(
        inner: R,
        block_size: u32,
        size: u64,
        core: [u8; INODE_CORE_SIZE],
        checksum_prefix: Option<u32>,
    ) -> (r: Result<TreeReader<R>, Error>)
        requires
            block_size > 0,
        ensures
            r matches Ok(t) ==> t.wf() && t.pos == 0 && t.len == size && t.block_size == block_size
                && t.inner == inner,
            r matches Ok(t) ==> (node_extents(inner.contents(), block_size, core@, le16(core@, 6), checksum_prefix, true)
                matches Some(found) && t.extents@.to_multiset() == found.to_multiset()),
            r matches Err(e) ==> e.is_assumption_failed() || e.is_io(),
            r matches Err(e) && !e.is_io() ==> tree_refused(inner.contents(), block_size, core@, checksum_prefix),
            !tree_refused(inner.contents(), block_size, core@, checksum_prefix) && le16(core@, 6) == 0 ==> r is Ok,
            !has_extent_magic(core@) ==> fails_assumption(r),
    {
        let extents = load_extent_tree(&inner, block_size, &core, checksum_prefix)?;
        Ok(TreeReader::create(inner, block_size, size, extents))
    }

    /// A reader at the start of a file of `size` bytes laid out by `extents`.
    pub fn create(inner: R, block_size: u32, size: u64, extents: Vec<Extent>) -> (r: TreeReader<R>)
        requires
            block_size > 0,
            extents_wf(extents@),
        ensures
            r.wf(),
            r.pos == 0,
            r.len == size,
            r.block_size == block_size,
            r.extents == extents,
            r.inner == inner,
    {
        TreeReader { inner, pos: 0, len: size, block_size, extents }
    }

    pub fn into_inner(self) -> (r: R)
        ensures
            r == self.inner,
    {
        self.inner
    }

    /// Read at most `max` bytes from the current position, and move past them.
    pub fn read(&mut self, max: usize) -> (r: Result<Vec<u8>, Error>)
        requires
            old(self).wf(),
        ensures
            final(self).wf(),
            final(self).inner == old(self).inner,
            final(self).extents == old(self).extents,
            final(self).len == old(self).len,
            final(self).block_size == old(self).block_size,
            r matches Ok(v) ==> {
                &&& v@.len() <= max
                &&& final(self).pos == old(self).pos + v@.len()
                &&& forall|k: int| 0 <= k < v@.len() ==> v@[k] == old(self).byte(old(self).pos + k)
            },
            r is Err ==> final(self).pos == old(self).pos,
            r matches Err(e) ==> e.is_assumption_failed() || e.is_io(),
            old(self).pos == old(self).len || max == 0 ==> (r matches Ok(v) && v@.len() == 0),
            ({
                let bs = old(self).block_size as int;
                let p = old(self).pos as int;
                let b = p / bs;
                old(self).pos < old(self).len && max > 0 && !is_mapped(old(self).extents@, b) ==> (r matches Ok(v)
                    && v@.len() == min(
                    min(max as int, old(self).len - old(self).pos),
                    blocks_to_next(old(self).extents@, b) * bs - p % bs,
                ))
            }),
            ({
                let bs = old(self).block_size as int;
                let p = old(self).pos as int;
                let x = mapping(old(self).extents@, p / bs);
                let through = p - x.part * bs;
                let physical = x.start * bs + through;
                old(self).pos < old(self).len && max > 0 && is_mapped(old(self).extents@, p / bs) ==> {
                    &&& (r matches Ok(v) ==> v@.len() <= min(min(max as int, old(self).len - old(self).pos), x.len * bs - through))
                    &&& (r matches Ok(v) ==> (v@.len() == 0 ==> physical >= old(self).inner.contents().len()))
                    &&& (r matches Err(e) ==> (!e.is_io() ==> physical > u64::MAX))
                }
            }),
            r matches Err(e) ==> (!e.is_io() ==> read_overflows(old(self).extents@, old(self).block_size as int, old(self).pos as int)),
    {
        let ghost e = self.extents@;
        if max == 0 || self.pos == self.len {
            return Ok(Vec::new());
        }
        let block_size = self.block_size as u64;
        let wanted_block = self.pos / block_size;
        let within = self.pos % block_size;
        let left = self.len - self.pos;
        match find_part(wanted_block, &self.extents) {
            FoundPart::Actual(ki) => {
                let x = self.extents[ki];
                proof {
                    lemma_mapping_unique(e, ki as int, wanted_block as int);
                    let (b, p, w, bs) = (wanted_block as int, self.pos as int, within as int, block_size as int);
                    assert(p == b * bs + w) by (nonlinear_arith) requires b == p / bs, w == p % bs, bs > 0;
                    assert((b - x.part) * bs + w < x.len * bs) by (nonlinear_arith)
                        requires b < x.part + x.len, w < bs, bs > 0;
                    assert((b - x.part) * bs + w >= 0) by (nonlinear_arith) requires b >= x.part, w >= 0, bs > 0;
                    assert((b - x.part) * bs <= 0xFFFF_FFFF * 0xFFFF_FFFF) by (nonlinear_arith)
                        requires 0 <= b - x.part < 0x1_0000, 0 < bs <= 0xFFFF_FFFF;
                    assert(x.len * bs <= 0xFFFF * 0xFFFF_FFFF) by (nonlinear_arith)
                        requires 0 <= x.len <= 0xFFFF, 0 < bs <= 0xFFFF_FFFF;
                }
                let bytes_through_extent = (wanted_block - x.part as u64) * block_size + within;
                let remaining = x.len as u64 * block_size - bytes_through_extent;
                proof {
                    let (t, p, b, w, bs) = (bytes_through_extent as int, self.pos as int, wanted_block as int, within as int, block_size as int);
                    assert(t == p - x.part * bs) by (nonlinear_arith)
                        requires
                            t == (b - x.part) * bs + w,
                            p == b * bs + w;
                }
                let mut to_read = if remaining < max as u64 { remaining } else { max as u64 };
                if left < to_read {
                    to_read = left;
                }
                let base = match x.start.checked_mul(block_size) {
                    Some(b) => b,
                    None => return Err(assumption_failed("extent lies beyond the addressable range")),
                };
                let offset = match base.checked_add(bytes_through_extent) {
                    Some(o) => o,
                    None => return Err(assumption_failed("extent lies beyond the addressable range")),
                };
                let got = match self.inner.read_at(offset, to_read as usize) {
                    Ok(v) => v,
                    Err(err) => return Err(Error::Io(err)),
                };
                proof {
                    assert forall|k: int| 0 <= k < got@.len() implies got@[k] == self.byte(self.pos + k) by {
                        let i = self.pos + k;
                        let bs = block_size as int;
                        assert(x.part * bs <= i < (x.part + x.len) * bs) by (nonlinear_arith)
                            requires
                                i == self.pos + k,
                                self.pos == wanted_block * bs + within,
                                (wanted_block - x.part) * bs + within + k < x.len * bs,
                                wanted_block >= x.part,
                                within >= 0,
                                k >= 0;
                        lemma_block_between(i, bs, x.part as int, x.part + x.len);
                        lemma_mapping_unique(e, ki as int, i / bs);
                        assert(offset + k == x.start * bs + i - x.part * bs) by (nonlinear_arith)
                            requires
                                i == self.pos + k,
                                self.pos == wanted_block * bs + within,
                                offset == x.start * bs + (wanted_block - x.part) * bs + within;
                        assert(got@[k] == self.inner.contents()[offset + k]);
                    }
                }
                self.pos = self.pos + got.len() as u64;
                Ok(got)
            },
            FoundPart::Sparse(n) => {
                proof {
                    let (b, p, w, bs) = (wanted_block as int, self.pos as int, within as int, block_size as int);
                    assert(p == b * bs + w) by (nonlinear_arith) requires b == p / bs, w == p % bs, bs > 0;
                    assert(n as int * block_size as int <= 0xFFFF_FFFF_FFFF_FFFF * 0xFFFF_FFFF) by (nonlinear_arith)
                        requires n <= 0xFFFF_FFFF_FFFF_FFFF, block_size <= 0xFFFF_FFFF;
                    assert(n as int * block_size as int >= block_size) by (nonlinear_arith)
                        requires n >= 1, block_size > 0;
                }
                let hole: u128 = n as u128 * block_size as u128 - within as u128;
                let mut to_read: u64 = if hole < max as u128 { hole as u64 } else { max as u64 };
                if left < to_read {
                    to_read = left;
                }
                let mut out: Vec<u8> = Vec::new();
                let mut i: u64 = 0;
                while i < to_read
                    invariant
                        out@.len() == i,
                        i <= to_read,
                        forall|k: int| 0 <= k < i ==> out@[k] == 0,
                    decreases to_read - i,
                {
                    out.push(0);
                    i += 1;
                }
                proof {
                    assert forall|k: int| 0 <= k < out@.len() implies out@[k] == self.byte(self.pos + k) by {
                        let i = self.pos + k;
                        let bs = block_size as int;
                        assert(wanted_block * bs <= i < (wanted_block + n) * bs) by (nonlinear_arith)
                            requires
                                i == self.pos + k,
                                self.pos == wanted_block * bs + within,
                                0 <= within < bs,
                                0 <= k < to_read,
                                to_read <= n * bs - within;
                        lemma_block_between(i, bs, wanted_block as int, wanted_block + n);
                    }
                }
                self.pos = self.pos + to_read;
                Ok(out)
            },
        }
    }

    /// Read from the current position to the end of the file.
    pub fn read_to_end(&mut self) -> (r: Result<Vec<u8>, Error>)
        requires
            old(self).wf(),
        ensures
            final(self).wf(),
            final(self).inner == old(self).inner,
            final(self).extents == old(self).extents,
            final(self).len == old(self).len,
            final(self).block_size == old(self).block_size,
            r matches Ok(v) ==> {
                &&& v@.len() == old(self).len - old(self).pos
                &&& final(self).pos == old(self).len
                &&& forall|k: int| 0 <= k < v@.len() ==> v@[k] == old(self).byte(old(self).pos + k)
            },
            r matches Err(e) ==> e.is_assumption_failed() || e.is_io(),
            old(self).pos == old(self).len ==> (r matches Ok(v) && v@.len() == 0),
            r matches Err(e) ==> (!e.is_io() ==> exists|i: int| old(self).pos <= i < old(self).len
                && read_overflows(old(self).extents@, old(self).block_size as int, i)),
            (forall|i: int| old(self).pos <= i < old(self).len ==> !is_mapped(old(self).extents@, #[trigger] (i / old(self).block_size as int)))
                ==> r is Ok,
    {
        let ghost start = self.pos;
        let mut out: Vec<u8> = Vec::new();
        while self.pos < self.len
            invariant
                self.wf(),
                self.inner == old(self).inner,
                self.extents == old(self).extents,
                self.len == old(self).len,
                self.block_size == old(self).block_size,
                start == old(self).pos,
                start <= self.pos,
                out@.len() == self.pos - start,
                (forall|i: int| old(self).pos <= i < old(self).len ==> !is_mapped(old(self).extents@, #[trigger] (i / old(self).block_size as int)))
                    ==> forall|i: int| self.pos <= i < self.len ==> !is_mapped(self.extents@, #[trigger] (i / self.block_size as int)),
                forall|k: int| 0 <= k < out@.len() ==> out@[k] == old(self).byte(start + k),
            decreases self.len - self.pos,
        {
            let want = self.len - self.pos;
            let max: usize = if want > 0x100_0000 { 0x100_0000 } else { want as usize };
            let ghost before = out@;
            let ghost here = self.pos;
            proof {
                let bs = self.block_size as int;
                let p = self.pos as int;
                lemma_blocks_to_next_positive(self.extents@, p / bs);
                assert(blocks_to_next(self.extents@, p / bs) * bs - p % bs >= 1) by (nonlinear_arith)
                    requires blocks_to_next(self.extents@, p / bs) >= 1, bs > 0, 0 <= p % bs < bs;
            }
            let mut chunk = self.read(max)?;
            if chunk.len() == 0 {
                return Err(unexpected_eof());
            }
            let ghost got = chunk@;
            out.append(&mut chunk);
            assert forall|k: int| 0 <= k < out@.len() implies out@[k] == old(self).byte(start + k) by {
                if k >= before.len() {
                    assert(out@[k] == got[k - before.len()]);
                } else {
                    assert(out@[k] == before[k]);
                }
            }
        }
        Ok(out)
    }

    /// Move the position; a target before the start or past the end is refused.
    pub fn seek(&mut self, to: SeekFrom) -> (r: Result<u64, Error>)
        requires
            old(self).wf(),
        ensures
            final(self).wf(),
            final(self).inner == old(self).inner,
            final(self).extents == old(self).extents,
            final(self).len == old(self).len,
            final(self).block_size == old(self).block_size,
            ({
                let target = match to {
                    SeekFrom::Start(n) => n as int,
                    SeekFrom::End(d) => old(self).len + d,
                    SeekFrom::Current(d) => old(self).pos + d,
                };
                &&& (0 <= target <= old(self).len) ==> r == Ok::<u64, Error>(target as u64) && final(self).pos == target
                &&& !(0 <= target <= old(self).len) ==> r is Err && final(self).pos == old(self).pos
            }),
    {
        let target: i128 = match to {
            SeekFrom::Start(n) => n as i128,
            SeekFrom::End(d) => self.len as i128 + d as i128,
            SeekFrom::Current(d) => self.pos as i128 + d as i128,
        };
        if target < 0 || target > self.len as i128 {
            return Err(Error::Io(IoError { kind: IoErrorKind::Other, message: "seek out of range".to_owned() }));
        }
        self.pos = target as u64;
        Ok(self.pos)
    }
}

} // verus!
