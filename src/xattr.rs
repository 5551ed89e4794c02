//! Extended attributes: the entry stream, the inline table of an inode, and
//! the external attribute block.
use vstd::prelude::*;
use vstd::utf8::{decode_utf8, valid_utf8};

use crate::bytes::{copy_range, le16, le32, read_le16, read_le32};
use crate::crc::{ext4_crc32c, ext4_style_crc32c_le};
use crate::error::{assumption_failed, fails_assumption, unsupported_feature, Error, ErrorKind};
use crate::text::utf8_string;
use crate::types::Xattr;

verus! {

/// Magic number that opens an attribute table.
pub const XATTR_MAGIC: u32 = 0xEA02_0000;

/// No two attributes share a name.
pub open spec fn names_unique(v: Seq<Xattr>) -> bool {
    forall|i: int, j: int|
        0 <= i < j < v.len() ==> (#[trigger] v[i]).name@ != (#[trigger] v[j]).name@
}

/// `v` holds an attribute `name` with value `value`.
pub open spec fn has_xattr(v: Seq<Xattr>, name: Seq<char>, value: Seq<u8>) -> bool {
    exists|i: int| 0 <= i < v.len() && (#[trigger] v[i]).name@ == name && v[i].value@ == value
}

/// The attributes of `v` as a map from name to value.
pub open spec fn xattr_model(v: Seq<Xattr>) -> Map<Seq<char>, Seq<u8>> {
    Map::new(
        |n: Seq<char>| exists|i: int| 0 <= i < v.len() && (#[trigger] v[i]).name@ == n,
        |n: Seq<char>| v[choose|i: int| 0 <= i < v.len() && (#[trigger] v[i]).name@ == n].value@,
    )
}

/// `m` after setting each (name, value) pair of `list` in turn.
pub open spec fn apply_xattrs(
    m: Map<Seq<char>, Seq<u8>>,
    list: Seq<(Seq<char>, Seq<u8>)>,
) -> Map<Seq<char>, Seq<u8>>
    decreases list.len(),
{
    if list.len() == 0 {
        m
    } else {
        apply_xattrs(m, list.drop_last()).insert(list.last().0, list.last().1)
    }
}

/// Set attribute `name` to `value`, replacing any earlier value of it.
pub fn insert_xattr(xattrs: &mut Vec<Xattr>, name: String, value: Vec<u8>)
    requires
        names_unique(old(xattrs)@),
    ensures
        names_unique(final(xattrs)@),
        has_xattr(final(xattrs)@, name@, value@),
        final(xattrs)@.len() >= old(xattrs)@.len(),
        forall|i: int|
            0 <= i < old(xattrs)@.len() && (#[trigger] old(xattrs)@[i]).name@ != name@
                ==> final(xattrs)@[i] == old(xattrs)@[i],
        xattr_model(final(xattrs)@) == xattr_model(old(xattrs)@).insert(name@, value@),
{
    let mut i: usize = 0;
    while i < xattrs.len()
        invariant
            i <= xattrs@.len(),
            xattrs@ == old(xattrs)@,
            names_unique(xattrs@),
            forall|k: int| 0 <= k < i ==> (#[trigger] xattrs@[k]).name@ != name@,
        decreases xattrs@.len() - i,
    {
        if xattrs[i].name == name {
            let ghost before = xattrs@;
            let ghost (nv, vv) = (name@, value@);
            xattrs.set(i, Xattr { name, value });
            assert(xattrs@[i as int].name@ == before[i as int].name@);
            proof {
                lemma_model_after_update(before, xattrs@, i as int, nv, vv);
            }
            return;
        }
        i += 1;
    }
    let ghost before = xattrs@;
    let ghost (nv, vv) = (name@, value@);
    xattrs.push(Xattr { name, value });
    assert(xattrs@[xattrs@.len() - 1].name@ == nv);
    proof {
        lemma_model_after_push(before, xattrs@, nv, vv);
    }
}

proof fn lemma_model_after_update(before: Seq<Xattr>, after: Seq<Xattr>, i: int, n: Seq<char>, val: Seq<u8>)
    requires
        names_unique(before),
        names_unique(after),
        0 <= i < before.len(),
        after.len() == before.len(),
        before[i].name@ == n,
        after[i].name@ == n,
        after[i].value@ == val,
        forall|j: int| 0 <= j < before.len() && j != i ==> #[trigger] after[j] == before[j],
    ensures
        xattr_model(after) == xattr_model(before).insert(n, val),
{
    let ma = xattr_model(after);
    let mb = xattr_model(before).insert(n, val);
    assert forall|k: Seq<char>| #[trigger] ma.contains_key(k) <==> mb.contains_key(k) by {
        if ma.contains_key(k) {
            let j = choose|j: int| 0 <= j < after.len() && (#[trigger] after[j]).name@ == k;
            if j != i {
                assert(before[j].name@ == k);
            }
        }
        if mb.contains_key(k) && k != n {
            let j = choose|j: int| 0 <= j < before.len() && (#[trigger] before[j]).name@ == k;
            assert(after[j].name@ == k);
        }
        if k == n {
            assert(after[i].name@ == k);
        }
    }
    assert forall|k: Seq<char>| ma.contains_key(k) implies #[trigger] ma[k] == mb[k] by {
        let j = choose|j: int| 0 <= j < after.len() && (#[trigger] after[j]).name@ == k;
        if k == n {
            assert(j == i);
        } else {
            let jb = choose|j: int| 0 <= j < before.len() && (#[trigger] before[j]).name@ == k;
            assert(after[jb].name@ == k);
            assert(j == jb);
        }
    }
    assert(ma =~= mb);
}

proof fn lemma_model_after_push(before: Seq<Xattr>, after: Seq<Xattr>, n: Seq<char>, val: Seq<u8>)
    requires
        names_unique(before),
        names_unique(after),
        after.len() == before.len() + 1,
        forall|j: int| 0 <= j < before.len() ==> #[trigger] after[j] == before[j],
        forall|j: int| 0 <= j < before.len() ==> (#[trigger] before[j]).name@ != n,
        after[before.len() as int].name@ == n,
        after[before.len() as int].value@ == val,
    ensures
        xattr_model(after) == xattr_model(before).insert(n, val),
{
    let ma = xattr_model(after);
    let mb = xattr_model(before).insert(n, val);
    let last = before.len() as int;
    assert forall|k: Seq<char>| #[trigger] ma.contains_key(k) <==> mb.contains_key(k) by {
        if ma.contains_key(k) && k != n {
            let j = choose|j: int| 0 <= j < after.len() && (#[trigger] after[j]).name@ == k;
            assert(j != last);
            assert(before[j].name@ == k);
        }
        if mb.contains_key(k) && k != n {
            let j = choose|j: int| 0 <= j < before.len() && (#[trigger] before[j]).name@ == k;
            assert(after[j].name@ == k);
        }
        if k == n {
            assert(after[last].name@ == k);
        }
    }
    assert forall|k: Seq<char>| ma.contains_key(k) implies #[trigger] ma[k] == mb[k] by {
        let j = choose|j: int| 0 <= j < after.len() && (#[trigger] after[j]).name@ == k;
        if k == n {
            assert(after[last].name@ == k);
            assert(j == last);
        } else {
            let jb = choose|j: int| 0 <= j < before.len() && (#[trigger] before[j]).name@ == k;
            assert(after[jb].name@ == k);
            assert(j == jb);
        }
    }
    assert(ma =~= mb);
}

/// The name prefix that an entry's prefix index stands for.
pub open spec fn prefix_known(index: u8) -> bool {
    index == 0 || index == 1 || index == 2 || index == 3 || index == 4 || index == 6 || index == 7
}

/// The characters that prefix index `index` stands for.
pub open spec fn prefix_chars(index: u8) -> Seq<char> {
    if index == 1 {
        "user."@
    } else if index == 2 {
        "system.posix_acl_access"@
    } else if index == 3 {
        "system.posix_acl_default"@
    } else if index == 4 {
        "trusted."@
    } else if index == 6 {
        "security."@
    } else if index == 7 {
        "system."@
    } else {
        ""@
    }
}

/// The (name, value) pairs of the entry stream of `base` from `pos` on, in
/// order; where the stream is refused, the kind of error that refuses it.
pub open spec fn xattr_entries(base: Seq<u8>, pos: int) -> Result<Seq<(Seq<char>, Seq<u8>)>, ErrorKind>
    decreases base.len() - pos,
{
    if pos < 0 || base.len() - pos <= 0x10 {
        Err(ErrorKind::AssumptionFailed)
    } else {
        let name_len = base[pos + 0] as int;
        let index = base[pos + 1];
        let value_offset = le16(base, pos + 2) as int;
        let e_block = le32(base, pos + 4);
        let value_size = le32(base, pos + 8) as int;
        let end_of_name = 0x10 + name_len;
        let next = end_of_name + (4 - end_of_name % 4) % 4;
        if name_len == 0 && index == 0 && value_offset == 0 && e_block == 0 {
            Ok(seq![])
        } else if base.len() - pos <= end_of_name {
            Err(ErrorKind::AssumptionFailed)
        } else if !prefix_known(index) {
            Err(ErrorKind::UnsupportedFeature)
        } else if !valid_utf8(base.subrange(pos + 0x10, pos + end_of_name)) || value_offset
            + value_size > base.len() || next > base.len() - pos {
            Err(ErrorKind::AssumptionFailed)
        } else {
            let entry = (
                prefix_chars(index) + decode_utf8(base.subrange(pos + 0x10, pos + end_of_name)),
                base.subrange(value_offset, value_offset + value_size),
            );
            match xattr_entries(base, pos + next) {
                Ok(rest) => Ok(seq![entry] + rest),
                Err(k) => Err(k),
            }
        }
    }
}

pub open spec fn prepend_entries(
    a: Seq<(Seq<char>, Seq<u8>)>,
    r: Result<Seq<(Seq<char>, Seq<u8>)>, ErrorKind>,
) -> Result<Seq<(Seq<char>, Seq<u8>)>, ErrorKind> {
    match r {
        Ok(s) => Ok(a + s),
        Err(k) => Err(k),
    }
}

/// What an external attribute block `d`, numbered `block`, decodes to:
/// its entries, or the kind of error that refuses it.
pub open spec fn xattr_block_entries(d: Seq<u8>, uuid_checksum: Option<u32>, block: u64) -> Result<
    Seq<(Seq<char>, Seq<u8>)>,
    ErrorKind,
> {
    if d.len() <= 0x20 || le32(d, 0) != XATTR_MAGIC {
        Err(ErrorKind::AssumptionFailed)
    } else if uuid_checksum matches Some(u) && le32(d, 0x10) != xattr_block_checksum(d, u, block) {
        Err(ErrorKind::AssumptionFailed)
    } else if le32(d, 8) != 1 {
        Err(ErrorKind::UnsupportedFeature)
    } else {
        xattr_entries(d, 0x20)
    }
}

fn name_prefix(index: u8) -> (r: Option<&'static str>)
    ensures
        r is Some <==> prefix_known(index),
        r matches Some(p) ==> p@ == prefix_chars(index),
{
    match index {
        0 => Some(""),
        1 => Some("user."),
        2 => Some("system.posix_acl_access"),
        3 => Some("system.posix_acl_default"),
        4 => Some("trusted."),
        6 => Some("security."),
        7 => Some("system."),
        _ => None,
    }
}

/// Decode the attribute entries of `base` from `start` on, until the entry
/// whose first eight bytes are zero. Value offsets count from the start of
/// `base`.
pub fn read_xattrs(xattrs: &mut Vec<Xattr>, base: &[u8], start: usize) -> (r: Result<(), Error>)
    requires
        names_unique(old(xattrs)@),
        start <= base@.len(),
    ensures
        names_unique(final(xattrs)@),
        r is Ok ==> (xattr_entries(base@, start as int) matches Ok(list) && xattr_model(final(xattrs)@)
            == apply_xattrs(xattr_model(old(xattrs)@), list)),
        r is Ok <==> xattr_entries(base@, start as int) is Ok,
        r matches Err(e) ==> xattr_entries(base@, start as int) == Err::<Seq<(Seq<char>, Seq<u8>)>, ErrorKind>(e.kind()),
        r matches Err(e) ==> e.is_assumption_failed() || e.is_unsupported_feature(),
        base@.len() - start <= 0x10 ==> fails_assumption(r),
{
    let ghost done: Seq<(Seq<char>, Seq<u8>)> = seq![];
    let n: usize = base.len();
    let mut pos = start;
    loop
        invariant
            pos <= n,
            n == base@.len(),
            names_unique(xattrs@),
            base@.len() - start <= 0x10 ==> pos == start,
            xattr_entries(base@, start as int) == prepend_entries(done, xattr_entries(base@, pos as int)),
            xattr_model(xattrs@) == apply_xattrs(xattr_model(old(xattrs)@), done),
        decreases n - pos,
    {
        if n - pos <= 0x10 {
            return Err(assumption_failed("out of block while reading xattr header"));
        }
        let e_name_len = base[pos];
        let e_name_prefix_magic = base[pos + 1];
        let e_value_offset = read_le16(base, pos + 2);
        let e_block = read_le32(base, pos + 4);
        if e_name_len == 0 && e_name_prefix_magic == 0 && e_value_offset == 0 && e_block == 0 {
            assert(done + seq![] =~= done);
            return Ok(());
        }
        let e_value_size = read_le32(base, pos + 8);
        let end_of_name = 0x10 + e_name_len as usize;
        if n - pos <= end_of_name {
            return Err(assumption_failed("out of block while reading xattr name"));
        }
        let prefix = match name_prefix(e_name_prefix_magic) {
            Some(p) => p,
            None => return Err(unsupported_feature("unsupported xattr name prefix encoding")),
        };
        let suffix = match utf8_string(&base[pos + 0x10..pos + end_of_name]) {
            Some(s) => s,
            None => return Err(assumption_failed("xattr name is invalid utf-8")),
        };
        let mut name = prefix.to_owned();
        name.append(suffix.as_str());
        let value_start = e_value_offset as usize;
        if e_value_size as usize > n || value_start > n - e_value_size as usize {
            return Err(assumption_failed("xattr value out of range"));
        }
        let value_end = value_start + e_value_size as usize;
        let value = copy_range(base, value_start, value_end);
        let next_record = end_of_name + (4 - end_of_name % 4) % 4;
        if next_record > n - pos {
            return Err(assumption_failed("out of block while skipping xattr name"));
        }
        let ghost entry = (name@, value@);
        assert(entry.0 == prefix_chars(e_name_prefix_magic) + decode_utf8(
            base@.subrange(pos + 0x10, pos + end_of_name),
        ));
        insert_xattr(xattrs, name, value);
        proof {
            assert(done.push(entry).drop_last() =~= done);
            let rest = xattr_entries(base@, pos + next_record);
            if rest is Ok {
                assert(done + (seq![entry] + rest.unwrap()) =~= done.push(entry) + rest.unwrap());
            }
            done = done.push(entry);
        }
        pos = pos + next_record;
    }
}

/// The eight little-endian bytes of `x`.
pub open spec fn le64_bytes(x: u64) -> Seq<u8> {
    Seq::new(8, |i: int| ((x as int / pow256(i)) % 256) as u8)
}

pub open spec fn pow256(i: int) -> int
    decreases i,
{
    if i <= 0 {
        1
    } else {
        256 * pow256(i - 1)
    }
}

fn le64_vec(x: u64) -> (r: Vec<u8>)
    ensures
        r@ == le64_bytes(x),
{
    let mut r: Vec<u8> = Vec::new();
    let mut v = x;
    let mut i: usize = 0;
    while i < 8
        invariant
            i <= 8,
            r@.len() == i,
            v as int == x as int / pow256(i as int),
            forall|k: int| 0 <= k < i ==> r@[k] == ((x as int / pow256(k)) % 256) as u8,
        decreases 8 - i,
    {
        r.push((v % 256) as u8);
        proof {
            assert(pow256(i + 1) == 256 * pow256(i as int));
            assert(pow256(i as int) > 0) by {
                lemma_pow256_pos(i as int);
            }
            vstd::arithmetic::div_mod::lemma_div_denominator(x as int, pow256(i as int), 256);
        }
        v = v / 256;
        i += 1;
    }
    assert(r@ =~= le64_bytes(x));
    r
}

proof fn lemma_pow256_pos(i: int)
    ensures
        pow256(i) > 0,
    decreases i,
{
    if i > 0 {
        lemma_pow256_pos(i - 1);
    }
}

/// `d` with its four checksum bytes at 0x10 set to zero.
pub open spec fn zero_block_checksum(d: Seq<u8>) -> Seq<u8> {
    d.update(0x10, 0).update(0x11, 0).update(0x12, 0).update(0x13, 0)
}

/// The checksum an attribute block numbered `block` must carry.
pub open spec fn xattr_block_checksum(d: Seq<u8>, uuid_checksum: u32, block: u64) -> u32 {
    ext4_crc32c(ext4_crc32c(uuid_checksum, le64_bytes(block)), zero_block_checksum(d))
}

/// Decode an external attribute block, numbered `block_number`.
pub fn xattr_block(
    xattrs: &mut Vec<Xattr>,
    data: Vec<u8>,
    uuid_checksum: Option<u32>,
    block_number: u64,
) -> (r: Result<(), Error>)
    requires
        names_unique(old(xattrs)@),
    ensures
        names_unique(final(xattrs)@),
        r matches Err(e) ==> e.is_assumption_failed() || e.is_unsupported_feature(),
        r is Ok ==> (xattr_block_entries(data@, uuid_checksum, block_number) matches Ok(list)
            && xattr_model(final(xattrs)@) == apply_xattrs(xattr_model(old(xattrs)@), list)),
        r is Ok <==> xattr_block_entries(data@, uuid_checksum, block_number) is Ok,
        r matches Err(e) ==> xattr_block_entries(data@, uuid_checksum, block_number) == Err::<
            Seq<(Seq<char>, Seq<u8>)>,
            ErrorKind,
        >(e.kind()),
{
    if data.len() <= 0x20 {
        return Err(assumption_failed("xattr block is way too short"));
    }
    if read_le32(&data, 0) != XATTR_MAGIC {
        return Err(assumption_failed("xattr block contained invalid magic number"));
    }
    let x_blocks_used = read_le32(&data, 0x08);
    let x_checksum = read_le32(&data, 0x10);
    if let Some(u) = uuid_checksum {
        let mut zeroed = data.clone();
        zeroed.set(0x10, 0);
        zeroed.set(0x11, 0);
        zeroed.set(0x12, 0);
        zeroed.set(0x13, 0);
        let number = le64_vec(block_number);
        let seed = ext4_style_crc32c_le(u, &number);
        let computed = ext4_style_crc32c_le(seed, &zeroed);
        assert(zeroed@ == zero_block_checksum(data@));
        if x_checksum != computed {
            return Err(assumption_failed("xattr block checksum invalid"));
        }
    }
    if x_blocks_used != 1 {
        return Err(unsupported_feature("must have exactly one xattr block"));
    }
    read_xattrs(xattrs, &data, 0x20)
}

} // verus!
