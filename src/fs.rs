//! An opened filesystem: loading inodes, listing directories, reading
//! files and resolving paths.
use vstd::prelude::*;
use vstd::utf8::{decode_utf8, valid_utf8};

use crate::block_groups::{inode_in_table, inode_offset, BlockGroups};
use crate::bytes::{le16, le32};
use crate::dir::{dir_listing, entries_view, entry_view, read_directory};
use crate::error::{
    assumption_failed, fails_assumption, fails_io, fails_not_found, fails_unsupported, not_found,
    unsupported_feature, Error, ErrorKind,
};
use crate::extents::{
    is_mapped, lemma_same_extents_same_bytes, lemma_same_extents_same_mapping, node_extents,
    read_overflows, tree_bytes, tree_read_overflows, tree_refused, TreeReader,
};
use crate::flags::{EXTENTS, LAYOUT};
use crate::inner_reader::{InnerReader, MetadataCrypto};
use crate::parse::{
    inode_checksum_matches, inode_checksum_seed, inode_end, opened_from, stat_of_record, superblock,
    superblock_outcome,
    xattrs_of_record, INODE_BASE_LEN,
};
use crate::source::{read_exact_at, ReadAt};
use crate::text::{trim_zeros, trimmed_len, utf8_string};
use crate::types::{Checksums, DirEntry, Enhanced, FileType, Inode, Options, INODE_CORE_SIZE};
use crate::xattr::{names_unique, xattr_model};

verus! {

/// The critical core of the filesystem.
#[derive(Debug)]
pub struct SuperBlock<R> {
    pub inner: R,
    /// The filesystem declares extended attributes.
    pub load_xattrs: bool,
    /// CRC-32C of the UUID, present when metadata checksums are on; every
    /// other checksum is chained from it.
    pub uuid_checksum: Option<u32>,
    pub uuid: [u8; 16],
    pub groups: BlockGroups,
}

/// The major number of a device inode whose core is `c`.
pub open spec fn device_major(c: Seq<u8>) -> u16 {
    if c[0] != 0 || c[1] != 0 {
        c[1] as u16
    } else {
        (c[5] as int + (c[6] % 16) as int * 0x100) as u16
    }
}

/// The minor number of a device inode whose core is `c`.
pub open spec fn device_minor(c: Seq<u8>) -> u32 {
    if c[0] != 0 || c[1] != 0 {
        c[0] as u32
    } else {
        (c[4] as int + (c[6] / 16) as int * 0x100 + c[7] as int * 0x1000) as u32
    }
}

/// The device number packed into an inode's core, old or new style.
pub fn load_maj_min(core: &[u8; INODE_CORE_SIZE]) -> (r: (u16, u32))
    ensures
        r == (device_major(core@), device_minor(core@)),
{
    if core[0] != 0 || core[1] != 0 {
        (core[1] as u16, core[0] as u32)
    } else {
        (
            core[5] as u16 + (core[6] % 16) as u16 * 0x100,
            core[4] as u32 + (core[6] / 16) as u32 * 0x100 + core[7] as u32 * 0x1000,
        )
    }
}

pub open spec fn is_sep(c: char) -> bool {
    c == '/' || c == '\\'
}

/// `s` without the separators at its end.
pub open spec fn trim_seps(s: Seq<char>) -> Seq<char>
    decreases s.len(),
{
    if s.len() > 0 && is_sep(s.last()) {
        trim_seps(s.drop_last())
    } else {
        s
    }
}

/// What follows the last separator of `s`.
pub open spec fn after_last_sep(s: Seq<char>) -> Seq<char>
    decreases s.len(),
{
    if s.len() == 0 {
        s
    } else if is_sep(s.last()) {
        seq![]
    } else {
        after_last_sep(s.drop_last()).push(s.last())
    }
}

/// Loading the same inode twice gives the same values: every field of its
/// stat record (the attributes as a map from name to value), its flags, its
/// core and its checksum seed.
pub proof fn lemma_load_inode_stable<R: ReadAt>(sb: SuperBlock<R>, n: u32, a: Inode, b: Inode)
    requires
        sb.is_loaded_inode(n, a),
        sb.is_loaded_inode(n, b),
    ensures
        a.number == b.number,
        a.stat.extracted_type == b.stat.extracted_type,
        a.stat.file_mode == b.stat.file_mode,
        a.stat.uid == b.stat.uid,
        a.stat.gid == b.stat.gid,
        a.stat.size == b.stat.size,
        a.stat.atime == b.stat.atime,
        a.stat.ctime == b.stat.ctime,
        a.stat.mtime == b.stat.mtime,
        a.stat.btime == b.stat.btime,
        a.stat.link_count == b.stat.link_count,
        xattr_model(a.stat.xattrs@) == xattr_model(b.stat.xattrs@),
        a.flags == b.flags,
        a.core@ == b.core@,
        a.checksum_prefix == b.checksum_prefix,
        a.block_size == b.block_size,
{
}

/// `x` is the first entry of `listing` called `name`.
pub open spec fn first_named(listing: Seq<(u32, FileType, Seq<char>)>, name: Seq<char>, x: (u32, FileType, Seq<char>)) -> bool {
    exists|i: int|
        0 <= i < listing.len() && listing[i] == x && x.2 == name && forall|j: int|
            0 <= j < i ==> (#[trigger] listing[j]).2 != name
}

/// An entry that no earlier entry shares its name with is the first entry
/// of that name: resolving "/" and its name, which returns the first entry
/// of that name in the root directory, returns it.
pub proof fn lemma_first_named_is_entry(
    listing: Seq<(u32, FileType, Seq<char>)>,
    i: int,
    x: (u32, FileType, Seq<char>),
)
    requires
        0 <= i < listing.len(),
        forall|j: int| 0 <= j < i ==> (#[trigger] listing[j]).2 != listing[i].2,
        first_named(listing, listing[i].2, x),
    ensures
        x == listing[i],
{
    let k = choose|k: int|
        0 <= k < listing.len() && listing[k] == x && x.2 == listing[i].2 && forall|j: int|
            0 <= j < k ==> (#[trigger] listing[j]).2 != listing[i].2;
    if k < i {
        assert(listing[k].2 != listing[i].2);
    } else if k > i {
        assert(listing[i].2 != listing[i].2);
    }
}

/// `p` names one entry of the root directory: it starts with a separator
/// and, its trailing separators aside, holds no other.
pub open spec fn single_root_component(p: Seq<char>) -> bool {
    &&& trim_seps(p).len() >= 2
    &&& is_sep(p[0])
    &&& forall|k: int| 1 <= k < trim_seps(p).len() ==> !is_sep(#[trigger] p[k])
}

/// Deepest directory nesting that a walk descends into.
pub const MAX_WALK_DEPTH: u32 = 4096;

/// `name` appended to the path `path`, with a separator between unless
/// `path` is empty or already ends in one.
pub open spec fn joined(path: Seq<char>, name: Seq<char>) -> Seq<char> {
    if path.len() == 0 {
        name
    } else if path.last() == '/' {
        path + name
    } else {
        path + seq!['/'] + name
    }
}

pub fn join_path(path: &str, name: &String) -> (r: String)
    ensures
        r@ == joined(path@, name@),
{
    let n = path.unicode_len();
    if n == 0 {
        return name.clone();
    }
    let mut r = path.to_owned();
    if path.get_char(n - 1) != '/' {
        let sep = "/";
        proof {
            reveal_strlit("/");
        }
        r.append(sep);
    }
    r.append(name.as_str());
    r
}

fn is_separator(c: char) -> (r: bool)
    ensures
        r == is_sep(c),
{
    c == '/' || c == '\\'
}

/// How many characters of `path` remain once its trailing separators are cut.
fn trimmed_path_len(path: &str) -> (end: usize)
    ensures
        end <= path@.len(),
        path@.subrange(0, end as int) == trim_seps(path@),
        forall|k: int| end <= k < path@.len() ==> is_sep(#[trigger] path@[k]),
        end > 0 ==> !is_sep(path@[end - 1]),
{
    let n = path.unicode_len();
    let mut end = n;
    assert(path@.subrange(0, n as int) =~= path@);
    while end > 0 && is_separator(path.get_char(end - 1))
        invariant
            end <= path@.len(),
            n == path@.len(),
            trim_seps(path@) == trim_seps(path@.subrange(0, end as int)),
            forall|k: int| end <= k < path@.len() ==> is_sep(#[trigger] path@[k]),
        decreases end,
    {
        assert(path@.subrange(0, end as int).drop_last() =~= path@.subrange(0, end - 1));
        end -= 1;
    }
    assert(path@.subrange(0, end as int) == trim_seps(path@.subrange(0, end as int)));
    end
}

proof fn lemma_after_last_sep(s: Seq<char>, start: int)
    requires
        0 <= start <= s.len(),
        start == 0 || is_sep(s[start - 1]),
        forall|k: int| start <= k < s.len() ==> !is_sep(#[trigger] s[k]),
    ensures
        after_last_sep(s) == s.subrange(start, s.len() as int),
    decreases s.len(),
{
    if s.len() > start {
        lemma_after_last_sep(s.drop_last(), start);
        assert(s.subrange(start, s.len() as int) =~= s.drop_last().subrange(start, s.len() - 1).push(s.last()));
    } else if s.len() > 0 {
        assert(is_sep(s.last()));
        assert(s.subrange(start, s.len() as int) =~= seq![]);
    } else {
        assert(s.subrange(start, s.len() as int) =~= s);
    }
}

impl<R: ReadAt> SuperBlock<R> {
    pub open spec fn wf(&self) -> bool {
        &&& self.groups.wf()
        &&& self.groups.block_size > 0
    }

    /// The on-disk bytes of inode `n`.
    pub open spec fn inode_record(&self, n: u32) -> Seq<u8> {
        let off = inode_offset(self.groups, n);
        self.inner.contents().subrange(off, off + self.groups.inode_size)
    }

    /// `i` is what the disk holds for inode `n`.
    pub open spec fn is_loaded_inode(&self, n: u32, i: Inode) -> bool {
        let d = self.inode_record(n);
        &&& inode_in_table(self.groups, n)
        &&& inode_offset(self.groups, n) + self.groups.inode_size <= self.inner.contents().len()
        &&& d.len() >= INODE_BASE_LEN
        &&& inode_end(d) <= d.len()
        &&& i.number == n
        &&& i.block_size == self.groups.block_size
        &&& stat_of_record(i.stat, d.subrange(0, inode_end(d)))
        &&& i.flags.bits == le32(d, 0x20)
        &&& i.core@ == d.subrange(0x28, 0x64)
        &&& names_unique(i.stat.xattrs@)
        &&& xattrs_of_record(d, self.inner.contents(), self.groups.block_size, self.uuid_checksum) == Some(
            xattr_model(i.stat.xattrs@),
        )
        &&& i.checksum_prefix == (match self.uuid_checksum {
            Some(u) => Some(inode_checksum_seed(u, n, le32(d, 0x64))),
            None => None,
        })
        &&& self.uuid_checksum matches Some(u) ==> inode_checksum_matches(
            d,
            inode_checksum_seed(u, n, le32(d, 0x64)),
        )
    }

    /// The bytes of the data of `inode` that a reader opened on it returns.
    pub open spec fn file_bytes(&self, inode: &Inode) -> Seq<u8> {
        if inode.flags.bits & EXTENTS != 0 {
            tree_bytes(
                self.inner.contents(),
                inode.block_size,
                inode.core@,
                inode.checksum_prefix,
                inode.stat.size as int,
            )
        } else {
            Seq::new(inode.stat.size as nat, |i: int| 0u8)
        }
    }

    /// Opening `inode` is refused: its data is not held in extents, the block
    /// size is zero, or its extent tree is refused.
    pub open spec fn open_refused(&self, inode: &Inode) -> bool {
        ||| inode.flags.bits & EXTENTS == 0 && inode.stat.size != 0
        ||| inode.block_size == 0
        ||| inode.flags.bits & EXTENTS != 0 && tree_refused(
            self.inner.contents(),
            inode.block_size,
            inode.core@,
            inode.checksum_prefix,
        )
    }

    /// The bytes of the target of the symbolic link `inode`: in its core
    /// when short, in its data otherwise.
    pub open spec fn link_bytes(&self, inode: &Inode) -> Seq<u8> {
        if inode.stat.size < INODE_CORE_SIZE {
            inode.core@.subrange(0, inode.stat.size as int)
        } else {
            self.file_bytes(inode)
        }
    }

    /// The visitor accepted, at the path `path` joined with `name`, an inode
    /// numbered `number`.
    pub open spec fn visited<F: Fn(&Self, &str, &Inode, &Enhanced) -> Result<bool, Error>>(
        &self,
        visit: F,
        path: Seq<char>,
        number: u32,
        name: Seq<char>,
    ) -> bool {
        exists|b: &str, c: &Inode, d: &Enhanced|
            b@ == joined(path, name) && c.number == number && #[trigger] call_ensures(
                visit,
                (self, b, c, d),
                Ok::<bool, Error>(true),
            )
    }

    /// Reading the data of `inode` is refused: opening it is, or some byte
    /// of it maps past the addressable range.
    pub open spec fn data_refused(&self, inode: &Inode) -> bool {
        ||| self.open_refused(inode)
        ||| inode.flags.bits & EXTENTS != 0 && tree_read_overflows(
            self.inner.contents(),
            inode.block_size,
            inode.core@,
            inode.checksum_prefix,
            inode.stat.size as int,
        )
    }

    /// Open a filesystem, and load its superblock.
    pub fn new(inner: R) -> (r: Result<Self, Error>)
        ensures
            r matches Ok(s) ==> opened_from(inner, Options { checksums: Checksums::Required }, s),
            superblock_outcome(inner.contents(), Options { checksums: Checksums::Required }, r),
    {
        Self::new_with_options(inner, &Options::default())
    }

    pub fn new_with_options(inner: R, options: &Options) -> (r: Result<Self, Error>)
        ensures
            r matches Ok(s) ==> opened_from(inner, *options, s),
            superblock_outcome(inner.contents(), *options, r),
    {
        superblock(inner, options)
    }

    pub fn get_uuid(&self) -> (r: &[u8; 16])
        ensures
            r == &self.uuid,
    {
        &self.uuid
    }

    /// Returns the byte source, consuming self.
    pub fn into_inner(self) -> (r: R)
        ensures
            r == self.inner,
    {
        self.inner
    }

    pub fn ref_inner(&self) -> (r: &R)
        ensures
            r == &self.inner,
    {
        &self.inner
    }

    /// Load a filesystem entry by inode number.
    pub fn load_inode(&self, inode: u32) -> (r: Result<Inode, Error>)
        requires
            self.wf(),
        ensures
            inode == 0 ==> fails_not_found(r),
            fails_not_found(r) ==> !inode_in_table(self.groups, inode),
            r matches Ok(i) ==> self.is_loaded_inode(inode, i),
            ({
                let d = self.inode_record(inode);
                inode_in_table(self.groups, inode) && inode_offset(self.groups, inode) + self.groups.inode_size
                    <= self.inner.contents().len() && inode_offset(self.groups, inode) <= u64::MAX
                    && self.groups.inode_size > 0 && d.len() >= INODE_BASE_LEN && inode_end(d) <= d.len()
                    ==> (self.uuid_checksum matches Some(u) && !inode_checksum_matches(
                    d,
                    inode_checksum_seed(u, inode, le32(d, 0x64)),
                ) ==> fails_assumption(r) || fails_io(r))
            }),
    {
        let offset = self.groups.index_of(inode)?;
        let data = read_exact_at(&self.inner, offset, self.groups.inode_size as usize)?;
        let parsed = crate::parse::inode(data, &self.inner, self.groups.block_size, self.uuid_checksum, inode)?;
        Ok(Inode {
            number: inode,
            stat: parsed.stat,
            flags: parsed.flags,
            core: parsed.core,
            checksum_prefix: parsed.checksum_prefix,
            block_size: self.groups.block_size,
        })
    }

    /// Load the root node of the filesystem (typically `/`).
    pub fn root(&self) -> (r: Result<Inode, Error>)
        requires
            self.wf(),
        ensures
            r matches Ok(i) ==> self.is_loaded_inode(2, i),
            fails_not_found(r) ==> !inode_in_table(self.groups, 2),
    {
        self.load_inode(2)
    }

    /// A reader over the data of an inode, which must use extents unless it
    /// is empty.
    pub fn open<'a>(&'a self, inode: &Inode) -> (r: Result<TreeReader<&'a R>, Error>)
        ensures
            r matches Ok(t) ==> {
                &&& t.wf()
                &&& t.pos == 0
                &&& t.len == inode.stat.size
                &&& t.block_size == inode.block_size
                &&& t.inner == &self.inner
                &&& inode.flags.bits & EXTENTS != 0 ==> (node_extents(
                    self.inner.contents(),
                    inode.block_size,
                    inode.core@,
                    le16(inode.core@, 6),
                    inode.checksum_prefix,
                    true,
                ) matches Some(found) && t.extents@.to_multiset() == found.to_multiset())
                &&& inode.flags.bits & EXTENTS == 0 ==> t.extents@.len() == 0
            },
            inode.flags.bits & EXTENTS == 0 && inode.stat.size != 0 ==> fails_unsupported(r),
            r matches Err(e) ==> e.is_assumption_failed() || e.is_unsupported_feature() || e.is_io(),
            r matches Err(e) && !e.is_io() ==> self.open_refused(inode),
            inode.block_size > 0 && inode.flags.bits & EXTENTS == 0 && inode.stat.size == 0 ==> r is Ok,
            inode.block_size > 0 && inode.flags.bits & EXTENTS != 0 && !self.open_refused(inode) && le16(
                inode.core@,
                6,
            ) == 0 ==> r is Ok,
    {
        if inode.flags.bits & EXTENTS == 0 {
            if inode.stat.size != 0 {
                return Err(unsupported_feature("inode data is not held in extents"));
            }
            if inode.block_size == 0 {
                return Err(assumption_failed("block size cannot be zero"));
            }
            return Ok(TreeReader::create(&self.inner, inode.block_size, 0, Vec::new()));
        }
        if inode.block_size == 0 {
            return Err(assumption_failed("block size cannot be zero"));
        }
        TreeReader::new(&self.inner, inode.block_size, inode.stat.size, inode.core, inode.checksum_prefix)
    }

    /// The whole data of an inode.
    pub fn load_all(&self, inode: &Inode) -> (r: Result<Vec<u8>, Error>)
        ensures
            r matches Ok(v) ==> v@.len() == inode.stat.size,
            r matches Ok(v) ==> v@ == self.file_bytes(inode),
            inode.block_size > 0 && inode.flags.bits & EXTENTS == 0 && inode.stat.size == 0 ==> (r matches Ok(v)
                && v@.len() == 0),
            r matches Err(e) ==> (!e.is_io() ==> self.data_refused(inode)),
            inode.flags.bits & EXTENTS == 0 && inode.stat.size != 0 ==> fails_unsupported(r),
            r matches Err(e) ==> e.is_assumption_failed() || e.is_unsupported_feature() || e.is_io(),
    {
        let mut reader = self.open(inode)?;
        let ghost t = reader;
        let v = match reader.read_to_end() {
            Ok(v) => v,
            Err(e) => {
                proof {
                    if !e.is_io() {
                        let i = choose|i: int| 0 <= i < t.len && read_overflows(t.extents@, t.block_size as int, i);
                        if inode.flags.bits & EXTENTS != 0 {
                            let found = node_extents(
                                self.inner.contents(),
                                inode.block_size,
                                inode.core@,
                                le16(inode.core@, 6),
                                inode.checksum_prefix,
                                true,
                            ).unwrap();
                            lemma_same_extents_same_mapping(t.extents@, found, i / inode.block_size as int);
                            assert(read_overflows(found, inode.block_size as int, i));
                        } else {
                            assert(!is_mapped(t.extents@, i / t.block_size as int));
                        }
                    }
                }
                return Err(e);
            },
        };
        proof {
            if inode.flags.bits & EXTENTS != 0 {
                let found = node_extents(
                    self.inner.contents(),
                    inode.block_size,
                    inode.core@,
                    le16(inode.core@, 6),
                    inode.checksum_prefix,
                    true,
                ).unwrap();
                assert forall|k: int| 0 <= k < v@.len() implies v@[k] == self.file_bytes(inode)[k] by {
                    lemma_same_extents_same_bytes(t.extents@, found, inode.block_size as int, self.inner.contents(), k);
                }
            }
            assert(v@ =~= self.file_bytes(inode));
        }
        Ok(v)
    }

    /// Load extra metadata about some types of entries.
    pub fn enhance(&self, inode: &Inode) -> (r: Result<Enhanced, Error>)
        ensures
            r matches Ok(e) ==> match inode.stat.extracted_type {
                FileType::RegularFile => e is RegularFile,
                FileType::Socket => e is Socket,
                FileType::Fifo => e is Fifo,
                FileType::CharacterDevice => e == Enhanced::CharacterDevice(
                    device_major(inode.core@),
                    device_minor(inode.core@),
                ),
                FileType::BlockDevice => e == Enhanced::BlockDevice(
                    device_major(inode.core@),
                    device_minor(inode.core@),
                ),
                FileType::SymbolicLink => e matches Enhanced::SymbolicLink(s) && valid_utf8(
                    trim_zeros(self.link_bytes(inode)),
                ) && s@ == decode_utf8(trim_zeros(self.link_bytes(inode))) && (inode.stat.size
                    < INODE_CORE_SIZE ==> inode.flags.bits == 0) && (inode.stat.size >= INODE_CORE_SIZE
                    ==> inode.flags.bits & LAYOUT == EXTENTS),
                FileType::Directory => e matches Enhanced::Directory(v) && inode.flags.bits & LAYOUT
                    == EXTENTS && dir_listing(self.file_bytes(inode), 0, inode.checksum_prefix) == Ok::<
                        Seq<(u32, FileType, Seq<char>)>,
                        ErrorKind,
                    >(entries_view(v@)),
            },
            match inode.stat.extracted_type {
                FileType::RegularFile | FileType::Socket | FileType::Fifo
                | FileType::CharacterDevice | FileType::BlockDevice => r is Ok,
                FileType::SymbolicLink => {
                    &&& inode.stat.size < INODE_CORE_SIZE && inode.flags.bits != 0 ==> fails_unsupported(r)
                    &&& inode.stat.size >= INODE_CORE_SIZE && inode.flags.bits & LAYOUT != EXTENTS
                        ==> fails_unsupported(r)
                    &&& inode.stat.size < INODE_CORE_SIZE && inode.flags.bits == 0 ==> (valid_utf8(
                        trim_zeros(self.link_bytes(inode)),
                    ) <==> r is Ok)
                    &&& inode.stat.size >= INODE_CORE_SIZE && inode.flags.bits & LAYOUT == EXTENTS
                        && !self.data_refused(inode) && valid_utf8(trim_zeros(self.link_bytes(inode)))
                        ==> r is Ok || fails_io(r)
                    &&& r matches Err(e) ==> (!e.is_io() && e.is_assumption_failed() ==> self.data_refused(inode)
                        || !valid_utf8(trim_zeros(self.link_bytes(inode))))
                },
                FileType::Directory => {
                    &&& inode.flags.bits & LAYOUT != EXTENTS ==> fails_unsupported(r)
                    &&& inode.flags.bits & LAYOUT == EXTENTS ==> (r matches Err(e) ==> (!e.is_io()
                        ==> self.data_refused(inode) || dir_listing(self.file_bytes(inode), 0, inode.checksum_prefix)
                        == Err::<Seq<(u32, FileType, Seq<char>)>, ErrorKind>(e.kind())))
                    &&& inode.flags.bits & LAYOUT == EXTENTS && !self.data_refused(inode) && dir_listing(
                        self.file_bytes(inode),
                        0,
                        inode.checksum_prefix,
                    ) is Ok ==> r is Ok || fails_io(r)
                },
            },
            r matches Err(e) ==> e.is_assumption_failed() || e.is_unsupported_feature() || e.is_io(),
    {
        match inode.stat.extracted_type {
            FileType::RegularFile => Ok(Enhanced::RegularFile),
            FileType::Socket => Ok(Enhanced::Socket),
            FileType::Fifo => Ok(Enhanced::Fifo),
            FileType::CharacterDevice => {
                let (maj, min) = load_maj_min(&inode.core);
                Ok(Enhanced::CharacterDevice(maj, min))
            },
            FileType::BlockDevice => {
                let (maj, min) = load_maj_min(&inode.core);
                Ok(Enhanced::BlockDevice(maj, min))
            },
            FileType::Directory => {
                if !inode.flags.only_relevant_flag_is_extents() {
                    return Err(unsupported_feature("directory with unsupported flags"));
                }
                let data = self.load_all(inode)?;
                let entries = read_directory(data.as_slice(), inode.checksum_prefix)?;
                Ok(Enhanced::Directory(entries))
            },
            FileType::SymbolicLink => {
                let points_to: Vec<u8> = if inode.stat.size < INODE_CORE_SIZE as u64 {
                    if inode.flags.bits != 0 {
                        return Err(unsupported_feature("symbolic links may not have flags"));
                    }
                    crate::bytes::copy_range(inode.core.as_slice(), 0, inode.stat.size as usize)
                } else {
                    if !inode.flags.only_relevant_flag_is_extents() {
                        return Err(unsupported_feature("symbolic links may not have non-extent flags"));
                    }
                    self.load_all(inode)?
                };
                let keep = trimmed_len(points_to.as_slice(), points_to.len());
                assert(points_to@.subrange(0, points_to@.len() as int) =~= points_to@);
                match utf8_string(&points_to.as_slice()[0..keep]) {
                    Some(s) => Ok(Enhanced::SymbolicLink(s)),
                    None => Err(assumption_failed("symlink is invalid utf-8")),
                }
            },
        }
    }

    /// The entry called `name` in the directory `inode`.
    pub fn dir_entry_named(&self, inode: &Inode, name: &str) -> (r: Result<DirEntry, Error>)
        ensures
            r matches Ok(e) ==> e.name@ == name@ && inode.stat.extracted_type == FileType::Directory,
            r matches Ok(e) ==> (dir_listing(self.file_bytes(inode), 0, inode.checksum_prefix) matches Ok(l)
                && first_named(l, name@, entry_view(e))),
            match inode.stat.extracted_type {
                FileType::RegularFile | FileType::Socket | FileType::Fifo
                | FileType::CharacterDevice | FileType::BlockDevice => fails_not_found(r),
                _ => true,
            },
            inode.stat.extracted_type == FileType::Directory && inode.flags.bits & LAYOUT == EXTENTS
                && !self.data_refused(inode) ==> (dir_listing(self.file_bytes(inode), 0, inode.checksum_prefix)
                matches Ok(l) ==> {
                &&& (forall|i: int| 0 <= i < l.len() ==> (#[trigger] l[i]).2 != name@) ==> fails_not_found(r)
                    || fails_io(r)
                &&& (exists|i: int| 0 <= i < l.len() && (#[trigger] l[i]).2 == name@) ==> r is Ok || fails_io(r)
            }),
            fails_not_found(r) ==> inode.stat.extracted_type != FileType::Directory || (dir_listing(
                self.file_bytes(inode),
                0,
                inode.checksum_prefix,
            ) matches Ok(l) && forall|i: int| 0 <= i < l.len() ==> (#[trigger] l[i]).2 != name@),
    {
        let wanted = name.to_owned();
        match self.enhance(inode)? {
            Enhanced::Directory(entries) => {
                assert(inode.stat.extracted_type == FileType::Directory);
                let mut entries = entries;
                let mut i: usize = 0;
                while i < entries.len()
                    invariant
                        i <= entries@.len(),
                        wanted@ == name@,
                        inode.stat.extracted_type == FileType::Directory,
                        dir_listing(self.file_bytes(inode), 0, inode.checksum_prefix) == Ok::<Seq<(u32, FileType, Seq<char>)>, ErrorKind>(entries_view(entries@)),
                        forall|j: int| 0 <= j < i ==> (#[trigger] entries@[j]).name@ != name@,
                    decreases entries@.len() - i,
                {
                    if entries[i].name == wanted {
                        let ghost here = entries@[i as int];
                        let ghost l = entries_view(entries@);
                        let e = entries.swap_remove(i);
                        assert(e == here);
                        assert(e.name@ == name@);
                        assert(l[i as int] == entry_view(e));
                        assert forall|j: int| 0 <= j < i implies (#[trigger] l[j]).2 != name@ by {
                            assert(l[j] == entry_view(entries@[j]));
                        }
                        return Ok(e);
                    }
                    i += 1;
                }
                proof {
                    let l = entries_view(entries@);
                    assert forall|k: int| 0 <= k < l.len() implies (#[trigger] l[k]).2 != name@ by {
                        assert(l[k] == entry_view(entries@[k]));
                    }
                }
                Err(not_found("path component isn't there"))
            },
            _ => Err(not_found("path component isn't a directory")),
        }
    }

    /// Parse a path, and find the directory entry it represents. Both `/`
    /// and `\\` separate components; "/foo/../bar" is taken literally.
    pub fn resolve_path(&self, path: &str) -> (r: Result<DirEntry, Error>)
        requires
            self.wf(),
        ensures
            (forall|k: int| 0 <= k < path@.len() ==> is_sep(#[trigger] path@[k])) ==> (r matches Ok(e)
                && e.inode == 2 && e.file_type == FileType::Directory && e.name@ == seq!['/']),
            r matches Ok(e) ==> (exists|k: int| 0 <= k < path@.len() && !is_sep(#[trigger] path@[k]))
                ==> e.name@ == after_last_sep(trim_seps(path@)),
            r matches Ok(e) ==> (single_root_component(path@) ==> exists|root: Inode|
                self.is_loaded_inode(2, root) && (dir_listing(self.file_bytes(&root), 0, root.checksum_prefix)
                    matches Ok(l) && first_named(l, after_last_sep(trim_seps(path@)), entry_view(e)))),
            single_root_component(path@) && fails_not_found(r) ==> !inode_in_table(self.groups, 2) || exists|
                root: Inode,
            |
                self.is_loaded_inode(2, root) && (root.stat.extracted_type != FileType::Directory || (dir_listing(
                    self.file_bytes(&root),
                    0,
                    root.checksum_prefix,
                ) matches Ok(l) && forall|i: int|
                    0 <= i < l.len() ==> (#[trigger] l[i]).2 != after_last_sep(trim_seps(path@)))),
    {
        let end = trimmed_path_len(path);
        if end == 0 {
            let root_name = "/".to_owned();
            proof {
                reveal_strlit("/");
            }
            return Ok(DirEntry { inode: 2, file_type: FileType::Directory, name: root_name });
        }
        let mut curr = self.root()?;
        let ghost root = curr;
        let mut start: usize = 0;
        let mut i: usize = 0;
        while i < end
            invariant
                start <= i <= end <= path@.len(),
                start == 0 || is_sep(path@[start - 1]),
                forall|k: int| start <= k < i ==> !is_sep(#[trigger] path@[k]),
                self.wf(),
                end > 0,
                !is_sep(path@[end - 1]),
                path@.subrange(0, end as int) == trim_seps(path@),
                self.is_loaded_inode(2, root),
                single_root_component(path@) ==> curr == root && (i >= 1 ==> start == 1),
            decreases end - i,
        {
            if is_separator(path.get_char(i)) {
                if start < i {
                    assert(!single_root_component(path@)) by {
                        if single_root_component(path@) {
                            assert(i >= 1);
                            assert(!is_sep(path@[i as int]));
                        }
                    }
                    let part = path.substring_char(start, i);
                    let child = self.dir_entry_named(&curr, part)?;
                    curr = self.load_inode(child.inode)?;
                }
                start = i + 1;
            }
            i += 1;
        }
        let last = path.substring_char(start, end);
        proof {
            lemma_after_last_sep(path@.subrange(0, end as int), start as int);
        }
        let found = match self.dir_entry_named(&curr, last) {
            Ok(f) => f,
            Err(e) => {
                proof {
                    assert(last@ == after_last_sep(trim_seps(path@)));
                    if single_root_component(path@) && e.is_not_found() {
                        assert(curr == root);
                        assert(self.is_loaded_inode(2, root));
                    }
                }
                return Err(e);
            },
        };
        proof {
            assert(last@ == after_last_sep(trim_seps(path@)));
            if single_root_component(path@) {
                assert(curr == root);
                assert(self.is_loaded_inode(2, root));
                assert(dir_listing(self.file_bytes(&root), 0, root.checksum_prefix) matches Ok(l)
                    && first_named(l, after_last_sep(trim_seps(path@)), entry_view(found)));
            }
        }
        Ok(found)
    }

    /// Visit `inode` and, below it, every entry of every directory, in
    /// preorder, skipping `.` and `..`. The visitor returns `false` to stop
    /// the walk, and the result is `true` when it never did. Directories
    /// nested deeper than `MAX_WALK_DEPTH` are refused.
    pub fn walk<F>(&self, inode: &Inode, path: &str, visit: &F) -> (r: Result<bool, Error>) where
        F: Fn(&Self, &str, &Inode, &Enhanced) -> Result<bool, Error>,

        requires
            self.wf(),
            forall|a: &Self, b: &str, c: &Inode, d: &Enhanced| #[trigger] call_requires(*visit, (a, b, c, d)),
        ensures
            r matches Ok(true) ==> exists|e: Enhanced| #[trigger] call_ensures(
                *visit,
                (self, path, inode, &e),
                Ok::<bool, Error>(true),
            ),
            r matches Ok(false) ==> exists|a: &Self, b: &str, c: &Inode, d: &Enhanced|
                #[trigger] call_ensures(*visit, (a, b, c, d), Ok::<bool, Error>(false)),
            r matches Ok(true) && inode.stat.extracted_type == FileType::Directory ==> (dir_listing(
                self.file_bytes(inode),
                0,
                inode.checksum_prefix,
            ) matches Ok(l) && forall|j: int|
                0 <= j < l.len() && l[j].2 != "."@ && l[j].2 != ".."@ ==> #[trigger] self.visited(
                    *visit,
                    path@,
                    l[j].0,
                    l[j].2,
                )),
            match inode.stat.extracted_type {
                FileType::RegularFile | FileType::Socket | FileType::Fifo
                | FileType::CharacterDevice | FileType::BlockDevice => (forall|
                    a: &Self,
                    b: &str,
                    c: &Inode,
                    d: &Enhanced,
                    res: Result<bool, Error>,
                | #[trigger] call_ensures(*visit, (a, b, c, d), res) ==> res matches Ok(true)) ==> r matches Ok(true),
                _ => true,
            },
    {
        self.walk_within(inode, path, visit, MAX_WALK_DEPTH)
    }

    fn walk_within<F>(&self, inode: &Inode, path: &str, visit: &F, depth: u32) -> (r: Result<bool, Error>) where
        F: Fn(&Self, &str, &Inode, &Enhanced) -> Result<bool, Error>,

        requires
            self.wf(),
            forall|a: &Self, b: &str, c: &Inode, d: &Enhanced| #[trigger] call_requires(*visit, (a, b, c, d)),
        ensures
            r matches Ok(true) ==> exists|e: Enhanced| #[trigger] call_ensures(
                *visit,
                (self, path, inode, &e),
                Ok::<bool, Error>(true),
            ),
            r matches Ok(false) ==> exists|a: &Self, b: &str, c: &Inode, d: &Enhanced|
                #[trigger] call_ensures(*visit, (a, b, c, d), Ok::<bool, Error>(false)),
            r matches Ok(true) && inode.stat.extracted_type == FileType::Directory ==> (dir_listing(
                self.file_bytes(inode),
                0,
                inode.checksum_prefix,
            ) matches Ok(l) && forall|j: int|
                0 <= j < l.len() && l[j].2 != "."@ && l[j].2 != ".."@ ==> #[trigger] self.visited(
                    *visit,
                    path@,
                    l[j].0,
                    l[j].2,
                )),
            match inode.stat.extracted_type {
                FileType::RegularFile | FileType::Socket | FileType::Fifo
                | FileType::CharacterDevice | FileType::BlockDevice => (forall|
                    a: &Self,
                    b: &str,
                    c: &Inode,
                    d: &Enhanced,
                    res: Result<bool, Error>,
                | #[trigger] call_ensures(*visit, (a, b, c, d), res) ==> res matches Ok(true)) ==> r matches Ok(true),
                _ => true,
            },
        decreases depth,
    {
        let enhanced = self.enhance(inode)?;
        let verdict = visit(self, path, inode, &enhanced);
        match verdict {
            Ok(true) => {},
            Ok(false) => return Ok(false),
            Err(e) => return Err(e),
        }
        if let Enhanced::Directory(entries) = enhanced {
            if depth == 0 {
                return Err(assumption_failed("directory tree is nested too deep"));
            }
            assert(inode.stat.extracted_type == FileType::Directory);
            let dot = ".".to_owned();
            let dot_dot = "..".to_owned();
            let mut i: usize = 0;
            while i < entries.len()
                invariant
                    i <= entries@.len(),
                    depth > 0,
                    self.wf(),
                    forall|a: &Self, b: &str, c: &Inode, d: &Enhanced| #[trigger] call_requires(*visit, (a, b, c, d)),
                    call_ensures(*visit, (self, path, inode, &enhanced), Ok::<bool, Error>(true)),
                    dot@ == "."@,
                    dot_dot@ == ".."@,
                    inode.stat.extracted_type == FileType::Directory,
                    dir_listing(self.file_bytes(inode), 0, inode.checksum_prefix) == Ok::<
                        Seq<(u32, FileType, Seq<char>)>,
                        ErrorKind,
                    >(entries_view(entries@)),
                    forall|j: int|
                        0 <= j < i && entries@[j].name@ != "."@ && entries@[j].name@ != ".."@
                            ==> #[trigger] self.visited(*visit, path@, entries@[j].inode, entries@[j].name@),
                decreases entries@.len() - i,
            {
                let entry = &entries[i];
                if entry.name != dot && entry.name != dot_dot {
                    let child = self.load_inode(entry.inode)?;
                    let child_path = join_path(path, &entry.name);
                    let cp = child_path.as_str();
                    if !self.walk_within(&child, cp, visit, depth - 1)? {
                        return Ok(false);
                    }
                    assert(self.visited(*visit, path@, entries@[i as int].inode, entries@[i as int].name@)) by {
                        let d = choose|d: Enhanced| #[trigger] call_ensures(
                            *visit,
                            (self, cp, &child, &d),
                            Ok::<bool, Error>(true),
                        );
                        assert(cp@ == joined(path@, entries@[i as int].name@));
                    }
                }
                i += 1;
            }
            proof {
                let l = entries_view(entries@);
                assert forall|j: int|
                    0 <= j < l.len() && l[j].2 != "."@ && l[j].2 != ".."@ implies #[trigger] self.visited(
                    *visit,
                    path@,
                    l[j].0,
                    l[j].2,
                ) by {
                    assert(l[j] == entry_view(entries@[j]));
                }
            }
        }
        Ok(true)
    }
}

impl<R: ReadAt, M: MetadataCrypto> SuperBlock<InnerReader<R, M>> {
    /// Open a filesystem whose metadata pages `metadata_crypto` decrypts.
    pub fn new_with_crypto(inner: R, metadata_crypto: M) -> (r: Result<Self, Error>)
        ensures
            r matches Ok(s) ==> opened_from(
                InnerReader { inner, metadata_crypto },
                Options { checksums: Checksums::Required },
                s,
            ),
            superblock_outcome(
                InnerReader { inner, metadata_crypto }.contents(),
                Options { checksums: Checksums::Required },
                r,
            ),
    {
        Self::new_with_options_and_crypto(inner, &Options::default(), metadata_crypto)
    }

    pub fn new_with_options_and_crypto(inner: R, options: &Options, metadata_crypto: M) -> (r:
        Result<Self, Error>)
        ensures
            r matches Ok(s) ==> opened_from(InnerReader { inner, metadata_crypto }, *options, s),
            superblock_outcome(InnerReader { inner, metadata_crypto }.contents(), *options, r),
    {
        superblock(InnerReader::new(inner, metadata_crypto), options)
    }

    pub fn get_metadata_crypto(&self) -> (r: &M)
        ensures
            r == &self.inner.metadata_crypto,
    {
        &self.inner.metadata_crypto
    }

    pub fn set_metadata_crypto(&mut self, crypto: M)
        ensures
            final(self).inner.metadata_crypto == crypto,
            final(self).inner.inner == old(self).inner.inner,
            final(self).groups == old(self).groups,
            final(self).uuid == old(self).uuid,
            final(self).uuid_checksum == old(self).uuid_checksum,
            final(self).load_xattrs == old(self).load_xattrs,
    {
        self.inner.metadata_crypto = crypto;
    }
}

} // verus!
