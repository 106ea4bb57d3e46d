//! Filesystem-aware recovery for ext2/ext3/ext4 volumes.
//!
//! When a file is removed, ext4 clears the inode's link count, stamps a deletion
//! time, and frees it; the directory entry is unlinked by folding its space into
//! the previous entry. The bytes of the removed entry, its **name and inode
//! number**, usually remain in the directory block's *slack space*, and the inode
//! (with its **extent tree** or block pointers) often survives until reused.
//!
//! This backend therefore walks the live directory tree, scans the slack inside
//! each directory block for stale entries, and for any whose inode is now deleted
//! but still has a readable block map, recovers the file with its original name
//! and path. If the inode's extent tree was zeroed on deletion, or the inode has
//! been reused, the contents cannot be found from metadata alone: carving is the
//! fallback in that case.

use vstd::prelude::*;

pub mod blocks;
pub mod dirents;
pub mod free;
pub mod named;
pub mod recorded;
pub mod stored;
pub mod walk;
pub mod whole;

use crate::bytes::{get_le16, get_le32, le16, le32, sat64, sat_mul};
use crate::numbers::{lemma_power, lemma_power_values, power, two_to};
use crate::recover::options::{format_uuid, same_string, uuid_text};
use crate::source::{intact, BlockSource, ReadError, MAX_SOURCE_LEN};
use crate::volume::{nul_text, read_structure, structure, text_field, VolumeError};

verus! {

pub const SUPERBLOCK_OFFSET: u64 = 1024;

pub const EXT_MAGIC: u16 = 0xEF53;

/// A parsed ext2/3/4 volume.
pub struct Volume {
    /// Byte offset of the volume within the source.
    pub offset: u64,
    pub block_size: u64,
    pub inode_size: u64,
    pub inodes_per_group: u32,
    /// Whether directory entries carry the file type.
    pub filetype_dirents: bool,
    pub total_blocks: u64,
    /// Block number of each group's inode table.
    pub inode_tables: Vec<u64>,
    pub compat: u32,
    pub incompat: u32,
    pub ro_compat: u32,
    pub state: u16,
    pub mkfs_time: u32,
    pub write_time: u32,
    pub uuid_bytes: Vec<u8>,
    pub name: String,
}

/// What a superblock says.
pub struct Super {
    pub offset: int,
    pub block_size: int,
    pub inode_size: int,
    pub inodes_per_group: int,
    pub filetype_dirents: bool,
    pub total_blocks: int,
    pub inode_tables: Seq<u64>,
    pub compat: int,
    pub incompat: int,
    pub ro_compat: int,
    pub state: int,
    pub mkfs_time: int,
    pub write_time: int,
    pub uuid_bytes: Seq<u8>,
    pub name: Seq<char>,
}

/// Whether a bit of a set of flags is on.
pub open spec fn flag(flags: int, bit: int) -> bool {
    flags / bit % 2 == 1
}

fn has_flag(flags: u32, bit: u32) -> (r: bool)
    requires
        bit > 0,
    ensures
        r == flag(flags as int, bit as int),
{
    flags / bit % 2 == 1
}

/// Whether the superblock of the volume at an offset carries the ext magic.
pub open spec fn ext_marked(img: Seq<u8>, offset: int) -> bool {
    let at = offset + SUPERBLOCK_OFFSET + 0x38;
    at + 2 <= img.len() && le16(img, at) == EXT_MAGIC
}

/// Whether the device is not certain to serve what tells an ext volume: its superblock,
/// or a descriptor of one of its groups.
pub open spec fn hard_to_tell<S: BlockSource>(src: &S, offset: int) -> bool {
    let at = offset + SUPERBLOCK_OFFSET;
    let sb = src.image().subrange(at, at + 1024);
    ||| !src.readable(at + 0x38, 2)
    ||| !src.readable(at, 1024)
    ||| hard_tables(src, descriptors_at(sb, offset), desc_size_of(sb), group_count(sb))
}

/// Whether the device is not certain to serve some descriptor of the groups.
pub open spec fn hard_tables<S: BlockSource>(
    src: &S,
    start: int,
    desc_size: int,
    count: int,
) -> bool {
    exists|g: int| 0 <= g < count && #[trigger] hard_group(src, start, desc_size, g)
}

/// Whether the device is not certain to serve the descriptor of a group.
pub open spec fn hard_group<S: BlockSource>(src: &S, start: int, desc_size: int, g: int) -> bool {
    !src.readable(start + g * desc_size, desc_size)
}

/// Does the superblock at `offset + 1024` carry the ext magic?
pub fn is_ext_volume<S: BlockSource>(src: &S, offset: u64) -> (r: bool)
    ensures
        r ==> ext_marked(src.image(), offset as int),
        !r && ext_marked(src.image(), offset as int) ==> hard_to_tell(src, offset as int),
        intact(src) ==> r == ext_marked(src.image(), offset as int),
{
    if offset > MAX_SOURCE_LEN {
        let _size: u64 = src.size();
        return false;
    }
    let at: u64 = offset + SUPERBLOCK_OFFSET + 0x38;
    match src.read_at(at, 2) {
        Ok(b) => if b.len() < 2 {
            false
        } else {
            assert(b@ =~= src.image().subrange(at as int, at + 2));
            get_le16(b.as_slice(), 0) == EXT_MAGIC
        },
        Err(_) => false,
    }
}

/// The inode tables of the groups from the `g`-th on. The table of descriptors
/// ends early where the source does.
pub open spec fn group_tables(
    img: Seq<u8>,
    start: int,
    desc_size: int,
    wide: bool,
    g: int,
    count: int,
) -> Seq<u64>
    decreases count - g,
{
    let at = start + g * desc_size;
    if g >= count || at + desc_size > img.len() {
        Seq::empty()
    } else {
        let hi = if desc_size >= 64 && wide {
            le32(img, at + 0x28)
        } else {
            0
        };
        seq![(le32(img, at + 8) + 0x1_0000_0000 * hi) as u64] + group_tables(
            img,
            start,
            desc_size,
            wide,
            g + 1,
            count,
        )
    }
}

/// The bytes of a block; a shift that leaves no bits leaves no block.
pub open spec fn block_size_of(log: int) -> int {
    if log > 53 {
        0
    } else {
        1024 * power(log)
    }
}

/// The size of a group descriptor.
pub open spec fn desc_size_of(sb: Seq<u8>) -> int {
    if flag(le32(sb, 0x60), 0x80) && le16(sb, 0xFE) >= 32 {
        le16(sb, 0xFE)
    } else {
        32
    }
}

/// How many block groups there are.
pub open spec fn group_count(sb: Seq<u8>) -> int {
    (le32(sb, 0) + le32(sb, 0x28) - 1) / le32(sb, 0x28)
}

/// Where the group descriptors of the volume at an offset begin.
pub open spec fn descriptors_at(sb: Seq<u8>, offset: int) -> int {
    offset + (le32(sb, 0x14) + 1) * block_size_of(le32(sb, 0x18))
}

/// The volume that a superblock describes.
pub open spec fn ext_super(img: Seq<u8>, sb: Seq<u8>, offset: int) -> Result<Super, VolumeError> {
    let incompat = le32(sb, 0x60);
    let wide = flag(incompat, 0x80);
    let block_size = block_size_of(le32(sb, 0x18));
    let tables = group_tables(
        img,
        descriptors_at(sb, offset),
        desc_size_of(sb),
        wide,
        0,
        group_count(sb),
    );
    if le16(sb, 0x38) != EXT_MAGIC {
        Err(VolumeError::NotRecognised)
    } else if block_size == 0 || le32(sb, 0x28) == 0 || le32(sb, 0x20) == 0 || tables.len() == 0 {
        Err(VolumeError::Implausible)
    } else {
        Ok(
            Super {
                offset,
                block_size,
                inode_size: if le16(sb, 0x58) == 0 {
                    128
                } else {
                    le16(sb, 0x58)
                },
                inodes_per_group: le32(sb, 0x28),
                filetype_dirents: flag(incompat, 2),
                total_blocks: le32(sb, 4) + if wide {
                    0x1_0000_0000 * le32(sb, 0x150)
                } else {
                    0
                },
                inode_tables: tables,
                compat: le32(sb, 0x5C),
                incompat,
                ro_compat: le32(sb, 0x64),
                state: le16(sb, 0x3A),
                mkfs_time: le32(sb, 0x108),
                write_time: le32(sb, 0x30),
                uuid_bytes: sb.subrange(0x68, 0x78),
                name: nul_text(sb.subrange(0x78, 0x88)),
            },
        )
    }
}

/// The ext volume at an offset of the image.
pub open spec fn ext_volume(img: Seq<u8>, offset: int) -> Result<Super, VolumeError> {
    match structure(img, offset + SUPERBLOCK_OFFSET, 1024) {
        Ok(sb) => ext_super(img, sb, offset),
        Err(e) => Err(e),
    }
}

impl Volume {
    /// What the volume says.
    pub open spec fn view(&self) -> Super {
        Super {
            offset: self.offset as int,
            block_size: self.block_size as int,
            inode_size: self.inode_size as int,
            inodes_per_group: self.inodes_per_group as int,
            filetype_dirents: self.filetype_dirents,
            total_blocks: self.total_blocks as int,
            inode_tables: self.inode_tables@,
            compat: self.compat as int,
            incompat: self.incompat as int,
            ro_compat: self.ro_compat as int,
            state: self.state as int,
            mkfs_time: self.mkfs_time as int,
            write_time: self.write_time as int,
            uuid_bytes: self.uuid_bytes@,
            name: self.name@,
        }
    }

    /// What holds of every parsed volume.
    pub open spec fn wf(&self) -> bool {
        &&& self.offset <= MAX_SOURCE_LEN
        &&& 1024 <= self.block_size
        &&& 0 < self.inode_size <= 65535
        &&& 0 < self.inodes_per_group
        &&& self.uuid_bytes@.len() == 16
    }
}

fn shifted_block(log: u32) -> (r: u64)
    ensures
        r == block_size_of(log as int),
        r == 0 || r >= 1024,
{
    if log > 53 {
        return 0;
    }
    proof {
        lemma_power_values();
        lemma_power(log as int, 53);
        lemma_power(0, log as int);
    }
    1024 * two_to(log)
}

/// Read the inode tables of the groups.
fn read_tables<S: BlockSource>(
    src: &S,
    start: u64,
    desc_size: u64,
    wide: bool,
    count: u64,
) -> (r: Result<Vec<u64>, ReadError>)
    requires
        32 <= desc_size <= 65535,
        count <= 0xFFFF_FFFF,
    ensures
        r matches Ok(v) ==> v@ == group_tables(
            src.image(),
            start as int,
            desc_size as int,
            wide,
            0,
            count as int,
        ),
        r is Err ==> hard_tables(src, start as int, desc_size as int, count as int),
        intact(src) ==> r is Ok,
{
    let ghost img = src.image();
    let size: u64 = src.size();
    let ghost whole = group_tables(
        img,
        start as int,
        desc_size as int,
        wide,
        0,
        count as int,
    );
    let mut out: Vec<u64> = Vec::new();
    let mut g: u64 = 0;
    let mut at: u64 = start;
    assert(out@ + whole =~= whole);
    assert(start + 0 * desc_size == start);
    while g < count && at <= size && desc_size <= size - at
        invariant
            img == src.image(),
            size == img.len() <= MAX_SOURCE_LEN,
            32 <= desc_size <= 65535,
            g <= count,
            at == start + g * desc_size,
            whole == group_tables(
                img,
                start as int,
                desc_size as int,
                wide,
                0,
                count as int,
            ),
            whole == out@ + group_tables(
                img,
                start as int,
                desc_size as int,
                wide,
                g as int,
                count as int,
            ),
        decreases count - g,
    {
        let d = match src.read_at(at, desc_size as usize) {
            Ok(d) => d,
            Err(e) => {
                assert(hard_group(src, start as int, desc_size as int, g as int));
                return Err(e);
            },
        };
        assert(d@ =~= img.subrange(at as int, at + desc_size));
        let lo: u64 = get_le32(d.as_slice(), 8) as u64;
        let hi: u64 = if desc_size >= 64 && wide {
            get_le32(d.as_slice(), 0x28) as u64
        } else {
            0
        };
        let ghost before = out@;
        let table: u64 = lo + hi * 0x1_0000_0000;
        out.push(table);
        let ghost rest = group_tables(
            img,
            start as int,
            desc_size as int,
            wide,
            g + 1,
            count as int,
        );
        proof {
            assert((g + 1) * desc_size == g * desc_size + desc_size) by (nonlinear_arith);
            assert(le32(d@, 8) == le32(img, at + 8));
            assert(desc_size >= 64 ==> le32(d@, 0x28) == le32(img, at + 0x28));
        }
        assert(before + (seq![table] + rest) =~= out@ + rest);
        g = g + 1;
        at = at + desc_size;
    }
    assert(out@ + Seq::<u64>::empty() =~= out@);
    Ok(out)
}

impl Volume {
    /// Parse and validate the ext superblock at `offset`.
    pub fn parse<S: BlockSource>(src: &S, offset: u64) -> (r: Result<Volume, VolumeError>)
        ensures
            match r {
                Ok(v) => ext_volume(src.image(), offset as int) == Ok::<Super, VolumeError>(
                    v.view(),
                ) && v.wf() && v.offset == offset,
                Err(VolumeError::Read(_)) => hard_to_tell(src, offset as int),
                Err(e) => ext_volume(src.image(), offset as int) == Err::<Super, VolumeError>(e),
            },
            intact(src) ==> !(r matches Err(VolumeError::Read(_))),
    {
        let ghost img = src.image();
        if offset > MAX_SOURCE_LEN {
            let _size: u64 = src.size();
            return Err(VolumeError::Truncated);
        }
        let b = match read_structure(src, offset + SUPERBLOCK_OFFSET, 1024) {
            Ok(b) => b,
            Err(e) => {
                return Err(e);
            },
        };
        let s = b.as_slice();
        if get_le16(s, 0x38) != EXT_MAGIC {
            return Err(VolumeError::NotRecognised);
        }
        let inodes_count: u64 = get_le32(s, 0) as u64;
        let block_size: u64 = shifted_block(get_le32(s, 0x18));
        let first_data_block: u64 = get_le32(s, 0x14) as u64;
        let inodes_per_group: u32 = get_le32(s, 0x28);
        let incompat: u32 = get_le32(s, 0x60);
        let wide = has_flag(incompat, 0x80);
        if block_size == 0 || inodes_per_group == 0 || get_le32(s, 0x20) == 0 {
            return Err(VolumeError::Implausible);
        }
        let raw_desc: u64 = get_le16(s, 0xFE) as u64;
        let desc_size: u64 = if wide && raw_desc >= 32 {
            raw_desc
        } else {
            32
        };
        proof {
            lemma_groups(inodes_count as int, inodes_per_group as int);
        }
        let groups: u64 = (inodes_count + inodes_per_group as u64 - 1) / inodes_per_group as u64;
        let size: u64 = src.size();
        let start: u128 = offset as u128 + block_start(first_data_block + 1, block_size);
        let tables: Vec<u64> = if start > size as u128 {
            let none: Vec<u64> = Vec::new();
            assert(none@ =~= group_tables(
                img,
                start as int,
                desc_size as int,
                wide,
                0,
                groups as int,
            ));
            none
        } else {
            match read_tables(src, start as u64, desc_size, wide, groups) {
                Ok(t) => t,
                Err(e) => {
                    return Err(VolumeError::Read(e));
                },
            }
        };
        if tables.len() == 0 {
            return Err(VolumeError::Implausible);
        }
        let raw_inode: u64 = get_le16(s, 0x58) as u64;
        let hi: u64 = if wide {
            get_le32(s, 0x150) as u64
        } else {
            0
        };
        let name_part = vstd::slice::slice_subrange(s, 0x78, 0x88);
        let uuid_part = crate::bytes::sub_vec(s, 0x68, 0x78);
        Ok(
            Volume {
                offset,
                block_size,
                inode_size: if raw_inode == 0 {
                    128
                } else {
                    raw_inode
                },
                inodes_per_group,
                filetype_dirents: has_flag(incompat, 2),
                total_blocks: get_le32(s, 4) as u64 + hi * 0x1_0000_0000,
                inode_tables: tables,
                compat: get_le32(s, 0x5C),
                incompat,
                ro_compat: get_le32(s, 0x64),
                state: get_le16(s, 0x3A),
                mkfs_time: get_le32(s, 0x108),
                write_time: get_le32(s, 0x30),
                uuid_bytes: uuid_part,
                name: text_field(name_part),
            },
        )
    }
}

proof fn lemma_groups(inodes: int, per_group: int)
    requires
        0 <= inodes <= 0xFFFF_FFFF,
        1 <= per_group,
    ensures
        0 <= (inodes + per_group - 1) / per_group <= 0xFFFF_FFFF,
{
    let n = inodes + per_group - 1;
    assert(0 <= n / per_group <= inodes) by (nonlinear_arith)
        requires
            n == inodes + per_group - 1,
            0 <= inodes,
            1 <= per_group,
    ;
}

/// Where a block begins, from the start of its volume.
fn block_start(block: u64, block_size: u64) -> (r: u128)
    ensures
        r == block * block_size,
        r <= 0xFFFF_FFFF_FFFF_FFFF * 0xFFFF_FFFF_FFFF_FFFF,
{
    proof {
        assert(0 <= block * block_size <= 0xFFFF_FFFF_FFFF_FFFF * 0xFFFF_FFFF_FFFF_FFFF)
            by (nonlinear_arith)
            requires
                block <= 0xFFFF_FFFF_FFFF_FFFF,
                block_size <= 0xFFFF_FFFF_FFFF_FFFF,
        ;
    }
    block as u128 * block_size as u128
}

// ---------------------------------------------------------------------------
// What the volume tells

/// The variant that the feature flags make: extents, 64-bit block numbers or
/// flexible groups are ext4's, a journal is ext3's.
pub open spec fn ext_version(compat: int, incompat: int) -> &'static str {
    if flag(incompat, 0x40) || flag(incompat, 0x80) || flag(incompat, 0x200) {
        "ext4"
    } else if flag(compat, 4) {
        "ext3"
    } else {
        "ext2"
    }
}

/// Unix seconds, unless none are recorded.
pub open spec fn recorded_time(secs: u32) -> Option<u64> {
    if secs == 0 {
        None
    } else {
        Some(secs as u64)
    }
}

impl Volume {
    /// Total size of the volume in bytes.
    pub fn size(&self) -> (r: u64)
        ensures
            r == sat64(self.total_blocks * self.block_size),
    {
        sat_mul(self.total_blocks, self.block_size)
    }

    /// Bytes of a block.
    pub fn block_size(&self) -> (r: u64)
        ensures
            r == self.block_size,
    {
        self.block_size
    }

    /// The precise variant: `"ext2"`, `"ext3"` or `"ext4"`.
    pub fn version(&self) -> (r: &'static str)
        ensures
            r == ext_version(self.compat as int, self.incompat as int),
    {
        if has_flag(self.incompat, 0x40) || has_flag(self.incompat, 0x80) || has_flag(
            self.incompat,
            0x200,
        ) {
            "ext4"
        } else if has_flag(self.compat, 4) {
            "ext3"
        } else {
            "ext2"
        }
    }

    /// The volume name.
    pub fn label(&self) -> (r: &str)
        ensures
            r@ == self.name@,
    {
        self.name.as_str()
    }

    /// The filesystem UUID, unless it is unset.
    pub fn uuid(&self) -> (r: Option<String>)
        requires
            self.wf(),
        ensures
            same_string(r, uuid_text(self.uuid_bytes@)),
    {
        format_uuid(self.uuid_bytes.as_slice())
    }

    /// When the filesystem was made, as Unix seconds.
    pub fn created_time(&self) -> (r: Option<u64>)
        ensures
            r == recorded_time(self.mkfs_time),
    {
        if self.mkfs_time == 0 {
            None
        } else {
            Some(self.mkfs_time as u64)
        }
    }

    /// When the filesystem was last written, as Unix seconds.
    pub fn written_time(&self) -> (r: Option<u64>)
        ensures
            r == recorded_time(self.write_time),
    {
        if self.write_time == 0 {
            None
        } else {
            Some(self.write_time as u64)
        }
    }

    /// Was the volume cleanly unmounted, without errors?
    pub fn is_clean(&self) -> (r: bool)
        ensures
            r == (self.state % 4 == 1),
    {
        self.state % 4 == 1
    }
}

} // verus!
