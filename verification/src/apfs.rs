//! APFS container **detection** and volume enumeration (no metadata undelete).
//!
//! APFS is Apple's modern, copy-on-write filesystem. A deleted file leaves no stale
//! record to scavenge: the object map and the file-system B-trees are rewritten
//! through checkpoints, and the old objects are reclaimed. This module therefore
//! *recognises* an APFS container and lists the **volumes** inside it (by name), but
//! recovers nothing itself.
//!
//! Volume enumeration reads the container superblock at the start of the container,
//! resolves its file-system object IDs through the container object map (a B-tree),
//! and reads each volume superblock's name. It is best-effort: it uses the
//! superblock at block 0, and any parse failure simply yields no names rather than
//! failing detection.

use vstd::prelude::*;

pub mod trees;

use crate::bytes::{
    bytes_at, get_le16, get_le32, get_le64, has_at, imin, le16, le32, le64, sat64, sat_mul,
};
use crate::numbers::{is_power_between, lemma_power, lemma_power_values, power, power_between};
use crate::recover::options::{nothing, RecoverOptions, RecoverStats};
use crate::source::{intact, BlockSource};
use crate::text::{all_among, string_list};
use crate::volume::{
    first_nul, marked_at, nul_text, read_structure, structure, text_field, viewed, VolumeError,
};

verus! {

/// Most volumes in a container.
pub const MAX_VOLUMES: usize = 100;

/// Where the key/value storage of a B-tree node begins.
pub const BTN_DATA: usize = 56;

/// `NXSB`, the magic of a container superblock, 32 bytes into it.
pub open spec fn nx_magic() -> Seq<u8> {
    seq![0x4Eu8, 0x58, 0x53, 0x42]
}

/// `APSB`, the magic of a volume superblock, 32 bytes into it.
pub open spec fn apsb_magic() -> Seq<u8> {
    seq![0x41u8, 0x50, 0x53, 0x42]
}

/// A recognised APFS container (volume enumeration only; no metadata undelete).
pub struct Volume {
    /// Byte offset of the container within the source.
    pub offset: u64,
    pub block_size: u64,
    pub block_count: u64,
    /// Names of the volumes inside the container, best-effort. Empty when the
    /// object map could not be parsed.
    pub volume_names: Vec<String>,
}

/// What a container says.
pub struct Facts {
    pub offset: int,
    pub block_size: int,
    pub block_count: int,
    pub volume_names: Seq<Seq<char>>,
}

impl View for Volume {
    type V = Facts;

    open spec fn view(&self) -> Facts {
        Facts {
            offset: self.offset as int,
            block_size: self.block_size as int,
            block_count: self.block_count as int,
            volume_names: string_list(self.volume_names@),
        }
    }
}

/// Whether the device is not certain to serve what tells an APFS container.
pub open spec fn hard_to_tell<S: BlockSource>(src: &S, offset: int) -> bool {
    !src.readable(offset + 32, 4) || !src.readable(offset, 48)
}

/// Does the superblock at `vol_offset` carry the APFS container magic?
pub fn is_apfs<S: BlockSource>(src: &S, vol_offset: u64) -> (r: bool)
    ensures
        r ==> bytes_at(src.image(), vol_offset + 32, nx_magic()),
        !r && bytes_at(src.image(), vol_offset + 32, nx_magic()) ==> hard_to_tell(
            src,
            vol_offset as int,
        ),
        intact(src) ==> r == bytes_at(src.image(), vol_offset + 32, nx_magic()),
{
    let m = [0x4Eu8, 0x58, 0x53, 0x42];
    assert(m@ =~= nx_magic());
    marked_at(src, vol_offset, 32, &m)
}

// ---------------------------------------------------------------------------
// Volume names

/// A block of the container at an offset of the image; `None` when it does not lie
/// in the image.
pub open spec fn block(img: Seq<u8>, offset: int, oid: int, block_size: int) -> Option<Seq<u8>> {
    let at = offset + oid * block_size;
    if at + block_size <= img.len() {
        Some(img.subrange(at, at + block_size))
    } else {
        None
    }
}

/// Read part of a container block, `None` when it cannot be read.
fn read_part<S: BlockSource>(src: &S, offset: u64, oid: u64, block_size: u64, len: usize) -> (r:
    Option<Vec<u8>>)
    requires
        len > 0,
    ensures
        r matches Some(b) ==> b@.len() == len && structure(
            src.image(),
            offset + oid * block_size,
            len as int,
        ) == Ok::<Seq<u8>, VolumeError>(b@),
        intact(src) && r is None ==> structure(
            src.image(),
            offset + oid * block_size,
            len as int,
        ) is Err,
{
    let _size: u64 = src.size();
    let rel: u64 = match oid.checked_mul(block_size) {
        Some(n) => n,
        None => {
            return None;
        },
    };
    let at: u64 = match offset.checked_add(rel) {
        Some(n) => n,
        None => {
            return None;
        },
    };
    match read_structure(src, at, len) {
        Ok(b) => Some(b),
        Err(_) => None,
    }
}

/// Read one container block (`oid` is a physical block address relative to the
/// container start at `offset`).
fn read_block<S: BlockSource>(src: &S, offset: u64, oid: u64, block_size: u64) -> (r: Option<
    Vec<u8>,
>)
    requires
        512 <= block_size <= 0x10_0000,
    ensures
        r matches Some(b) ==> block(src.image(), offset as int, oid as int, block_size as int)
            == Some(b@) && b@.len() == block_size,
        intact(src) && r is None ==> block(
            src.image(),
            offset as int,
            oid as int,
            block_size as int,
        ) is None,
{
    read_part(src, offset, oid, block_size, block_size as usize)
}

/// The 64-bit integer at an index, zero when it does not fit.
pub open spec fn le64_or_zero(b: Seq<u8>, i: int) -> int {
    if i + 8 <= b.len() {
        le64(b, i)
    } else {
        0
    }
}

/// The `i`-th entry of an object-map leaf: a virtual object ID, and the physical
/// block that it lies in. `None` when the entry does not lie in the node.
///
/// The entries are pairs of offsets: of a key, from the end of the table, and of a
/// value, back from the end of the value area. In a root node the last 40 bytes do
/// not belong to that area.
pub open spec fn omap_entry(node: Seq<u8>, i: int) -> Option<(int, int)> {
    let toc = BTN_DATA + le16(node, 40);
    let e = toc + 4 * i;
    let key = toc + le16(node, 42) + le16(node, e);
    let end = if le16(node, 32) % 2 == 1 {
        node.len() - 40
    } else {
        node.len() as int
    };
    let val = end - le16(node, e + 2);
    if e + 4 > node.len() || key + 16 > node.len() || val < 0 || val + 16 > node.len() {
        None
    } else {
        Some((le64(node, key), le64(node, val + 8)))
    }
}

fn read_omap_entry(node: &[u8], i: usize) -> (r: Option<(u64, u64)>)
    requires
        512 <= node@.len() <= 0x10_0000,
        i <= 400,
    ensures
        match (r, omap_entry(node@, i as int)) {
            (Some(a), Some(b)) => a.0 == b.0 && a.1 == b.1,
            (None, None) => true,
            _ => false,
        },
{
    let toc: usize = BTN_DATA + get_le16(node, 40) as usize;
    let e: usize = toc + 4 * i;
    if e + 4 > node.len() {
        return None;
    }
    let key: usize = toc + get_le16(node, 42) as usize + get_le16(node, e) as usize;
    let end: usize = if get_le16(node, 32) % 2 == 1 {
        node.len() - 40
    } else {
        node.len()
    };
    let v: usize = get_le16(node, e + 2) as usize;
    if key + 16 > node.len() || v > end {
        return None;
    }
    let val: usize = end - v;
    if val + 16 > node.len() {
        return None;
    }
    Some((get_le64(node, key), get_le64(node, val + 8)))
}

/// How many entries of a leaf are looked at.
pub open spec fn omap_len(node: Seq<u8>) -> int {
    imin(imin(le32(node, 36), le16(node, 42) / 4), 400)
}

/// The physical block of an object, by the first `n` entries: a later entry of the
/// same object replaces an earlier one.
pub open spec fn resolved(node: Seq<u8>, oid: int, n: int) -> Option<int>
    decreases n,
{
    if n <= 0 {
        None
    } else {
        match omap_entry(node, n - 1) {
            Some((o, p)) => if o == oid {
                Some(p)
            } else {
                resolved(node, oid, n - 1)
            },
            None => resolved(node, oid, n - 1),
        }
    }
}

/// Find the physical block of an object.
fn resolve(node: &[u8], oid: u64) -> (r: Option<u64>)
    requires
        512 <= node@.len() <= 0x10_0000,
    ensures
        match (r, resolved(node@, oid as int, omap_len(node@))) {
            (Some(a), Some(b)) => a == b,
            (None, None) => true,
            _ => false,
        },
{
    let nkeys: usize = get_le32(node, 36) as usize;
    let room: usize = get_le16(node, 42) as usize / 4;
    let mut n: usize = if nkeys <= room {
        nkeys
    } else {
        room
    };
    if n > 400 {
        n = 400;
    }
    while n > 0
        invariant
            512 <= node@.len() <= 0x10_0000,
            n <= 400,
            resolved(node@, oid as int, omap_len(node@)) == resolved(node@, oid as int, n as int),
        decreases n,
    {
        match read_omap_entry(node, n - 1) {
            Some((o, p)) => {
                if o == oid {
                    return Some(p);
                }
            },
            None => {},
        }
        n = n - 1;
    }
    None
}

/// The name in the volume superblock at a physical block.
pub open spec fn volume_name(img: Seq<u8>, offset: int, paddr: int, block_size: int) -> Option<
    Seq<char>,
> {
    match structure(img, offset + paddr * block_size, 960) {
        Err(_) => None,
        Ok(b) => {
            let raw = b.subrange(704, 960);
            if !bytes_at(b, 32, apsb_magic()) || first_nul(raw, 0) == 0 {
                None
            } else {
                Some(nul_text(raw))
            }
        },
    }
}

/// Read a volume superblock at physical block `paddr` and return its name.
fn read_volume_name<S: BlockSource>(src: &S, offset: u64, paddr: u64, block_size: u64) -> (r:
    Option<String>)
    ensures
        r matches Some(t) ==> volume_name(
            src.image(),
            offset as int,
            paddr as int,
            block_size as int,
        ) == Some(t@),
        intact(src) && r is None ==> volume_name(
            src.image(),
            offset as int,
            paddr as int,
            block_size as int,
        ) is None,
{
    let b = match read_part(src, offset, paddr, block_size, 960) {
        Some(b) => b,
        None => {
            return None;
        },
    };
    let s = b.as_slice();
    let m = [0x41u8, 0x50, 0x53, 0x42];
    assert(m@ =~= apsb_magic());
    let raw = vstd::slice::slice_subrange(s, 704, 960);
    if !has_at(s, 32, &m) || raw[0] == 0 {
        return None;
    }
    proof {
        crate::volume::lemma_first_nul(raw@, 1);
    }
    Some(text_field(raw))
}

/// The names of the volumes that a superblock lists, from the `i`-th on.
pub open spec fn names_from(
    img: Seq<u8>,
    offset: int,
    block_size: int,
    sb: Seq<u8>,
    node: Seq<u8>,
    i: int,
) -> Seq<Seq<char>>
    decreases MAX_VOLUMES - i,
{
    let oid = le64_or_zero(sb, 184 + 8 * i);
    if i >= MAX_VOLUMES || i >= le32(sb, 180) {
        Seq::empty()
    } else {
        let rest = names_from(img, offset, block_size, sb, node, i + 1);
        if oid == 0 {
            rest
        } else {
            match resolved(node, oid, omap_len(node)) {
                None => rest,
                Some(p) => match volume_name(img, offset, p, block_size) {
                    None => rest,
                    Some(name) => seq![name] + rest,
                },
            }
        }
    }
}

/// The names of the volumes in a container: those that its superblock lists, found
/// through its object map. Only an object map that is a single leaf is followed.
pub open spec fn container_names(img: Seq<u8>, offset: int, block_size: int) -> Seq<Seq<char>> {
    match block(img, offset, 0, block_size) {
        None => Seq::empty(),
        Some(sb) => if le64(sb, 160) == 0 {
            Seq::empty()
        } else {
            match block(img, offset, le64(sb, 160), block_size) {
                None => Seq::empty(),
                Some(omap) => if le64(omap, 48) == 0 {
                    Seq::empty()
                } else {
                    match block(img, offset, le64(omap, 48), block_size) {
                        None => Seq::empty(),
                        Some(node) => if le16(node, 34) != 0 {
                            Seq::empty()
                        } else {
                            names_from(img, offset, block_size, sb, node, 0)
                        },
                    }
                },
            }
        },
    }
}

fn list_names<S: BlockSource>(
    src: &S,
    offset: u64,
    block_size: u64,
    sb: &[u8],
    node: &[u8],
) -> (r: Vec<String>)
    requires
        512 <= block_size <= 0x10_0000,
        sb@.len() == block_size,
        node@.len() == block_size,
    ensures
        all_among(
            string_list(r@),
            names_from(src.image(), offset as int, block_size as int, sb@, node@, 0),
        ),
        intact(src) ==> string_list(r@) == names_from(
            src.image(),
            offset as int,
            block_size as int,
            sb@,
            node@,
            0,
        ),
{
    let ghost img = src.image();
    let ghost whole = names_from(img, offset as int, block_size as int, sb@, node@, 0);
    let max_fs: usize = get_le32(sb, 180) as usize;
    let mut out: Vec<String> = Vec::new();
    let mut i: usize = 0;
    assert(string_list(out@) + whole =~= whole);
    assert(all_among(whole, whole)) by {
        assert forall|k: int| 0 <= k < whole.len() implies whole.contains(#[trigger] whole[k]) by {}
    }
    while i < MAX_VOLUMES && i < max_fs
        invariant
            img == src.image(),
            512 <= block_size <= 0x10_0000,
            sb@.len() == block_size,
            node@.len() == block_size,
            max_fs == le32(sb@, 180),
            i <= MAX_VOLUMES,
            all_among(string_list(out@), whole),
            all_among(
                names_from(img, offset as int, block_size as int, sb@, node@, i as int),
                whole,
            ),
            intact(src) ==> whole == string_list(out@) + names_from(
                img,
                offset as int,
                block_size as int,
                sb@,
                node@,
                i as int,
            ),
        decreases MAX_VOLUMES - i,
    {
        let ghost rest = names_from(
            img,
            offset as int,
            block_size as int,
            sb@,
            node@,
            i + 1,
        );
        let ghost before = string_list(out@);
        let ghost here = names_from(img, offset as int, block_size as int, sb@, node@, i as int);
        proof {
            assert forall|k: int| 0 <= k < rest.len() implies whole.contains(#[trigger] rest[k]) by {
                if here.len() == rest.len() {
                    assert(here[k] == rest[k]);
                } else {
                    assert(here[k + 1] == rest[k]);
                }
            }
        }
        let at: usize = 184 + 8 * i;
        if at + 8 <= sb.len() {
            let oid: u64 = get_le64(sb, at);
            if oid != 0 {
                match resolve(node, oid) {
                    None => {},
                    Some(p) => {
                        match read_volume_name(src, offset, p, block_size) {
                            None => {},
                            Some(name) => {
                                let ghost m = name@;
                                out.push(name);
                                assert(string_list(out@) =~= before.push(m));
                                assert(here[0] == m);
                                assert(before.push(m) + rest =~= before + (seq![m] + rest));
                            },
                        }
                    },
                }
            }
        }
        i = i + 1;
    }
    assert(string_list(out@) + Seq::<Seq<char>>::empty() =~= string_list(out@));
    out
}

/// Resolve and read the name of every volume in the container at `offset`. Where
/// something cannot be read, there are no names.
fn enumerate_volumes<S: BlockSource>(src: &S, offset: u64, block_size: u64) -> (r: Vec<String>)
    requires
        512 <= block_size <= 0x10_0000,
    ensures
        all_among(
            string_list(r@),
            container_names(src.image(), offset as int, block_size as int),
        ),
        intact(src) ==> string_list(r@) == container_names(
            src.image(),
            offset as int,
            block_size as int,
        ),
{
    let none: Vec<String> = Vec::new();
    assert(string_list(none@) =~= Seq::empty());
    let sb = match read_block(src, offset, 0, block_size) {
        Some(b) => b,
        None => {
            return none;
        },
    };
    let omap_oid: u64 = get_le64(sb.as_slice(), 160);
    if omap_oid == 0 {
        return none;
    }
    let omap = match read_block(src, offset, omap_oid, block_size) {
        Some(b) => b,
        None => {
            return none;
        },
    };
    let tree_oid: u64 = get_le64(omap.as_slice(), 48);
    if tree_oid == 0 {
        return none;
    }
    let node = match read_block(src, offset, tree_oid, block_size) {
        Some(b) => b,
        None => {
            return none;
        },
    };
    if get_le16(node.as_slice(), 34) != 0 {
        return none;
    }
    list_names(src, offset, block_size, sb.as_slice(), node.as_slice())
}

// ---------------------------------------------------------------------------
// Detection

/// The container that a superblock describes, without the names of its volumes.
pub open spec fn container_geometry(b: Seq<u8>, offset: int) -> Result<Facts, VolumeError> {
    let block_size = le32(b, 36);
    if !bytes_at(b, 32, nx_magic()) {
        Err(VolumeError::NotRecognised)
    } else if le16(b, 24) != 1 || !power_between(block_size, 9, 20) || le64(b, 40) == 0 {
        Err(VolumeError::Implausible)
    } else {
        Ok(Facts { offset, block_size, block_count: le64(b, 40), volume_names: Seq::empty() })
    }
}

/// The APFS container at an offset of the image, without the names of its volumes.
pub open spec fn apfs_geometry(img: Seq<u8>, offset: int) -> Result<Facts, VolumeError> {
    match structure(img, offset, 48) {
        Err(e) => Err(e),
        Ok(b) => container_geometry(b, offset),
    }
}

/// The APFS container at an offset of the image.
pub open spec fn apfs_volume(img: Seq<u8>, offset: int) -> Result<Facts, VolumeError> {
    match apfs_geometry(img, offset) {
        Err(e) => Err(e),
        Ok(f) => Ok(Facts { volume_names: container_names(img, offset, f.block_size), ..f }),
    }
}

impl Volume {
    /// Parse the container superblock at `offset`.
    pub fn parse<S: BlockSource>(src: &S, offset: u64) -> (r: Result<Volume, VolumeError>)
        ensures
            match r {
                Ok(v) => apfs_geometry(src.image(), offset as int) == Ok::<Facts, VolumeError>(
                    Facts { volume_names: Seq::empty(), ..v@ },
                ),
                Err(VolumeError::Read(_)) => hard_to_tell(src, offset as int),
                Err(e) => apfs_geometry(src.image(), offset as int) == Err::<Facts, VolumeError>(e),
            },
            r matches Ok(v) ==> all_among(
                v@.volume_names,
                container_names(src.image(), offset as int, v@.block_size),
            ),
            intact(src) ==> viewed(r) == apfs_volume(src.image(), offset as int),
    {
        let b = match read_structure(src, offset, 48) {
            Ok(b) => b,
            Err(e) => {
                return Err(e);
            },
        };
        let s = b.as_slice();
        let m = [0x4Eu8, 0x58, 0x53, 0x42];
        assert(m@ =~= nx_magic());
        if !has_at(s, 32, &m) {
            return Err(VolumeError::NotRecognised);
        }
        let block_size: u64 = get_le32(s, 36) as u64;
        let block_count: u64 = get_le64(s, 40);
        if get_le16(s, 24) != 1 || !is_power_between(block_size, 9, 20) || block_count == 0 {
            return Err(VolumeError::Implausible);
        }
        proof {
            let k = choose|k: int| 9 <= k <= 20 && block_size == #[trigger] power(k);
            lemma_power_values();
            lemma_power(9, k);
            lemma_power(k, 20);
        }
        let volume_names = enumerate_volumes(src, offset, block_size);
        Ok(Volume { offset, block_size, block_count, volume_names })
    }

    /// Total size of the container in bytes.
    pub fn size(&self) -> (r: u64)
        ensures
            r == sat64(self.block_count * self.block_size),
    {
        sat_mul(self.block_count, self.block_size)
    }

    /// The container block (allocation unit) size in bytes.
    pub fn block_size(&self) -> (r: u64)
        ensures
            r == self.block_size,
    {
        self.block_size
    }

    /// Short filesystem label.
    pub fn fs_label(&self) -> (r: &'static str)
        ensures
            r@ == "APFS"@,
    {
        "APFS"
    }

    /// Names of the volumes contained in this APFS container (empty when the object
    /// map could not be parsed).
    pub fn volume_names(&self) -> (r: &Vec<String>)
        ensures
            *r == self.volume_names,
    {
        &self.volume_names
    }

    /// APFS metadata undelete is not supported: nothing is ever recovered, so that a mixed disk's other volumes still
    /// are. Carving is the fallback.
    pub fn recover_deleted<S: BlockSource>(&self, _src: &S, _opts: &RecoverOptions) -> (r:
        RecoverStats)
        ensures
            r.view() == nothing(),
    {
        RecoverStats::default()
    }
}

} // verus!
