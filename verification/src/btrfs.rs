//! Btrfs **detection**, label, and subvolume enumeration (no metadata undelete).
//!
//! Btrfs is a copy-on-write filesystem: a deleted file's metadata is not left in
//! place to be scavenged, because the B-trees are rewritten and old nodes are
//! eventually reclaimed. This module *recognises* a Btrfs volume, reports its
//! geometry and filesystem **label**, and lists its **subvolumes** by name, but it
//! recovers nothing itself.
//!
//! Subvolume enumeration walks two B-trees, translating logical to physical
//! addresses through the chunk map: it bootstraps the map from the superblock's
//! system-chunk array, reads the **chunk tree** to complete it, then reads the **root
//! tree** and collects the names from its reference items. It handles single-device,
//! single-leaf trees and is strictly best-effort: any unexpected structure simply
//! yields no subvolumes without failing detection.

use vstd::prelude::*;

pub mod trees;

use crate::bytes::{
    bytes_at, get_le16, get_le32, get_le64, has_at, imin, le16, le32, le64, sub_vec,
};
use crate::numbers::{is_power_between, lemma_power, lemma_power_values, power, power_between};
use crate::recover::options::{nothing, uuid_text, RecoverOptions, RecoverStats};
use crate::source::{intact, BlockSource, MAX_SOURCE_LEN};
use crate::text::{lossy_text, opt_text, owned_opt, string_list, utf8_lossy};
use crate::volume::{
    marked_at, nul_text, read_inside, read_structure, structure, text_in, uuid_in, viewed, Identity,
    VolumeError,
};

verus! {

/// The primary superblock sits 64 KiB into the volume.
pub const SUPERBLOCK_OFFSET: u64 = 0x1_0000;

pub const SUPERBLOCK_LEN: usize = 4096;

/// Where the system-chunk array begins in the superblock.
pub const SYS_CHUNK_ARRAY: usize = 811;

/// Length of the header of a node.
pub const HEADER_LEN: usize = 101;

/// Length of an item of a leaf (key and data offset and size).
pub const ITEM_LEN: usize = 25;

/// Length of a key.
pub const DISK_KEY_LEN: usize = 17;

/// The key type of a chunk item.
pub const CHUNK_ITEM_KEY: u8 = 228;

/// The key type of a reference to a subvolume.
pub const ROOT_REF_KEY: u8 = 156;

/// Most chunks that are taken into the map.
pub const MAX_CHUNKS: usize = 4096;

/// Most subvolumes that are listed.
pub const MAX_SUBVOLUMES: usize = 4096;

/// `_BHRfS_M`, the magic, 64 bytes into the superblock.
pub open spec fn magic() -> Seq<u8> {
    seq![0x5Fu8, 0x42, 0x48, 0x52, 0x66, 0x53, 0x5F, 0x4D]
}

fn magic_bytes() -> (r: [u8; 8])
    ensures
        r@ == magic(),
{
    let r = [0x5Fu8, 0x42, 0x48, 0x52, 0x66, 0x53, 0x5F, 0x4D];
    assert(r@ =~= magic());
    r
}

/// A recognised Btrfs volume (label/geometry/subvolume reporting; no undelete).
pub struct Volume {
    /// Byte offset of the volume within the source.
    pub offset: u64,
    pub total_bytes: u64,
    pub sectorsize: u32,
    pub nodesize: u32,
    pub label: String,
    /// Filesystem UUID, `None` when unset.
    pub uuid: Option<String>,
    /// Names of the subvolumes, best-effort. Empty when the trees could not be
    /// walked.
    pub subvolumes: Vec<String>,
}

/// What a volume says.
pub struct Facts {
    pub id: Identity,
    pub sectorsize: int,
    pub nodesize: int,
    pub subvolumes: Seq<Seq<char>>,
}

impl View for Volume {
    type V = Facts;

    open spec fn view(&self) -> Facts {
        Facts {
            id: Identity {
                offset: self.offset as int,
                size: self.total_bytes as int,
                label: self.label@,
                uuid: opt_text(self.uuid),
            },
            sectorsize: self.sectorsize as int,
            nodesize: self.nodesize as int,
            subvolumes: string_list(self.subvolumes@),
        }
    }
}

/// Whether the device is not certain to serve what tells a Btrfs volume.
pub open spec fn hard_to_tell<S: BlockSource>(src: &S, offset: int) -> bool {
    ||| !src.readable(offset + SUPERBLOCK_OFFSET + 64, 8)
    ||| !src.readable(offset + SUPERBLOCK_OFFSET, SUPERBLOCK_LEN as int)
}

/// Does the superblock 64 KiB into `vol_offset` carry the Btrfs magic?
pub fn is_btrfs<S: BlockSource>(src: &S, vol_offset: u64) -> (r: bool)
    ensures
        r ==> bytes_at(src.image(), vol_offset + SUPERBLOCK_OFFSET + 64, magic()),
        !r && bytes_at(src.image(), vol_offset + SUPERBLOCK_OFFSET + 64, magic()) ==> hard_to_tell(
            src,
            vol_offset as int,
        ),
        intact(src) ==> r == bytes_at(
            src.image(),
            vol_offset + SUPERBLOCK_OFFSET + 64,
            magic(),
        ),
{
    let m = magic_bytes();
    marked_at(src, vol_offset, SUPERBLOCK_OFFSET + 64, &m)
}

// ---------------------------------------------------------------------------
// The chunk map

/// One chunk-map entry: a logical range and where it lies physically (the first
/// stripe; single-device volumes have just the one).
#[derive(Clone, Copy, Debug, PartialEq, Eq, Structural)]
pub struct Chunk {
    pub logical: u64,
    pub length: u64,
    pub physical: u64,
}

/// The map with the chunk that an item describes, unless it describes none.
pub open spec fn with_chunk(data: Seq<u8>, logical: int, m: Seq<Chunk>) -> Seq<Chunk> {
    if data.len() < 64 || le16(data, 44) == 0 || le64(data, 0) == 0 || m.len() >= MAX_CHUNKS {
        m
    } else {
        m.push(
            Chunk {
                logical: logical as u64,
                length: le64(data, 0) as u64,
                physical: le64(data, 56) as u64,
            },
        )
    }
}

/// Parse one chunk (mapping `logical`) and append it to the map.
fn parse_chunk(data: &[u8], logical: u64, chunks: &mut Vec<Chunk>)
    ensures
        final(chunks)@ == with_chunk(data@, logical as int, old(chunks)@),
{
    if data.len() < 64 || chunks.len() >= MAX_CHUNKS {
        return;
    }
    let length: u64 = get_le64(data, 0);
    if get_le16(data, 44) == 0 || length == 0 {
        return;
    }
    chunks.push(Chunk { logical, length, physical: get_le64(data, 56) });
}

/// The map after the pairs of a key and a chunk that stand in an array from `p` on.
pub open spec fn chunks_in(b: Seq<u8>, p: int, end: int, m: Seq<Chunk>) -> Seq<Chunk>
    decreases end - p,
{
    let chunk = p + DISK_KEY_LEN;
    let consumed = 48 + 32 * le16(b, chunk + 44);
    if chunk > end || m.len() >= MAX_CHUNKS || b[p + 8] != CHUNK_ITEM_KEY || chunk + 48 > end
        || le16(b, chunk + 44) == 0 || chunk + consumed > end {
        m
    } else {
        chunks_in(
            b,
            chunk + consumed,
            end,
            with_chunk(b.subrange(chunk, chunk + consumed), le64(b, p + 9), m),
        )
    }
}

/// Parse a sequence of pairs of a key and a chunk.
fn parse_chunk_array(b: &[u8], start: usize, size: usize) -> (r: Vec<Chunk>)
    requires
        start <= b@.len() <= 4096,
    ensures
        r@ == chunks_in(
            b@,
            start as int,
            imin(start + size, b@.len() as int),
            Seq::empty(),
        ),
{
    let end: usize = if size <= b.len() - start {
        start + size
    } else {
        b.len()
    };
    let mut out: Vec<Chunk> = Vec::new();
    let mut p: usize = start;
    let ghost whole = chunks_in(b@, start as int, end as int, Seq::empty());
    assert(out@ =~= Seq::empty());
    while end - p >= DISK_KEY_LEN && out.len() < MAX_CHUNKS
        invariant
            p <= end <= b@.len() <= 4096,
            whole == chunks_in(b@, start as int, end as int, Seq::empty()),
            end == imin(start + size, b@.len() as int),
            whole == chunks_in(b@, p as int, end as int, out@),
        decreases end - p,
    {
        let chunk: usize = p + DISK_KEY_LEN;
        if b[p + 8] != CHUNK_ITEM_KEY || end - chunk < 48 {
            return out;
        }
        let stripes: usize = get_le16(b, chunk + 44) as usize;
        let consumed: usize = 48 + 32 * stripes;
        if stripes == 0 || consumed > end - chunk {
            return out;
        }
        let logical: u64 = get_le64(b, p + 9);
        parse_chunk(vstd::slice::slice_subrange(b, chunk, chunk + consumed), logical, &mut out);
        p = chunk + consumed;
    }
    out
}

/// The first chunk from the `i`-th on that holds a logical address.
pub open spec fn chunk_holding(m: Seq<Chunk>, logical: int, i: int) -> Option<Chunk>
    decreases m.len() - i,
{
    if i >= m.len() {
        None
    } else if m[i].logical <= logical < m[i].logical + m[i].length {
        Some(m[i])
    } else {
        chunk_holding(m, logical, i + 1)
    }
}

/// The `len` bytes at a logical address of the volume at an offset.
pub open spec fn logical_bytes(
    img: Seq<u8>,
    offset: int,
    m: Seq<Chunk>,
    logical: int,
    len: int,
) -> Option<Seq<u8>> {
    match chunk_holding(m, logical, 0) {
        None => None,
        Some(c) => {
            let at = offset + c.physical + (logical - c.logical);
            if at + len <= img.len() {
                Some(img.subrange(at, at + len))
            } else {
                None
            }
        },
    }
}

/// Read `len` bytes at a logical address, translating through the chunk map. `None`
/// when they cannot be read.
fn read_logical<S: BlockSource>(
    src: &S,
    offset: u64,
    chunks: &Vec<Chunk>,
    logical: u64,
    len: usize,
) -> (r: Option<Vec<u8>>)
    requires
        len > 0,
    ensures
        r matches Some(b) ==> b@.len() == len && logical_bytes(
            src.image(),
            offset as int,
            chunks@,
            logical as int,
            len as int,
        ) == Some(b@),
        intact(src) && r is None ==> logical_bytes(
            src.image(),
            offset as int,
            chunks@,
            logical as int,
            len as int,
        ) is None,
{
    let _size: u64 = src.size();
    let ghost img = src.image();
    let mut i: usize = 0;
    while i < chunks.len()
        invariant
            len > 0,
            img == src.image(),
            img.len() <= MAX_SOURCE_LEN,
            i <= chunks@.len(),
            chunk_holding(chunks@, logical as int, 0) == chunk_holding(
                chunks@,
                logical as int,
                i as int,
            ),
        decreases chunks.len() - i,
    {
        let c = chunks[i];
        if logical >= c.logical && logical - c.logical < c.length {
            let physical: u64 = match c.physical.checked_add(logical - c.logical) {
                Some(n) => n,
                None => {
                    return None;
                },
            };
            let at: u64 = match offset.checked_add(physical) {
                Some(n) => n,
                None => {
                    return None;
                },
            };
            return match read_structure(src, at, len) {
                Ok(b) => Some(b),
                Err(_) => None,
            };
        }
        i = i + 1;
    }
    None
}

// ---------------------------------------------------------------------------
// Leaves

/// How many items a leaf has; `None` when the node is no leaf, or cannot hold them.
pub open spec fn leaf_len(node: Seq<u8>) -> Option<int> {
    if node.len() < HEADER_LEN || node[100] != 0 || le32(node, 96) > (node.len() - HEADER_LEN)
        / ITEM_LEN as int {
        None
    } else {
        Some(le32(node, 96))
    }
}

fn item_count(node: &[u8]) -> (r: Option<usize>)
    ensures
        match (r, leaf_len(node@)) {
            (Some(a), Some(b)) => a == b && HEADER_LEN + a * ITEM_LEN <= node@.len(),
            (None, None) => true,
            _ => false,
        },
{
    if node.len() < HEADER_LEN || node[100] != 0 {
        return None;
    }
    let n: u64 = get_le32(node, 96) as u64;
    let room: usize = (node.len() - HEADER_LEN) / ITEM_LEN;
    if n > room as u64 {
        return None;
    }
    Some(n as usize)
}

/// Where the data of an item lies in its leaf.
pub open spec fn item_at(i: int) -> int {
    HEADER_LEN + i * ITEM_LEN
}

/// The data of the `i`-th item of a leaf; `None` when it does not lie in the node.
pub open spec fn item_data(node: Seq<u8>, i: int) -> Option<Seq<u8>> {
    let start = HEADER_LEN + le32(node, item_at(i) + 17);
    let end = start + le32(node, item_at(i) + 21);
    if end > node.len() {
        None
    } else {
        Some(node.subrange(start, end))
    }
}

fn read_item(node: &[u8], i: usize) -> (r: Option<Vec<u8>>)
    requires
        item_at(i as int) + ITEM_LEN <= node@.len() <= 0x4_0000,
    ensures
        match (r, item_data(node@, i as int)) {
            (Some(a), Some(b)) => a@ == b,
            (None, None) => true,
            _ => false,
        },
{
    let at: usize = HEADER_LEN + i * ITEM_LEN;
    let start: u64 = HEADER_LEN as u64 + get_le32(node, at + 17) as u64;
    let end: u64 = start + get_le32(node, at + 21) as u64;
    if end > node.len() as u64 {
        return None;
    }
    Some(sub_vec(node, start as usize, end as usize))
}

/// The map with the chunks of a leaf of the chunk tree, from the `i`-th item on.
pub open spec fn leaf_chunks(node: Seq<u8>, i: int, n: int, m: Seq<Chunk>) -> Seq<Chunk>
    decreases n - i,
{
    if i >= n {
        m
    } else {
        leaf_chunks(
            node,
            i + 1,
            n,
            match item_data(node, i) {
                Some(d) => if node[item_at(i) + 8] == CHUNK_ITEM_KEY {
                    with_chunk(d, le64(node, item_at(i) + 9), m)
                } else {
                    m
                },
                None => m,
            },
        )
    }
}

/// Complete the chunk map from a leaf of the chunk tree.
fn add_leaf_chunks(node: &[u8], n: usize, chunks: &mut Vec<Chunk>)
    requires
        HEADER_LEN + n * ITEM_LEN <= node@.len() <= 0x4_0000,
    ensures
        final(chunks)@ == leaf_chunks(node@, 0, n as int, old(chunks)@),
{
    let ghost goal = leaf_chunks(node@, 0, n as int, chunks@);
    let mut i: usize = 0;
    while i < n
        invariant
            i <= n,
            HEADER_LEN + n * ITEM_LEN <= node@.len() <= 0x4_0000,
            goal == leaf_chunks(node@, i as int, n as int, chunks@),
        decreases n - i,
    {
        let at: usize = HEADER_LEN + i * ITEM_LEN;
        match read_item(node, i) {
            Some(d) => {
                if node[at + 8] == CHUNK_ITEM_KEY {
                    parse_chunk(d.as_slice(), get_le64(node, at + 9), chunks);
                }
            },
            None => {},
        }
        i = i + 1;
    }
}

/// The name in a reference to a subvolume.
pub open spec fn root_ref_name(d: Seq<u8>) -> Option<Seq<char>> {
    if d.len() < 18 || le16(d, 16) == 0 || 18 + le16(d, 16) > d.len() {
        None
    } else {
        Some(utf8_lossy(d.subrange(18, 18 + le16(d, 16))))
    }
}

/// Decode the name in a reference to a subvolume.
fn read_root_ref(d: &[u8]) -> (r: Option<String>)
    ensures
        opt_text(r) == root_ref_name(d@),
{
    if d.len() < 18 {
        return None;
    }
    let n: usize = get_le16(d, 16) as usize;
    if n == 0 || n > d.len() - 18 {
        return None;
    }
    Some(lossy_text(vstd::slice::slice_subrange(d, 18, 18 + n)))
}

/// The names with those of a leaf of the root tree, from the `i`-th item on.
pub open spec fn leaf_names(node: Seq<u8>, i: int, n: int, names: Seq<Seq<char>>) -> Seq<Seq<char>>
    decreases n - i,
{
    if i >= n {
        names
    } else {
        leaf_names(
            node,
            i + 1,
            n,
            match item_data(node, i) {
                Some(d) => if node[item_at(i) + 8] == ROOT_REF_KEY && names.len()
                    < MAX_SUBVOLUMES {
                    match root_ref_name(d) {
                        Some(name) => names.push(name),
                        None => names,
                    }
                } else {
                    names
                },
                None => names,
            },
        )
    }
}

/// Collect the names in a leaf of the root tree.
fn read_leaf_names(node: &[u8], n: usize) -> (r: Vec<String>)
    requires
        HEADER_LEN + n * ITEM_LEN <= node@.len() <= 0x4_0000,
    ensures
        string_list(r@) == leaf_names(node@, 0, n as int, Seq::empty()),
{
    let ghost goal = leaf_names(node@, 0, n as int, Seq::empty());
    let mut out: Vec<String> = Vec::new();
    let mut i: usize = 0;
    assert(string_list(out@) =~= Seq::empty());
    while i < n
        invariant
            i <= n,
            HEADER_LEN + n * ITEM_LEN <= node@.len() <= 0x4_0000,
            goal == leaf_names(node@, i as int, n as int, string_list(out@)),
        decreases n - i,
    {
        let at: usize = HEADER_LEN + i * ITEM_LEN;
        let ghost before = string_list(out@);
        match read_item(node, i) {
            Some(d) => {
                if node[at + 8] == ROOT_REF_KEY && out.len() < MAX_SUBVOLUMES {
                    match read_root_ref(d.as_slice()) {
                        Some(name) => {
                            let ghost m = name@;
                            out.push(name);
                            assert(string_list(out@) =~= before.push(m));
                        },
                        None => {},
                    }
                }
            },
            None => {},
        }
        i = i + 1;
    }
    out
}

// ---------------------------------------------------------------------------
// Subvolumes

/// The names of the subvolumes: those in the root tree, found through the chunk
/// map. Only trees that are a single leaf are followed.
pub open spec fn subvolume_names(img: Seq<u8>, offset: int, sb: Seq<u8>) -> Seq<Seq<char>> {
    let nodesize = le32(sb, 148);
    let first = chunks_in(
        sb,
        SYS_CHUNK_ARRAY as int,
        imin(SYS_CHUNK_ARRAY + le32(sb, 160), sb.len() as int),
        Seq::empty(),
    );
    match logical_bytes(img, offset, first, le64(sb, 88), nodesize) {
        None => Seq::empty(),
        Some(cn) => match leaf_len(cn) {
            None => Seq::empty(),
            Some(n) => match logical_bytes(
                img,
                offset,
                leaf_chunks(cn, 0, n, first),
                le64(sb, 80),
                nodesize,
            ) {
                None => Seq::empty(),
                Some(rn) => match leaf_len(rn) {
                    None => Seq::empty(),
                    Some(k) => leaf_names(rn, 0, k, Seq::empty()),
                },
            },
        },
    }
}

/// Walk the chunk tree and root tree to list subvolume names. Where a structure
/// cannot be followed, there are none.
fn enumerate_subvolumes<S: BlockSource>(src: &S, offset: u64, sb: &[u8]) -> (r: Vec<String>)
    requires
        sb@.len() == 4096,
        512 <= le32(sb@, 148) <= 0x4_0000,
    ensures
        r@.len() == 0 || string_list(r@) == subvolume_names(src.image(), offset as int, sb@),
        intact(src) ==> string_list(r@) == subvolume_names(src.image(), offset as int, sb@),
{
    let none: Vec<String> = Vec::new();
    assert(string_list(none@) =~= Seq::empty());
    let nodesize: usize = get_le32(sb, 148) as usize;
    let mut chunks = parse_chunk_array(sb, SYS_CHUNK_ARRAY, get_le32(sb, 160) as usize);
    let cn = match read_logical(src, offset, &chunks, get_le64(sb, 88), nodesize) {
        Some(b) => b,
        None => {
            return none;
        },
    };
    match item_count(cn.as_slice()) {
        Some(n) => {
            add_leaf_chunks(cn.as_slice(), n, &mut chunks);
        },
        None => {
            return none;
        },
    }
    let rn = match read_logical(src, offset, &chunks, get_le64(sb, 80), nodesize) {
        Some(b) => b,
        None => {
            return none;
        },
    };
    match item_count(rn.as_slice()) {
        Some(n) => read_leaf_names(rn.as_slice(), n),
        None => none,
    }
}

// ---------------------------------------------------------------------------
// Detection

/// The volume that a superblock describes, without its subvolumes. The geometry must
/// be sane powers of two, against a coincidental magic in random data.
pub open spec fn btrfs_super(s: Seq<u8>, offset: int) -> Result<Facts, VolumeError> {
    if !bytes_at(s, 64, magic()) {
        Err(VolumeError::NotRecognised)
    } else if le64(s, 112) == 0 || !power_between(le32(s, 144), 9, 16) || !power_between(
        le32(s, 148),
        9,
        18,
    ) {
        Err(VolumeError::Implausible)
    } else {
        Ok(
            Facts {
                id: Identity {
                    offset,
                    size: le64(s, 112),
                    label: nul_text(s.subrange(299, 555)),
                    uuid: uuid_text(s.subrange(0x20, 0x30)),
                },
                sectorsize: le32(s, 144),
                nodesize: le32(s, 148),
                subvolumes: Seq::empty(),
            },
        )
    }
}

/// The Btrfs volume at an offset of the image, without its subvolumes.
pub open spec fn btrfs_geometry(img: Seq<u8>, offset: int) -> Result<Facts, VolumeError> {
    match structure(img, offset + SUPERBLOCK_OFFSET, SUPERBLOCK_LEN as int) {
        Err(e) => Err(e),
        Ok(s) => btrfs_super(s, offset),
    }
}

/// The Btrfs volume at an offset of the image.
pub open spec fn btrfs_volume(img: Seq<u8>, offset: int) -> Result<Facts, VolumeError> {
    match btrfs_geometry(img, offset) {
        Err(e) => Err(e),
        Ok(f) => {
            let s = img.subrange(
                offset + SUPERBLOCK_OFFSET,
                offset + SUPERBLOCK_OFFSET + SUPERBLOCK_LEN,
            );
            Ok(Facts { subvolumes: subvolume_names(img, offset, s), ..f })
        },
    }
}

impl Volume {
    /// Parse the Btrfs superblock at `offset` (the superblock itself is 64 KiB
    /// further in).
    pub fn parse<S: BlockSource>(src: &S, offset: u64) -> (r: Result<Volume, VolumeError>)
        ensures
            match r {
                Ok(v) => btrfs_geometry(src.image(), offset as int) == Ok::<Facts, VolumeError>(
                    Facts { subvolumes: Seq::empty(), ..v@ },
                ),
                Err(VolumeError::Read(_)) => hard_to_tell(src, offset as int),
                Err(e) => btrfs_geometry(src.image(), offset as int) == Err::<Facts, VolumeError>(e),
            },
            r matches Ok(v) ==> v@.subvolumes.len() == 0 || btrfs_volume(
                src.image(),
                offset as int,
            ) == Ok::<Facts, VolumeError>(v@),
            intact(src) ==> viewed(r) == btrfs_volume(src.image(), offset as int),
    {
        let b = match read_inside(src, offset, SUPERBLOCK_OFFSET, SUPERBLOCK_LEN) {
            Ok(b) => b,
            Err(e) => {
                return Err(e);
            },
        };
        let s = b.as_slice();
        let m = magic_bytes();
        if !has_at(s, 64, &m) {
            return Err(VolumeError::NotRecognised);
        }
        let total_bytes: u64 = get_le64(s, 112);
        let sectorsize: u32 = get_le32(s, 144);
        let nodesize: u32 = get_le32(s, 148);
        if total_bytes == 0 || !is_power_between(sectorsize as u64, 9, 16) || !is_power_between(
            nodesize as u64,
            9,
            18,
        ) {
            return Err(VolumeError::Implausible);
        }
        proof {
            let k = choose|k: int| 9 <= k <= 18 && nodesize == #[trigger] power(k);
            lemma_power_values();
            lemma_power(9, k);
            lemma_power(k, 18);
            assert(power(18) == 0x4_0000) by {
                reveal_with_fuel(power, 3);
            }
        }
        let subvolumes = enumerate_subvolumes(src, offset, s);
        Ok(
            Volume {
                offset,
                total_bytes,
                sectorsize,
                nodesize,
                label: text_in(s, 299, 555),
                uuid: uuid_in(s, 0x20),
                subvolumes,
            },
        )
    }

    /// Names of the subvolumes in this filesystem (empty when the trees could not be
    /// walked).
    pub fn subvolumes(&self) -> (r: &Vec<String>)
        ensures
            *r == self.subvolumes,
    {
        &self.subvolumes
    }

    /// Total size of the volume in bytes.
    pub fn size(&self) -> (r: u64)
        ensures
            r == self.total_bytes,
    {
        self.total_bytes
    }

    /// Sector and node sizes, for reporting.
    pub fn geometry(&self) -> (r: (u32, u32))
        ensures
            r == (self.sectorsize, self.nodesize),
    {
        (self.sectorsize, self.nodesize)
    }

    /// Short filesystem label.
    pub fn fs_label(&self) -> (r: &'static str)
        ensures
            r@ == "Btrfs"@,
    {
        "Btrfs"
    }

    /// The user-set filesystem label, or an empty string if none is set.
    pub fn label(&self) -> (r: &str)
        ensures
            r@ == self.label@,
    {
        self.label.as_str()
    }

    /// The filesystem UUID, or `None` when unset.
    pub fn uuid(&self) -> (r: Option<String>)
        ensures
            opt_text(r) == opt_text(self.uuid),
    {
        owned_opt(&self.uuid)
    }

    /// Btrfs metadata undelete is not supported: nothing is ever recovered, so that a mixed disk's other volumes still
    /// are. Carving is the fallback.
    pub fn recover_deleted<S: BlockSource>(&self, _src: &S, _opts: &RecoverOptions) -> (r:
        RecoverStats)
        ensures
            r.view() == nothing(),
    {
        RecoverStats::default()
    }
}

} // verus!
