//! Filesystem-aware recovery for FAT12/FAT16/FAT32 volumes.
//!
//! Unlike carving, this reads the filesystem's own directory entries to recover
//! deleted files **with their original names, paths, and sizes**.
//!
//! When a file is deleted on FAT, the first byte of its 32-byte directory entry is
//! overwritten with `0xE5`; the rest of the entry, including the starting cluster
//! and file size, usually survives. The file's cluster chain in the FAT is freed.
//! Because the chain is gone, a deleted file is taken to be stored
//! **contiguously** (the common case): `size` bytes from the recorded start
//! cluster. Heavily fragmented files may come back partially corrupt.
//!
//! Long File Names (VFAT) are reconstructed from the entries that precede the
//! short 8.3 entry. Deletion clears only the first byte of each entry, so the name
//! characters themselves survive.

use vstd::prelude::*;

pub mod entries;
pub mod free;
pub mod named;
pub mod stored;
pub mod volume;
pub mod walk;

use crate::bytes::{get_le16, get_le32, le16, le32};
use crate::recover::options::{format_serial, same_string, serial_text};
use crate::source::{intact, BlockSource, MAX_SOURCE_LEN};
use crate::volume::{as_specified, read_structure, structure, VolumeError};

verus! {

/// FAT variants, distinguished by cluster count.
#[derive(Clone, Copy, Debug, PartialEq, Eq, Structural)]
pub enum FatType {
    Fat12,
    Fat16,
    Fat32,
}

/// A parsed FAT volume: the geometry needed to locate its data.
#[derive(Clone, Copy, Debug, PartialEq, Eq, Structural)]
pub struct Volume {
    /// Byte offset of the volume within the source (0 for a bare volume, or the
    /// partition start when the source is a whole disk image).
    pub offset: u64,
    pub fat_type: FatType,
    pub bytes_per_sector: u32,
    pub sectors_per_cluster: u32,
    pub reserved_sectors: u32,
    pub total_sectors: u32,
    pub root_cluster: u32,
    pub first_data_sector: u32,
    pub first_root_dir_sector: u32,
    pub root_dir_sectors: u32,
    pub count_of_clusters: u32,
    /// Volume serial number.
    pub serial: u32,
}

/// Whether a number is 1, 2, 4, ... or 128.
pub open spec fn power_of_two8(n: int) -> bool {
    n == 1 || n == 2 || n == 4 || n == 8 || n == 16 || n == 32 || n == 64 || n == 128
}

/// Whether a sector looks like a FAT volume boot record: a jump instruction and
/// sane sector, cluster and table counts.
pub open spec fn fat_vbr(s: Seq<u8>) -> bool {
    let bps = le16(s, 11);
    &&& s[0] == 0xEB || s[0] == 0xE9
    &&& bps == 512 || bps == 1024 || bps == 2048 || bps == 4096
    &&& power_of_two8(s[13] as int)
    &&& 1 <= s[16] <= 2
}

/// Heuristic: does this sector look like a FAT volume boot record?
pub fn looks_like_fat_vbr(s: &[u8]) -> (r: bool)
    requires
        s@.len() >= 512,
    ensures
        r == fat_vbr(s@),
{
    let bps: u16 = get_le16(s, 11);
    let spc: u8 = s[13];
    (s[0] == 0xEB || s[0] == 0xE9) && (bps == 512 || bps == 1024 || bps == 2048 || bps == 4096) && (
    spc == 1 || spc == 2 || spc == 4 || spc == 8 || spc == 16 || spc == 32 || spc == 64 || spc
        == 128) && (s[16] == 1 || s[16] == 2)
}

/// Whether an MBR partition type is one of FAT's.
pub open spec fn fat_partition(t: u8) -> bool {
    t == 0x01 || t == 0x04 || t == 0x06 || t == 0x0B || t == 0x0C || t == 0x0E
}

fn is_fat_partition_type(t: u8) -> (r: bool)
    ensures
        r == fat_partition(t),
{
    t == 0x01 || t == 0x04 || t == 0x06 || t == 0x0B || t == 0x0C || t == 0x0E
}

/// The variant that a cluster count makes.
pub open spec fn type_for(clusters: int) -> FatType {
    if clusters < 4085 {
        FatType::Fat12
    } else if clusters < 65525 {
        FatType::Fat16
    } else {
        FatType::Fat32
    }
}

/// The volume that a boot sector describes.
pub open spec fn fat_geometry(b: Seq<u8>, offset: int) -> Result<Volume, VolumeError> {
    let bps = le16(b, 11);
    let spc = b[13] as int;
    let reserved = le16(b, 14);
    let fats = b[16] as int;
    let root_entries = le16(b, 17);
    let fat_size = if le16(b, 22) != 0 {
        le16(b, 22)
    } else {
        le32(b, 36)
    };
    let total = if le16(b, 19) != 0 {
        le16(b, 19)
    } else {
        le32(b, 32)
    };
    let root_sectors = (root_entries * 32 + bps - 1) / bps;
    let first_root = reserved + fats * fat_size;
    let first_data = first_root + root_sectors;
    let clusters = (total - first_data) / spc;
    if bps == 0 || spc == 0 || total < first_data {
        Err(VolumeError::Implausible)
    } else {
        Ok(
            Volume {
                offset: offset as u64,
                fat_type: type_for(clusters),
                bytes_per_sector: bps as u32,
                sectors_per_cluster: spc as u32,
                reserved_sectors: reserved as u32,
                total_sectors: total as u32,
                root_cluster: le32(b, 44) as u32,
                first_data_sector: first_data as u32,
                first_root_dir_sector: first_root as u32,
                root_dir_sectors: root_sectors as u32,
                count_of_clusters: clusters as u32,
                serial: le32(
                    b,
                    if type_for(clusters) == FatType::Fat32 {
                        67
                    } else {
                        39
                    },
                ) as u32,
            },
        )
    }
}

/// The FAT volume at an offset of the image.
pub open spec fn fat_volume(img: Seq<u8>, offset: int) -> Result<Volume, VolumeError> {
    match structure(img, offset, 512) {
        Ok(b) => fat_geometry(b, offset),
        Err(e) => Err(e),
    }
}

fn read_geometry(b: &Vec<u8>, offset: u64) -> (r: Result<Volume, VolumeError>)
    requires
        b@.len() == 512,
        offset + 512 <= MAX_SOURCE_LEN,
    ensures
        r == fat_geometry(b@, offset as int),
        r matches Ok(v) ==> v.wf(),
{
    let s = b.as_slice();
    let bps: u64 = get_le16(s, 11) as u64;
    let spc: u64 = b[13] as u64;
    let reserved: u64 = get_le16(s, 14) as u64;
    let fats: u64 = b[16] as u64;
    let root_entries: u64 = get_le16(s, 17) as u64;
    let fat16: u64 = get_le16(s, 22) as u64;
    let total16: u64 = get_le16(s, 19) as u64;
    let fat_size: u64 = if fat16 != 0 {
        fat16
    } else {
        get_le32(s, 36) as u64
    };
    let total: u64 = if total16 != 0 {
        total16
    } else {
        get_le32(s, 32) as u64
    };
    if bps == 0 || spc == 0 {
        return Err(VolumeError::Implausible);
    }
    proof {
        assert(fats * fat_size <= 255 * 0xFFFF_FFFF) by (nonlinear_arith)
            requires
                fats <= 255,
                fat_size <= 0xFFFF_FFFF,
        ;
        lemma_root_sectors(root_entries as int, bps as int);
    }
    let root_sectors: u64 = (root_entries * 32 + bps - 1) / bps;
    let first_root: u64 = reserved + fats * fat_size;
    let first_data: u64 = first_root + root_sectors;
    if total < first_data {
        return Err(VolumeError::Implausible);
    }
    let data: u64 = total - first_data;
    let clusters: u64 = data / spc;
    proof {
        lemma_clusters(data as int, spc as int);
    }
    let fat_type = if clusters < 4085 {
        FatType::Fat12
    } else if clusters < 65525 {
        FatType::Fat16
    } else {
        FatType::Fat32
    };
    let serial: u32 = if fat_type == FatType::Fat32 {
        get_le32(s, 67)
    } else {
        get_le32(s, 39)
    };
    Ok(
        Volume {
            offset,
            fat_type,
            bytes_per_sector: bps as u32,
            sectors_per_cluster: spc as u32,
            reserved_sectors: reserved as u32,
            total_sectors: total as u32,
            root_cluster: get_le32(s, 44),
            first_data_sector: first_data as u32,
            first_root_dir_sector: first_root as u32,
            root_dir_sectors: root_sectors as u32,
            count_of_clusters: clusters as u32,
            serial,
        },
    )
}

proof fn lemma_root_sectors(entries: int, bps: int)
    requires
        0 <= entries <= 65535,
        1 <= bps,
    ensures
        0 <= (entries * 32 + bps - 1) / bps <= 2_097_152,
        (entries * 32 + bps - 1) / bps * bps <= entries * 32 + bps - 1,
{
    let n = entries * 32 + bps - 1;
    assert(0 <= n / bps <= 2_097_152 && n / bps * bps <= n) by (nonlinear_arith)
        requires
            n == entries * 32 + bps - 1,
            0 <= entries <= 65535,
            1 <= bps,
    ;
}

proof fn lemma_clusters(data: int, spc: int)
    requires
        0 <= data,
        1 <= spc,
    ensures
        0 <= data / spc <= data,
        data / spc * spc <= data,
{
    assert(0 <= data / spc <= data && data / spc * spc <= data) by (nonlinear_arith)
        requires
            0 <= data,
            1 <= spc,
    ;
}

impl Volume {
    /// What holds of every parsed volume: the data area lies behind the tables and
    /// holds the clusters.
    pub open spec fn wf(&self) -> bool {
        &&& self.offset + 512 <= MAX_SOURCE_LEN
        &&& 1 <= self.bytes_per_sector <= 65535
        &&& 1 <= self.sectors_per_cluster <= 255
        &&& self.reserved_sectors <= 65535
        &&& self.first_root_dir_sector <= self.first_data_sector <= self.total_sectors
        &&& self.root_dir_sectors * self.bytes_per_sector <= 2_200_000
        &&& self.count_of_clusters * self.sectors_per_cluster <= self.total_sectors
            - self.first_data_sector
    }

    /// Bytes of a cluster.
    pub open spec fn cluster_len(&self) -> int {
        self.sectors_per_cluster * self.bytes_per_sector
    }

    /// The largest cluster number; the first is 2.
    pub open spec fn last_cluster(&self) -> int {
        self.count_of_clusters + 1
    }

    /// Where a data cluster lies in the source.
    pub open spec fn cluster_at(&self, cluster: int) -> int {
        self.offset + (self.first_data_sector + (cluster - 2) * self.sectors_per_cluster)
            * self.bytes_per_sector
    }

    /// Where the volume ends in the source.
    pub open spec fn end(&self) -> int {
        self.offset + self.total_sectors * self.bytes_per_sector
    }

    /// Parse the boot sector at `offset` and derive geometry / FAT type.
    pub fn parse<S: BlockSource>(src: &S, offset: u64) -> (r: Result<Volume, VolumeError>)
        ensures
            as_specified(r, fat_volume(src.image(), offset as int)),
            r matches Ok(v) ==> v.wf() && v.offset == offset,
            r matches Err(VolumeError::Read(_)) ==> !src.readable(offset as int, 512),
            intact(src) ==> !(r matches Err(VolumeError::Read(_))),
    {
        match read_structure(src, offset, 512) {
            Ok(b) => read_geometry(&b, offset),
            Err(e) => Err(e),
        }
    }

    /// Total size of the volume in bytes.
    pub fn size(&self) -> (r: u64)
        ensures
            r == self.total_sectors * self.bytes_per_sector,
    {
        proof {
            lemma_product(self.total_sectors as int, self.bytes_per_sector as int);
        }
        self.total_sectors as u64 * self.bytes_per_sector as u64
    }

    /// The volume serial number in the form `XXXX-XXXX`.
    pub fn uuid(&self) -> (r: Option<String>)
        ensures
            same_string(r, serial_text(self.serial as int)),
    {
        format_serial(self.serial)
    }

    /// Bytes of a cluster.
    pub fn cluster_size(&self) -> (r: u64)
        ensures
            r == self.cluster_len(),
    {
        proof {
            lemma_product(self.sectors_per_cluster as int, self.bytes_per_sector as int);
        }
        self.sectors_per_cluster as u64 * self.bytes_per_sector as u64
    }

    /// The largest cluster number; the first is 2.
    fn max_valid_cluster(&self) -> (r: u64)
        ensures
            r == self.last_cluster(),
    {
        self.count_of_clusters as u64 + 1
    }

    /// Absolute byte offset of a data cluster.
    fn cluster_offset(&self, cluster: u32) -> (r: u64)
        requires
            self.wf(),
            2 <= cluster <= self.last_cluster(),
        ensures
            r == self.cluster_at(cluster as int),
            r + self.cluster_len() <= self.end(),
            self.end() <= u64::MAX - 0xFFFF_FFFF,
    {
        proof {
            lemma_cluster_fits(*self, cluster as int);
        }
        let sector: u64 = self.first_data_sector as u64 + (cluster as u64 - 2)
            * self.sectors_per_cluster as u64;
        self.offset + sector * self.bytes_per_sector as u64
    }
}

proof fn lemma_product(a: int, b: int)
    requires
        0 <= a <= 0xFFFF_FFFF,
        0 <= b <= 0xFFFF_FFFF,
    ensures
        0 <= a * b <= u64::MAX,
{
    assert(0 <= a * b <= 0xFFFF_FFFF * 0xFFFF_FFFF) by (nonlinear_arith)
        requires
            0 <= a <= 0xFFFF_FFFF,
            0 <= b <= 0xFFFF_FFFF,
    ;
}

/// A cluster lies inside the volume.
proof fn lemma_cluster_fits(v: Volume, cluster: int)
    requires
        v.wf(),
        2 <= cluster <= v.last_cluster(),
    ensures
        0 <= (cluster - 2) * v.sectors_per_cluster <= 0xFFFF_FFFF,
        0 <= (v.first_data_sector + (cluster - 2) * v.sectors_per_cluster) * v.bytes_per_sector
            <= 0xFFFF_FFFF * 65535,
        v.cluster_at(cluster) + v.cluster_len() <= v.end(),
        v.end() <= u64::MAX - 0xFFFF_FFFF,
{
    let k = cluster - 2;
    let n = v.count_of_clusters as int;
    let s = v.sectors_per_cluster as int;
    let b = v.bytes_per_sector as int;
    let f = v.first_data_sector as int;
    let t = v.total_sectors as int;
    assert(0 <= k * s && (k + 1) * s <= n * s && (k + 1) * s == k * s + s) by (nonlinear_arith)
        requires
            0 <= k < n,
            1 <= s,
    ;
    let sector = f + k * s;
    assert(0 <= sector * b <= t * b && (sector + s) * b <= t * b && (sector + s) * b == sector * b
        + s * b && t * b <= 0xFFFF_FFFF * 65535) by (nonlinear_arith)
        requires
            0 <= sector,
            sector + s <= t <= 0xFFFF_FFFF,
            1 <= s,
            1 <= b <= 65535,
    ;
}

// ---------------------------------------------------------------------------
// Detection

/// The volumes of the first `n` entries of the partition table in a sector.
pub open spec fn partitions(img: Seq<u8>, s: Seq<u8>, n: int) -> Seq<Volume>
    decreases n,
{
    if n <= 0 {
        Seq::empty()
    } else {
        let rest = partitions(img, s, n - 1);
        let base = 446 + (n - 1) * 16;
        let lba = le32(s, base + 8);
        if lba == 0 || !fat_partition(s[base + 4]) {
            rest
        } else {
            match fat_volume(img, lba * 512) {
                Ok(v) => rest.push(v),
                Err(_) => rest,
            }
        }
    }
}

/// Whether volumes may be what is found of the first `n` entries of the partition table in
/// a sector, where reads may fail.
pub open spec fn may_list_partitions<S: BlockSource>(
    src: &S,
    s: Seq<u8>,
    n: int,
    vs: Seq<Volume>,
) -> bool
    decreases n,
{
    if n <= 0 {
        vs.len() == 0
    } else {
        let base = 446 + (n - 1) * 16;
        let lba = le32(s, base + 8);
        let v = fat_volume(src.image(), lba * 512);
        if lba == 0 || !fat_partition(s[base + 4]) {
            may_list_partitions(src, s, n - 1, vs)
        } else {
            ||| (v is Err || !src.readable(lba * 512, 512)) && may_list_partitions(
                src,
                s,
                n - 1,
                vs,
            )
            ||| vs.len() > 0 && v == Ok::<Volume, VolumeError>(vs.last()) && may_list_partitions(
                src,
                s,
                n - 1,
                vs.drop_last(),
            )
        }
    }
}

/// Whether a search for FAT volumes may end with a result, where reads may fail.
pub open spec fn may_detect<S: BlockSource>(src: &S, r: Result<Seq<Volume>, VolumeError>) -> bool {
    match structure(src.image(), 0, 512) {
        Err(e) => r matches Err(a) && (a == e || a is Read && !src.readable(0, 512)),
        Ok(s) => {
            let bare = fat_volume(src.image(), 0);
            let marked = s[510] == 0x55 && s[511] == 0xAA;
            let none = !(fat_vbr(s) && bare is Ok) || !src.readable(0, 512);
            match r {
                Ok(vs) => {
                    ||| fat_vbr(s) && vs.len() == 1 && bare == Ok::<Volume, VolumeError>(vs[0])
                    ||| none && marked && vs.len() > 0 && may_list_partitions(src, s, 4, vs)
                },
                Err(VolumeError::Read(_)) => !src.readable(0, 512),
                Err(e) => e == VolumeError::NotRecognised && none && (marked ==>
                    may_list_partitions(src, s, 4, Seq::empty())),
            }
        },
    }
}

/// The volumes of a search, or why there are none.
pub open spec fn listed(r: Result<Vec<Volume>, VolumeError>) -> Result<Seq<Volume>, VolumeError> {
    match r {
        Ok(v) => Ok(v@),
        Err(e) => Err(e),
    }
}

/// The FAT volumes of an image: a bare one, or those that an MBR lists.
pub open spec fn fat_volumes(img: Seq<u8>) -> Result<Seq<Volume>, VolumeError> {
    match structure(img, 0, 512) {
        Err(e) => Err(e),
        Ok(s) => {
            let bare = fat_volume(img, 0);
            let parts = partitions(img, s, 4);
            if fat_vbr(s) && bare is Ok {
                Ok(seq![bare->Ok_0])
            } else if s[510] == 0x55 && s[511] == 0xAA && parts.len() > 0 {
                Ok(parts)
            } else {
                Err(VolumeError::NotRecognised)
            }
        },
    }
}

/// Detect FAT volumes in `src`: either a bare volume at offset 0, or the FAT
/// partitions listed in an MBR partition table.
pub fn detect_volumes<S: BlockSource>(src: &S) -> (r: Result<Vec<Volume>, VolumeError>)
    ensures
        intact(src) ==> match (r, fat_volumes(src.image())) {
            (Ok(v), Ok(m)) => v@ == m,
            (Err(a), Err(b)) => a == b,
            _ => false,
        },
        may_detect(src, listed(r)),
        r matches Ok(v) ==> v@.len() > 0 && forall|i: int|
            0 <= i < v@.len() ==> (#[trigger] v@[i]).wf() && fat_volume(
                src.image(),
                v@[i].offset as int,
            ) == Ok::<Volume, VolumeError>(v@[i]),
{
    let ghost img = src.image();
    let s = match read_structure(src, 0, 512) {
        Ok(s) => s,
        Err(e) => {
            return Err(e);
        },
    };
    if looks_like_fat_vbr(s.as_slice()) {
        match Volume::parse(src, 0) {
            Ok(v) => {
                let mut one: Vec<Volume> = Vec::new();
                one.push(v);
                assert(one@ =~= seq![v]);
                return Ok(one);
            },
            Err(_) => {},
        }
    }
    let mut volumes: Vec<Volume> = Vec::new();
    if s[510] == 0x55 && s[511] == 0xAA {
        let mut i: usize = 0;
        while i < 4
            invariant
                i <= 4,
                img == src.image(),
                s@.len() == 512,
                may_list_partitions(src, s@, i as int, volumes@),
                intact(src) ==> volumes@ == partitions(img, s@, i as int),
                forall|k: int|
                    0 <= k < volumes@.len() ==> (#[trigger] volumes@[k]).wf() && fat_volume(
                        img,
                        volumes@[k].offset as int,
                    ) == Ok::<Volume, VolumeError>(volumes@[k]),
            decreases 4 - i,
        {
            let base: usize = 446 + i * 16;
            let lba: u32 = get_le32(s.as_slice(), base + 8);
            if lba != 0 && is_fat_partition_type(s[base + 4]) {
                match Volume::parse(src, lba as u64 * 512) {
                    Ok(v) => {
                        let ghost before = volumes@;
                        volumes.push(v);
                        assert(volumes@.drop_last() =~= before);
                    },
                    Err(_) => {},
                }
            }
            i = i + 1;
        }
    }
    if volumes.len() == 0 {
        assert(volumes@ =~= Seq::empty());
        return Err(VolumeError::NotRecognised);
    }
    Ok(volumes)
}

} // verus!
