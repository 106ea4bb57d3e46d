//! Filesystem-aware recovery for exFAT volumes.
//!
//! exFAT is the default filesystem for SD/SDXC cards larger than 32 GB and for
//! most modern cameras. Deleting a file clears the InUse bit on every entry of its
//! set; the name, attributes, first cluster, and data length are all left intact.
//!
//! exFAT also avoids the per-file FAT chain whenever a file is stored
//! contiguously: the stream extension carries a `NoFatChain` flag plus the first
//! cluster and exact byte length. That makes contiguous deleted files reliably
//! recoverable. Fragmented files fall back to following the FAT (when its chain
//! survived the delete).

use vstd::prelude::*;

pub mod entries;
pub mod free;
pub mod recovery;
pub mod named;
pub mod stored;
pub mod walk;

use crate::bytes::{get_le32, get_le64, le32, le64, sat64, sat_mul};
use crate::numbers::{lemma_power, lemma_power_sum, lemma_power_values, power, two_to};
use crate::recover::options::{format_serial, same_string, serial_text};
use crate::source::{intact, BlockSource, MAX_SOURCE_LEN};
use crate::volume::{as_specified, read_structure, structure, VolumeError};

verus! {

/// A parsed exFAT volume.
#[derive(Clone, Copy, Debug, PartialEq, Eq, Structural)]
pub struct Volume {
    /// Byte offset of the volume within the source.
    pub offset: u64,
    pub bytes_per_sector: u64,
    pub sectors_per_cluster: u64,
    pub fat_offset_sectors: u64,
    pub cluster_heap_offset_sectors: u64,
    pub cluster_count: u32,
    pub root_cluster: u32,
    pub volume_length_sectors: u64,
    /// Volume serial number.
    pub serial: u32,
    /// Whether the volume is not marked dirty.
    pub clean: bool,
}

/// Whether a boot sector carries the exFAT name.
pub open spec fn exfat_vbr(s: Seq<u8>) -> bool {
    s.len() >= 11 && s.subrange(3, 11) == seq![
        0x45u8,
        0x58,
        0x46,
        0x41,
        0x54,
        0x20,
        0x20,
        0x20,
    ]
}

/// Does this sector look like an exFAT volume boot record?
pub fn is_exfat_vbr(s: &[u8]) -> (r: bool)
    ensures
        r == exfat_vbr(s@),
{
    let r = s.len() >= 11 && s[3] == 0x45 && s[4] == 0x58 && s[5] == 0x46 && s[6] == 0x41 && s[7]
        == 0x54 && s[8] == 0x20 && s[9] == 0x20 && s[10] == 0x20;
    proof {
        if s@.len() >= 11 {
            let name = s@.subrange(3, 11);
            let want = seq![0x45u8, 0x58, 0x46, 0x41, 0x54, 0x20, 0x20, 0x20];
            if r {
                assert(name =~= want);
            }
            if name == want {
                assert(name[0] == want[0] && name[1] == want[1] && name[2] == want[2] && name[3]
                    == want[3] && name[4] == want[4] && name[5] == want[5] && name[6] == want[6]
                    && name[7] == want[7]);
            }
        }
    }
    r
}

/// The volume that a boot sector describes.
pub open spec fn exfat_geometry(b: Seq<u8>, offset: int) -> Result<Volume, VolumeError> {
    let sector_shift = b[108] as int;
    let cluster_shift = b[109] as int;
    if !exfat_vbr(b) {
        Err(VolumeError::NotRecognised)
    } else if !(9 <= sector_shift <= 12) || sector_shift + cluster_shift > 25 {
        Err(VolumeError::Implausible)
    } else {
        Ok(
            Volume {
                offset: offset as u64,
                bytes_per_sector: power(sector_shift) as u64,
                sectors_per_cluster: power(cluster_shift) as u64,
                fat_offset_sectors: le32(b, 80) as u64,
                cluster_heap_offset_sectors: le32(b, 88) as u64,
                cluster_count: le32(b, 92) as u32,
                root_cluster: le32(b, 96) as u32,
                volume_length_sectors: le64(b, 72) as u64,
                serial: le32(b, 100) as u32,
                clean: b[106] / 2 % 2 == 0,
            },
        )
    }
}

/// The exFAT volume at an offset of the image.
pub open spec fn exfat_volume(img: Seq<u8>, offset: int) -> Result<Volume, VolumeError> {
    match structure(img, offset, 512) {
        Ok(b) => exfat_geometry(b, offset),
        Err(e) => Err(e),
    }
}

fn read_geometry(b: &Vec<u8>, offset: u64) -> (r: Result<Volume, VolumeError>)
    requires
        b@.len() == 512,
        offset + 512 <= MAX_SOURCE_LEN,
    ensures
        r == exfat_geometry(b@, offset as int),
        r matches Ok(v) ==> v.wf(),
{
    let s = b.as_slice();
    if !is_exfat_vbr(s) {
        return Err(VolumeError::NotRecognised);
    }
    let sector_shift: u8 = b[108];
    let cluster_shift: u8 = b[109];
    if sector_shift < 9 || sector_shift > 12 || cluster_shift > 25 - sector_shift {
        return Err(VolumeError::Implausible);
    }
    proof {
        lemma_power_values();
        lemma_power(sector_shift as int, 12);
        lemma_power(9, sector_shift as int);
        lemma_power(9, sector_shift + cluster_shift);
        lemma_power_sum(cluster_shift as int, sector_shift as int);
        lemma_power(sector_shift + cluster_shift, 25);
        lemma_power(cluster_shift as int, 25);
        lemma_power(0, cluster_shift as int);
    }
    Ok(
        Volume {
            offset,
            bytes_per_sector: two_to(sector_shift as u32),
            sectors_per_cluster: two_to(cluster_shift as u32),
            fat_offset_sectors: get_le32(s, 80) as u64,
            cluster_heap_offset_sectors: get_le32(s, 88) as u64,
            cluster_count: get_le32(s, 92),
            root_cluster: get_le32(s, 96),
            volume_length_sectors: get_le64(s, 72),
            serial: get_le32(s, 100),
            clean: b[106] / 2 % 2 == 0,
        },
    )
}

impl Volume {
    /// What holds of every parsed volume.
    pub open spec fn wf(&self) -> bool {
        &&& self.offset + 512 <= MAX_SOURCE_LEN
        &&& 512 <= self.bytes_per_sector <= 4096
        &&& 1 <= self.sectors_per_cluster <= 0x200_0000
        &&& 512 <= self.sectors_per_cluster * self.bytes_per_sector <= 0x200_0000
        &&& self.fat_offset_sectors <= 0xFFFF_FFFF
        &&& self.cluster_heap_offset_sectors <= 0xFFFF_FFFF
    }

    /// Bytes of a cluster.
    pub open spec fn cluster_len(&self) -> int {
        self.sectors_per_cluster * self.bytes_per_sector
    }

    /// The largest cluster number; the first is 2.
    pub open spec fn last_cluster(&self) -> int {
        if self.cluster_count == u32::MAX {
            u32::MAX as int
        } else {
            self.cluster_count + 1
        }
    }

    /// Where a data cluster lies in the source.
    pub open spec fn cluster_at(&self, cluster: int) -> int {
        self.offset + self.cluster_heap_offset_sectors * self.bytes_per_sector + (cluster - 2)
            * self.cluster_len()
    }

    /// Bytes of the volume.
    pub open spec fn len(&self) -> int {
        sat64(self.volume_length_sectors * self.bytes_per_sector)
    }

    /// Where the volume ends in the source.
    pub open spec fn end(&self) -> int {
        sat64(self.offset + self.len())
    }

    /// Parse and validate the exFAT boot sector at `offset`.
    pub fn parse<S: BlockSource>(src: &S, offset: u64) -> (r: Result<Volume, VolumeError>)
        ensures
            as_specified(r, exfat_volume(src.image(), offset as int)),
            r matches Ok(v) ==> v.wf() && v.offset == offset,
            r matches Err(VolumeError::Read(_)) ==> !src.readable(offset as int, 512),
            intact(src) ==> !(r matches Err(VolumeError::Read(_))),
    {
        match read_structure(src, offset, 512) {
            Ok(b) => read_geometry(&b, offset),
            Err(e) => Err(e),
        }
    }

    /// Total size of the volume in bytes.
    pub fn size(&self) -> (r: u64)
        ensures
            r == self.len(),
    {
        sat_mul(self.volume_length_sectors, self.bytes_per_sector)
    }

    /// Bytes of a cluster.
    pub fn cluster_size(&self) -> (r: u64)
        requires
            self.wf(),
        ensures
            r == self.cluster_len(),
    {
        self.sectors_per_cluster * self.bytes_per_sector
    }

    /// The volume serial number in the form `XXXX-XXXX`.
    pub fn uuid(&self) -> (r: Option<String>)
        ensures
            same_string(r, serial_text(self.serial as int)),
    {
        format_serial(self.serial)
    }

    /// Was the volume cleanly unmounted?
    pub fn is_clean(&self) -> (r: bool)
        ensures
            r == self.clean,
    {
        self.clean
    }

    /// The largest cluster number; the first is 2.
    fn max_valid_cluster(&self) -> (r: u32)
        ensures
            r == self.last_cluster(),
    {
        self.cluster_count.saturating_add(1)
    }

    /// Absolute byte offset of a data cluster.
    fn cluster_offset(&self, cluster: u32) -> (r: u64)
        requires
            self.wf(),
            cluster >= 2,
        ensures
            r == self.cluster_at(cluster as int),
    {
        proof {
            lemma_cluster_fits(*self, cluster as int);
        }
        let heap: u64 = self.cluster_heap_offset_sectors * self.bytes_per_sector;
        let cb: u64 = self.sectors_per_cluster * self.bytes_per_sector;
        self.offset + heap + (cluster as u64 - 2) * cb
    }
}

proof fn lemma_cluster_fits(v: Volume, cluster: int)
    requires
        v.wf(),
        2 <= cluster <= u32::MAX,
    ensures
        0 <= v.cluster_heap_offset_sectors * v.bytes_per_sector <= 0xFFFF_FFFF * 4096,
        0 <= (cluster - 2) * v.cluster_len() <= 0xFFFF_FFFF * 0x200_0000,
{
    let h = v.cluster_heap_offset_sectors as int;
    let b = v.bytes_per_sector as int;
    let k = cluster - 2;
    let c = v.cluster_len();
    assert(0 <= h * b <= 0xFFFF_FFFF * 4096) by (nonlinear_arith)
        requires
            0 <= h <= 0xFFFF_FFFF,
            0 <= b <= 4096,
    ;
    assert(0 <= k * c <= 0xFFFF_FFFF * 0x200_0000) by (nonlinear_arith)
        requires
            0 <= k <= 0xFFFF_FFFF,
            0 <= c <= 0x200_0000,
    ;
}

} // verus!
