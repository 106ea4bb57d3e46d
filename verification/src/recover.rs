//! Unified entry point for filesystem-aware undelete.
//!
//! Detects the filesystem of each volume in a source and dispatches to the
//! appropriate recovery backend ([`crate::fat`], [`crate::exfat`], or
//! [`crate::ext4`]), so that every supported filesystem can be treated the same way.
//! APFS containers ([`crate::apfs`]), Btrfs volumes ([`crate::btrfs`]), ReFS volumes
//! ([`crate::refs`]), and F2FS volumes ([`crate::f2fs`]) are recognised for reporting
//! but not recovered from metadata: their copy-on-write or log-structured design
//! leaves no stale metadata to scavenge, so carving is the fallback there. LVM2
//! physical volumes ([`crate::lvm`]), swap areas ([`crate::swap`]), UDF volumes
//! ([`crate::udf`]) and ISO 9660 discs ([`crate::iso9660`]) are likewise recognised
//! and reported. Encrypted containers ([`crate::encrypted`]: LUKS, BitLocker) are
//! recognised so the user is told to unlock them first.

use vstd::prelude::*;

pub mod detection;
pub mod free;
pub mod headers;
pub mod lost;
pub mod marks;
pub mod names;
pub mod options;
pub mod passes;
pub mod plan;
pub mod spelled;
pub mod tables;
pub mod units;
pub mod visited;

pub use self::detection::{detect, parse_at, scan_lost_volumes};
pub use self::options::{
    file_name_of, format_uuid, glob_match, RecoverOptions, RecoverStats, RecoveredFile,
};

use self::options::{nothing, serial_text, uuid_text};
use self::plan::{recover_nothing, recovers, Plan, Recovery, Style};
use crate::bytes::sat64;
use crate::fat::FatType;
use crate::source::{intact, BlockSource};
use crate::text::{opt_text, owned, owned_list, string_list};
use crate::{apfs, btrfs, encrypted, exfat, ext4, f2fs, fat, iso9660, lvm, refs, swap, udf};

verus! {

/// A detected volume of a known filesystem type.
pub enum Volume {
    Fat(fat::Volume),
    Exfat(exfat::Volume),
    Ext(ext4::Volume),
    Apfs(apfs::Volume),
    Btrfs(btrfs::Volume),
    Refs(refs::Volume),
    F2fs(f2fs::Volume),
    Lvm(lvm::Volume),
    Swap(swap::Volume),
    Encrypted(encrypted::Volume),
    Udf(udf::Volume),
    Iso(iso9660::Volume),
}

/// What a volume says.
pub enum Known {
    Fat(fat::Volume),
    Exfat(exfat::Volume),
    Ext(ext4::Super),
    Apfs(apfs::Facts),
    Btrfs(btrfs::Facts),
    Refs(refs::Volume),
    F2fs(f2fs::Facts),
    Lvm(lvm::Volume),
    Swap(swap::Facts),
    Encrypted(encrypted::Facts),
    Udf(udf::Volume),
    Iso(iso9660::Facts),
}

impl Known {
    /// Byte offset of the volume within the source.
    pub open spec fn offset(self) -> int {
        match self {
            Known::Fat(v) => v.offset as int,
            Known::Exfat(v) => v.offset as int,
            Known::Ext(facts) => facts.offset,
            Known::Apfs(f) => f.offset,
            Known::Btrfs(f) => f.id.offset,
            Known::Refs(v) => v.offset as int,
            Known::F2fs(f) => f.id.offset,
            Known::Lvm(v) => v.offset as int,
            Known::Swap(f) => f.id.offset,
            Known::Encrypted(f) => f.id.offset,
            Known::Udf(v) => v.offset as int,
            Known::Iso(f) => f.id.offset,
        }
    }

    /// Total size of the volume in bytes.
    pub open spec fn size(self) -> int {
        match self {
            Known::Fat(v) => v.total_sectors * v.bytes_per_sector,
            Known::Exfat(v) => v.len(),
            Known::Ext(facts) => sat64(facts.total_blocks * facts.block_size),
            Known::Apfs(f) => sat64(f.block_count * f.block_size),
            Known::Btrfs(f) => f.id.size,
            Known::Refs(v) => v.size as int,
            Known::F2fs(f) => f.id.size,
            Known::Lvm(v) => v.size as int,
            Known::Swap(f) => f.id.size,
            Known::Encrypted(f) => f.id.size,
            Known::Udf(v) => v.size as int,
            Known::Iso(f) => f.id.size,
        }
    }

    /// Short human-readable filesystem label.
    pub open spec fn fs_label(self) -> Seq<char> {
        match self {
            Known::Fat(v) => match v.fat_type {
                FatType::Fat12 => "FAT12"@,
                FatType::Fat16 => "FAT16"@,
                FatType::Fat32 => "FAT32"@,
            },
            Known::Exfat(_) => "exFAT"@,
            Known::Ext(_) => "ext2/3/4"@,
            Known::Apfs(_) => "APFS"@,
            Known::Btrfs(_) => "Btrfs"@,
            Known::Refs(_) => "ReFS"@,
            Known::F2fs(_) => "F2FS"@,
            Known::Lvm(_) => "LVM2 PV"@,
            Known::Swap(_) => "Linux swap"@,
            Known::Encrypted(f) => encrypted::kind_label(f.kind),
            Known::Udf(_) => "UDF"@,
            Known::Iso(_) => "ISO 9660"@,
        }
    }

    /// The allocation-unit size, `None` where there is none.
    pub open spec fn alloc_unit(self) -> Option<int> {
        let unit = match self {
            Known::Fat(v) => v.cluster_len(),
            Known::Exfat(v) => v.cluster_len(),
            Known::Ext(facts) => facts.block_size,
            Known::Apfs(f) => f.block_size,
            Known::Btrfs(f) => f.sectorsize,
            Known::Refs(v) => v.bytes_per_sector * v.sectors_per_cluster,
            Known::F2fs(f) => f.block_size,
            Known::Iso(f) => f.block_size,
            _ => 0,
        };
        if unit == 0 {
            None
        } else {
            Some(unit)
        }
    }

    /// Names of sub-volumes.
    pub open spec fn contained_volumes(self) -> Seq<Seq<char>> {
        match self {
            Known::Apfs(f) => f.volume_names,
            Known::Btrfs(f) => f.subvolumes,
            _ => Seq::empty(),
        }
    }

    /// The user-set label, empty where there is none.
    pub open spec fn label(self) -> Seq<char> {
        match self {
            Known::Ext(facts) => facts.name,
            Known::Btrfs(f) => f.id.label,
            Known::F2fs(f) => f.id.label,
            Known::Swap(f) => f.id.label,
            Known::Iso(f) => f.id.label,
            _ => Seq::empty(),
        }
    }

    /// The volume's identifier.
    pub open spec fn uuid(self) -> Option<Seq<char>> {
        match self {
            Known::Ext(facts) => uuid_text(facts.uuid_bytes),
            Known::F2fs(f) => f.id.uuid,
            Known::Btrfs(f) => f.id.uuid,
            Known::Fat(v) => serial_text(v.serial as int),
            Known::Exfat(v) => serial_text(v.serial as int),
            Known::Swap(f) => f.id.uuid,
            _ => None,
        }
    }
}

impl View for Volume {
    type V = Known;

    open spec fn view(&self) -> Known {
        match self {
            Volume::Fat(v) => Known::Fat(*v),
            Volume::Exfat(v) => Known::Exfat(*v),
            Volume::Ext(v) => Known::Ext(v.view()),
            Volume::Apfs(v) => Known::Apfs(v@),
            Volume::Btrfs(v) => Known::Btrfs(v@),
            Volume::Refs(v) => Known::Refs(*v),
            Volume::F2fs(v) => Known::F2fs(v@),
            Volume::Lvm(v) => Known::Lvm(*v),
            Volume::Swap(v) => Known::Swap(v@),
            Volume::Encrypted(v) => Known::Encrypted(v@),
            Volume::Udf(v) => Known::Udf(*v),
            Volume::Iso(v) => Known::Iso(v@),
        }
    }
}

/// How a volume reports its files.
pub open spec fn style_of(v: Volume) -> Style {
    match v {
        Volume::Fat(_) => fat::walk::fat_style(),
        Volume::Exfat(_) => exfat::recovery::exfat_style(),
        _ => ext4::walk::ext_style(),
    }
}

/// Whether plans are those of the deleted files of a volume, in order.
pub open spec fn plans_volume(img: Seq<u8>, v: Volume, plans: Seq<Plan>) -> bool {
    match v {
        Volume::Fat(f) => fat::walk::plans_files(f, fat::walk::deleted_files(img, f), plans),
        Volume::Exfat(f) => exfat::recovery::plans_files(
            img,
            f,
            exfat::walk::deleted_files(img, f),
            plans,
        ),
        Volume::Ext(f) => ext4::blocks::served(f) ==> ext4::walk::plans_files(
            img,
            f,
            ext4::walk::deleted_files(img, f),
            plans,
        ),
        _ => plans.len() == 0,
    }
}

/// Whether plans are those of deleted files that a walk of a volume may find, as far as
/// the device gives what they rest on.
pub open spec fn may_plan_volume<S: BlockSource>(src: &S, v: Volume, plans: Seq<Plan>) -> bool {
    match v {
        Volume::Fat(f) => exists|files: Seq<fat::walk::Deleted>| #[trigger]
            fat::walk::finds(src, f, files) && fat::walk::plans_files(f, files, plans),
        Volume::Exfat(f) => exists|files: Seq<exfat::walk::Deleted>| #[trigger]
            exfat::walk::finds(src, f, files) && exfat::recovery::may_plan_all(
                src,
                f,
                files,
                plans,
            ),
        Volume::Ext(f) => exists|files: Seq<ext4::walk::Deleted>| #[trigger]
            ext4::walk::finds(src, f, files) && ext4::walk::may_plan_all(src, f, files, plans),
        _ => plans.len() == 0,
    }
}

/// The ranges of the free space of a volume, where it is known.
pub open spec fn free_ranges(img: Seq<u8>, v: Volume) -> Option<Seq<(u64, u64)>> {
    match v {
        Volume::Fat(f) => Some(fat::free::free_clusters(img, f, f.count_of_clusters as int)),
        Volume::Exfat(f) => match exfat::free::bitmap(img, f) {
            Some(m) => Some(exfat::free::free_clusters(m, f, f.cluster_count as int)),
            None => None,
        },
        Volume::Ext(f) => ext4::free::free_space(img, f),
        _ => None,
    }
}

impl Volume {
    /// What holds of every detected volume.
    pub open spec fn wf(&self) -> bool {
        match self {
            Volume::Fat(v) => v.wf(),
            Volume::Exfat(v) => v.wf(),
            Volume::Ext(v) => v.wf(),
            _ => true,
        }
    }

    /// Byte offset of the volume within the source.
    pub fn offset(&self) -> (r: u64)
        ensures
            r == self@.offset(),
    {
        match self {
            Volume::Fat(v) => v.offset,
            Volume::Exfat(v) => v.offset,
            Volume::Ext(v) => v.offset,
            Volume::Apfs(v) => v.offset,
            Volume::Btrfs(v) => v.offset,
            Volume::Refs(v) => v.offset,
            Volume::F2fs(v) => v.offset,
            Volume::Lvm(v) => v.offset,
            Volume::Swap(v) => v.offset,
            Volume::Encrypted(v) => v.offset,
            Volume::Udf(v) => v.offset,
            Volume::Iso(v) => v.offset,
        }
    }

    /// Total size of the volume in bytes.
    pub fn size(&self) -> (r: u64)
        ensures
            r == self@.size(),
    {
        match self {
            Volume::Fat(v) => v.size(),
            Volume::Exfat(v) => v.size(),
            Volume::Ext(v) => v.size(),
            Volume::Apfs(v) => v.size(),
            Volume::Btrfs(v) => v.size(),
            Volume::Refs(v) => v.size(),
            Volume::F2fs(v) => v.size(),
            Volume::Lvm(v) => v.size(),
            Volume::Swap(v) => v.size(),
            Volume::Encrypted(v) => v.size(),
            Volume::Udf(v) => v.size(),
            Volume::Iso(v) => v.size(),
        }
    }

    /// Short human-readable filesystem label, e.g. `"FAT16"` or `"exFAT"`.
    pub fn fs_label(&self) -> (r: String)
        ensures
            r@ == self@.fs_label(),
    {
        owned(
            match self {
                Volume::Fat(v) => match v.fat_type {
                    FatType::Fat12 => "FAT12",
                    FatType::Fat16 => "FAT16",
                    FatType::Fat32 => "FAT32",
                },
                Volume::Exfat(_) => "exFAT",
                Volume::Ext(_) => "ext2/3/4",
                Volume::Apfs(v) => v.fs_label(),
                Volume::Btrfs(v) => v.fs_label(),
                Volume::Refs(v) => v.fs_label(),
                Volume::F2fs(v) => v.fs_label(),
                Volume::Lvm(v) => v.fs_label(),
                Volume::Swap(v) => v.fs_label(),
                Volume::Encrypted(v) => v.fs_label(),
                Volume::Udf(v) => v.fs_label(),
                Volume::Iso(v) => v.fs_label(),
            },
        )
    }

    /// The precise on-disk format version, when the backend can refine its family
    /// label: the ext variant (`"ext2"`, `"ext3"`, or `"ext4"`), distinguished from
    /// the `"ext2/3/4"` family by the superblock feature flags. `None` for
    /// filesystems with no such sub-version.
    pub fn fs_version(&self) -> (r: Option<&'static str>)
        ensures
            match self@ {
                Known::Ext(facts) => r == Some(
                    ext4::ext_version(facts.compat, facts.incompat),
                ),
                _ => r is None,
            },
    {
        match self {
            Volume::Ext(v) => Some(v.version()),
            _ => None,
        }
    }

    /// The filesystem's creation time as Unix seconds, when the backend records one.
    /// `None` otherwise.
    pub fn created_time(&self) -> (r: Option<u64>)
        ensures
            match self@ {
                Known::Ext(facts) => r == ext4::recorded_time(facts.mkfs_time as u32),
                _ => r is None,
            },
    {
        match self {
            Volume::Ext(v) => v.created_time(),
            _ => None,
        }
    }

    /// The filesystem's last-write time as Unix seconds, when the backend records
    /// one. `None` otherwise.
    pub fn written_time(&self) -> (r: Option<u64>)
        ensures
            match self@ {
                Known::Ext(facts) => r == ext4::recorded_time(facts.write_time as u32),
                _ => r is None,
            },
    {
        match self {
            Volume::Ext(v) => v.written_time(),
            _ => None,
        }
    }

    /// The volume's allocation-unit size in bytes: the cluster or block size that the
    /// filesystem allocates space in. `None` for backends with no such unit
    /// (LVM/swap/encrypted/UDF) or when the geometry is implausible.
    pub fn alloc_unit(&self) -> (r: Option<u64>)
        requires
            self.wf(),
        ensures
            match (r, self@.alloc_unit()) {
                (Some(a), Some(b)) => a == b,
                (None, None) => true,
                _ => false,
            },
    {
        let unit: u64 = match self {
            Volume::Fat(v) => v.cluster_size(),
            Volume::Exfat(v) => v.cluster_size(),
            Volume::Ext(v) => v.block_size(),
            Volume::Apfs(v) => v.block_size(),
            Volume::Btrfs(v) => v.geometry().0 as u64,
            Volume::Refs(v) => {
                proof {
                    let a = v.bytes_per_sector as int;
                    let b = v.sectors_per_cluster as int;
                    assert(0 <= a * b <= 0xFFFF_FFFF * 0xFFFF_FFFF && (a * b == 0 <==> a == 0 || b
                        == 0)) by (nonlinear_arith)
                        requires
                            0 <= a <= 0xFFFF_FFFF,
                            0 <= b <= 0xFFFF_FFFF,
                    ;
                }
                match v.cluster_size() {
                    Some(n) => n,
                    None => 0,
                }
            },
            Volume::F2fs(v) => v.block_size() as u64,
            Volume::Iso(v) => v.block_size(),
            _ => 0,
        };
        if unit == 0 {
            None
        } else {
            Some(unit)
        }
    }

    /// Names of sub-volumes contained in this volume: APFS volumes inside a
    /// container, or Btrfs subvolumes. Other filesystems have none.
    pub fn contained_volumes(&self) -> (r: Vec<String>)
        ensures
            string_list(r@) == self@.contained_volumes(),
    {
        match self {
            Volume::Apfs(v) => owned_list(v.volume_names()),
            Volume::Btrfs(v) => owned_list(v.subvolumes()),
            _ => {
                let none: Vec<String> = Vec::new();
                assert(string_list(none@) =~= Seq::empty());
                none
            },
        }
    }

    /// The user-set filesystem label, when set. `None` when there is no label or the
    /// filesystem does not expose one.
    pub fn volume_label(&self) -> (r: Option<String>)
        ensures
            match r {
                Some(t) => t@ == self@.label() && t@.len() > 0,
                None => self@.label().len() == 0,
            },
    {
        let label: &str = match self {
            Volume::Ext(v) => v.label(),
            Volume::Btrfs(v) => v.label(),
            Volume::F2fs(v) => v.label(),
            Volume::Swap(v) => v.label(),
            Volume::Iso(v) => v.label(),
            _ => {
                return None;
            },
        };
        let text = crate::text::chars_of(label);
        if text.len() == 0 {
            None
        } else {
            Some(crate::text::string_of(&text))
        }
    }

    /// The volume's identifier: for ext / F2FS / Btrfs and swap the UUID, for FAT /
    /// exFAT the volume serial number in the conventional form (`XXXX-XXXX`). `None`
    /// for filesystems without a stable identifier.
    pub fn volume_uuid(&self) -> (r: Option<String>)
        requires
            self.wf(),
        ensures
            opt_text(r) == self@.uuid(),
    {
        match self {
            Volume::Ext(v) => v.uuid(),
            Volume::F2fs(v) => v.uuid(),
            Volume::Btrfs(v) => v.uuid(),
            Volume::Fat(v) => v.uuid(),
            Volume::Exfat(v) => v.uuid(),
            Volume::Swap(v) => v.uuid(),
            _ => None,
        }
    }

    /// A short description of the volume's boot capability (an El Torito bootable
    /// ISO), or `None` when it is not bootable / has no boot concept.
    pub fn boot_info(&self) -> (r: Option<String>)
        ensures
            match r {
                Some(t) => (self@ matches Known::Iso(f) && f.bootable) && t@ == "El Torito"@,
                None => !(self@ matches Known::Iso(f) && f.bootable),
            },
    {
        match self {
            Volume::Iso(v) => match v.boot_info() {
                Some(t) => Some(owned(t)),
                None => None,
            },
            _ => None,
        }
    }

    /// Whether the volume was cleanly unmounted (`Some(true)`) or is marked dirty /
    /// inconsistent (`Some(false)`). `None` for backends without the flag.
    pub fn is_clean(&self) -> (r: Option<bool>)
        ensures
            r == match self@ {
                Known::Ext(facts) => Some(facts.state % 4 == 1),
                Known::Exfat(v) => Some(v.clean),
                _ => None,
            },
    {
        match self {
            Volume::Ext(v) => Some(v.is_clean()),
            Volume::Exfat(v) => Some(v.is_clean()),
            _ => None,
        }
    }

    /// Absolute byte ranges of the volume's free (unallocated) space, if this backend
    /// can compute it. Carving only these ranges recovers deleted content without
    /// re-finding files that are still allocated. `None` for filesystems whose
    /// allocation map is not read.
    pub fn free_extents<S: BlockSource>(&self, src: &S) -> (r: Option<Vec<(u64, u64)>>)
        requires
            self.wf(),
        ensures
            r matches Some(v) ==> free_ranges(src.image(), *self) == Some(v@),
            intact(src) ==> match (r, free_ranges(src.image(), *self)) {
                (Some(v), Some(m)) => v@ == m,
                (None, None) => true,
                _ => false,
            },
    {
        match self {
            Volume::Fat(v) => match v.free_extents(src) {
                Ok(r) => Some(r),
                Err(_) => None,
            },
            Volume::Exfat(v) => match v.free_extents(src) {
                Ok(r) => r,
                Err(_) => None,
            },
            Volume::Ext(v) => match v.free_extents(src) {
                Ok(r) => r,
                Err(_) => None,
            },
            _ => None,
        }
    }

    /// Recover the deleted files on this volume that the options ask for. Gives the
    /// plans too: the contents of those taken are to be written.
    pub fn recover_deleted<S: BlockSource>(&self, src: &S, opts: &RecoverOptions) -> (r: (
        Vec<Plan>,
        Recovery,
    ))
        requires
            self.wf(),
        ensures
            may_plan_volume(src, *self, r.0@),
            intact(src) ==> plans_volume(src.image(), *self, r.0@),
            exists|lost: Seq<bool>| #[trigger]
                recovers(src, *opts, r.0@, style_of(*self), r.1, lost),
            !(*self is Fat || *self is Exfat || *self is Ext) ==> r.0@.len() == 0
                && r.1.stats.view() == nothing(),
    {
        match self {
            Volume::Fat(v) => {
                let out = v.recover_deleted(src, opts);
                let ghost lost = choose|lost: Seq<bool>| #[trigger]
                    recovers(src, *opts, out.0@, fat::walk::fat_style(), out.1, lost);
                assert(recovers(src, *opts, out.0@, style_of(*self), out.1, lost));
                out
            },
            Volume::Exfat(v) => {
                let out = v.recover_deleted(src, opts);
                let ghost lost = choose|lost: Seq<bool>| #[trigger]
                    recovers(src, *opts, out.0@, exfat::recovery::exfat_style(), out.1, lost);
                assert(recovers(src, *opts, out.0@, style_of(*self), out.1, lost));
                out
            },
            Volume::Ext(v) => {
                let out = v.recover_deleted(src, opts);
                let ghost lost = choose|lost: Seq<bool>| #[trigger]
                    recovers(src, *opts, out.0@, ext4::walk::ext_style(), out.1, lost);
                assert(recovers(src, *opts, out.0@, style_of(*self), out.1, lost));
                out
            },
            _ => {
                let out = recover_nothing();
                assert(out.1.taken@ =~= Seq::empty());
                assert(recovers(src, *opts, out.0@, style_of(*self), out.1, Seq::empty()));
                out
            },
        }
    }

    /// Count the recoverable deleted files by a dry run.
    pub fn deleted_count<S: BlockSource>(&self, src: &S) -> (r: u64)
        requires
            self.wf(),
        ensures
            exists|plans: Seq<Plan>, rec: Recovery| #[trigger] counts_deleted(src, *self, plans, rec, r),
    {
        let mut opts = RecoverOptions::default();
        opts.dry_run = true;
        let (plans, rec) = self.recover_deleted(src, &opts);
        let n: u64 = rec.stats.recovered;
        assert(counts_deleted(src, *self, plans@, rec, n));
        n
    }
}

/// Whether a count is that of the deleted files of a volume, where it is asked.
pub open spec fn count_of<S: BlockSource>(
    src: &S,
    v: Volume,
    requested: bool,
    count: Option<u64>,
) -> bool {
    match count {
        Some(n) => requested && exists|plans: Seq<Plan>, rec: Recovery| #[trigger]
            counts_deleted(src, v, plans, rec, n),
        None => !requested,
    }
}

proof fn lemma_counted<S: BlockSource>(
    src: &S,
    v: Volume,
    plans: Seq<Plan>,
    rec: Recovery,
    n: u64,
)
    requires
        counts_deleted(src, v, plans, rec, n),
    ensures
        count_of(src, v, true, Some(n)),
{
    assert(exists|plans: Seq<Plan>, rec: Recovery| #[trigger] counts_deleted(src, v, plans, rec, n));
    let c = Some(n);
    assert(c->0 == n);
    assert(exists|plans: Seq<Plan>, rec: Recovery| #[trigger] counts_deleted(src, v, plans, rec, c->0));
}

/// Whether counts are those of the deleted files of volumes, where they are asked.
pub open spec fn counts_of<S: BlockSource>(
    src: &S,
    vols: Seq<Volume>,
    requested: bool,
    counts: Seq<Option<u64>>,
) -> bool {
    &&& counts.len() == vols.len()
    &&& forall|i: int|
        0 <= i < counts.len() ==> count_of(src, vols[i], requested, #[trigger] counts[i])
}

/// Count the recoverable deleted files of each volume; `None` when that is not
/// asked.
pub fn deleted_counts<S: BlockSource>(src: &S, vols: &Vec<Volume>, requested: bool) -> (r: Vec<
    Option<u64>,
>)
    requires
        detection::all_wf(vols@),
    ensures
        counts_of(src, vols@, requested, r@),
{
    let mut out: Vec<Option<u64>> = Vec::new();
    let mut i: usize = 0;
    while i < vols.len()
        invariant
            i <= vols@.len(),
            detection::all_wf(vols@),
            out@.len() == i,
            forall|k: int|
                0 <= k < out@.len() ==> count_of(src, vols@[k], requested, #[trigger] out@[k]),
        decreases vols.len() - i,
    {
        if requested {
            let v = &vols[i];
            let n: u64 = v.deleted_count(src);
            let ghost (plans, rec) = choose|plans: Seq<Plan>, rec: Recovery| #[trigger]
                counts_deleted(src, *v, plans, rec, n);
            proof {
                lemma_counted(src, vols@[i as int], plans, rec, n);
            }
            out.push(Some(n));
        } else {
            out.push(None);
        }
        i = i + 1;
    }
    out
}

/// Whether a number is that of the files which a dry run without filters finds.
pub open spec fn counts_deleted<S: BlockSource>(
    src: &S,
    v: Volume,
    plans: Seq<Plan>,
    rec: Recovery,
    n: u64,
) -> bool {
    &&& n == rec.stats.recovered
    &&& may_plan_volume(src, v, plans)
    &&& intact(src) ==> plans_volume(src.image(), v, plans)
    &&& exists|opts: RecoverOptions, lost: Seq<bool>|
        unfiltered(opts) && opts.dry_run && #[trigger] recovers(
            src,
            opts,
            plans,
            style_of(v),
            rec,
            lost,
        )
}

/// Whether options leave out no file.
pub open spec fn unfiltered(opts: RecoverOptions) -> bool {
    &&& opts.min_size == 0
    &&& opts.max_size is None
    &&& opts.modified_after is None
    &&& opts.modified_before is None
    &&& opts.names@.len() == 0
    &&& opts.exclude_names@.len() == 0
}

} // verus!
