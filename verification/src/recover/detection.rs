//! Finding the volumes in a source.

use vstd::prelude::*;

use super::{Known, Volume};
use crate::bytes::{
    bytes_at, get_le32, get_le64, has_at, imax, imin, le32, le64, max_u64, sat64, sat_mul,
};
use crate::carver::ProgressSink;
use crate::recover::options::{is_unset, unset};
use crate::source::{intact, BlockSource, ReadError, MAX_SOURCE_LEN};
use crate::text::all_among;
use crate::volume::{read_structure, structure, viewed, VolumeError};
use crate::{apfs, btrfs, encrypted, exfat, ext4, f2fs, fat, iso9660, lvm, refs, swap, udf};

verus! {

// ---------------------------------------------------------------------------
// One volume

/// The encrypted container at an offset, which carries no readable filesystem.
pub open spec fn as_encrypted(img: Seq<u8>, offset: int) -> Option<Known> {
    match encrypted::container(img, offset) {
        Some(f) => Some(Known::Encrypted(f)),
        None => None,
    }
}

pub open spec fn as_refs(img: Seq<u8>, offset: int) -> Option<Known> {
    match refs::refs_volume(img, offset) {
        Ok(v) => if refs::refs_marked(img, offset) {
            Some(Known::Refs(v))
        } else {
            None
        },
        Err(_) => None,
    }
}

pub open spec fn as_ext(img: Seq<u8>, offset: int) -> Option<Known> {
    match ext4::ext_volume(img, offset) {
        Ok(facts) => if ext4::ext_marked(img, offset) {
            Some(Known::Ext(facts))
        } else {
            None
        },
        Err(_) => None,
    }
}

pub open spec fn as_apfs(img: Seq<u8>, offset: int) -> Option<Known> {
    match apfs::apfs_volume(img, offset) {
        Ok(f) => if bytes_at(img, offset + 32, apfs::nx_magic()) {
            Some(Known::Apfs(f))
        } else {
            None
        },
        Err(_) => None,
    }
}

pub open spec fn as_btrfs(img: Seq<u8>, offset: int) -> Option<Known> {
    match btrfs::btrfs_volume(img, offset) {
        Ok(f) => if bytes_at(img, offset + btrfs::SUPERBLOCK_OFFSET + 64, btrfs::magic()) {
            Some(Known::Btrfs(f))
        } else {
            None
        },
        Err(_) => None,
    }
}

pub open spec fn as_f2fs(img: Seq<u8>, offset: int) -> Option<Known> {
    match f2fs::f2fs_volume(img, offset) {
        Ok(f) => if f2fs::f2fs_marked(img, offset) {
            Some(Known::F2fs(f))
        } else {
            None
        },
        Err(_) => None,
    }
}

pub open spec fn as_lvm(img: Seq<u8>, offset: int) -> Option<Known> {
    match lvm::lvm_volume(img, offset) {
        Ok(v) => Some(Known::Lvm(v)),
        Err(_) => None,
    }
}

pub open spec fn as_swap(img: Seq<u8>, offset: int) -> Option<Known> {
    match swap::swap_volume(img, offset) {
        Ok(f) => Some(Known::Swap(f)),
        Err(_) => None,
    }
}

pub open spec fn as_udf(img: Seq<u8>, offset: int) -> Option<Known> {
    match udf::udf_volume(img, offset) {
        Some(v) => Some(Known::Udf(v)),
        None => None,
    }
}

pub open spec fn as_iso(img: Seq<u8>, offset: int) -> Option<Known> {
    match iso9660::iso_volume(img, offset) {
        Some(f) => Some(Known::Iso(f)),
        None => None,
    }
}

pub open spec fn as_exfat(img: Seq<u8>, offset: int) -> Option<Known> {
    match exfat::exfat_volume(img, offset) {
        Ok(v) => Some(Known::Exfat(v)),
        Err(_) => None,
    }
}

/// A FAT volume whose boot sector looks like one.
pub open spec fn as_fat(img: Seq<u8>, offset: int) -> Option<Known> {
    match fat::fat_volume(img, offset) {
        Ok(v) => if fat::fat_vbr(img.subrange(offset, offset + 512)) {
            Some(Known::Fat(v))
        } else {
            None
        },
        Err(_) => None,
    }
}

/// The first of two answers.
pub open spec fn first_of(a: Option<Known>, b: Option<Known>) -> Option<Known> {
    if a is Some {
        a
    } else {
        b
    }
}

/// The volume with a signature away from the boot sector's own: ReFS, ext, APFS,
/// Btrfs, F2FS, LVM or swap, in this order.
#[verifier::opaque]
pub open spec fn by_signature(img: Seq<u8>, offset: int) -> Option<Known> {
    first_of(
        as_refs(img, offset),
        first_of(
            as_ext(img, offset),
            first_of(
                as_apfs(img, offset),
                first_of(
                    as_btrfs(img, offset),
                    first_of(
                        as_f2fs(img, offset),
                        first_of(as_lvm(img, offset), as_swap(img, offset)),
                    ),
                ),
            ),
        ),
    )
}

/// The volume at an offset of the image, by signature; `None` if nothing matches, or
/// no sector is left there. Encrypted containers come first, so that a BitLocker boot
/// sector is not mistaken for another. The first KiB of a swap area can hold a stale
/// disklabel, so its magic counts before a FAT boot sector. UDF and ISO 9660 carry no
/// boot-sector signature and come last, UDF first: an ISO disc lacks its marker.
#[verifier::opaque]
pub open spec fn recognised(img: Seq<u8>, offset: int) -> Option<Known> {
    if offset + 512 > img.len() {
        None
    } else {
        first_of(
            as_encrypted(img, offset),
            first_of(
                as_exfat(img, offset),
                first_of(
                    by_signature(img, offset),
                    first_of(as_fat(img, offset), first_of(as_udf(img, offset), as_iso(img, offset))),
                ),
            ),
        )
    }
}

/// Whether an executable answer is the given one.
pub open spec fn same_volume(r: Option<Volume>, k: Option<Known>) -> bool {
    match (r, k) {
        (Some(v), Some(f)) => v@ == f,
        (None, None) => true,
        _ => false,
    }
}

// ---------------------------------------------------------------------------
// One volume, where reads may fail

/// How many backends are asked.
pub const BACKENDS: usize = 12;

/// What the `i`-th backend that is asked finds in an image.
pub open spec fn answer(img: Seq<u8>, offset: int, i: int) -> Option<Known> {
    if i == 0 {
        as_encrypted(img, offset)
    } else if i == 1 {
        as_exfat(img, offset)
    } else if i == 2 {
        as_refs(img, offset)
    } else if i == 3 {
        as_ext(img, offset)
    } else if i == 4 {
        as_apfs(img, offset)
    } else if i == 5 {
        as_btrfs(img, offset)
    } else if i == 6 {
        as_f2fs(img, offset)
    } else if i == 7 {
        as_lvm(img, offset)
    } else if i == 8 {
        as_swap(img, offset)
    } else if i == 9 {
        as_fat(img, offset)
    } else if i == 10 {
        as_udf(img, offset)
    } else {
        as_iso(img, offset)
    }
}

/// Whether the device is not certain to serve what the `i`-th backend tells a volume by.
pub open spec fn hard_to_tell<S: BlockSource>(src: &S, offset: int, i: int) -> bool {
    if i == 0 {
        encrypted::hard_to_tell(src, offset)
    } else if i == 2 {
        refs::hard_to_tell(src, offset)
    } else if i == 3 {
        ext4::hard_to_tell(src, offset)
    } else if i == 4 {
        apfs::hard_to_tell(src, offset)
    } else if i == 5 {
        btrfs::hard_to_tell(src, offset)
    } else if i == 6 {
        f2fs::hard_to_tell(src, offset)
    } else if i == 7 {
        lvm::hard_to_tell(src, offset)
    } else if i == 8 {
        swap::hard_to_tell(src, offset)
    } else if i == 10 {
        udf::hard_to_tell(src, offset)
    } else if i == 11 {
        iso9660::hard_to_tell(src, offset)
    } else {
        !src.readable(offset, 512)
    }
}

/// Whether the `i`-th backend may find a volume of which the device refuses to give a part:
/// names of sub-volumes may be missing, the size of a physical volume is then the source
/// span, a smaller page size of a swap area or a boot record may be overlooked.
pub open spec fn in_part<S: BlockSource>(src: &S, offset: int, i: int, k: Known) -> bool {
    let img = src.image();
    match k {
        Known::Apfs(f) => {
            &&& i == 4
            &&& !intact(src)
            &&& bytes_at(img, offset + 32, apfs::nx_magic())
            &&& apfs::apfs_geometry(img, offset) == Ok::<apfs::Facts, VolumeError>(
                apfs::Facts { volume_names: Seq::empty(), ..f },
            )
            &&& all_among(f.volume_names, apfs::container_names(img, offset, f.block_size))
        },
        Known::Btrfs(f) => {
            &&& i == 5
            &&& !intact(src)
            &&& bytes_at(img, offset + btrfs::SUPERBLOCK_OFFSET + 64, btrfs::magic())
            &&& btrfs::btrfs_geometry(img, offset) == Ok::<btrfs::Facts, VolumeError>(f)
        },
        Known::Lvm(v) => i == 7 && lvm::unsized_volume(src, offset, v),
        Known::Swap(f) => {
            &&& i == 8
            &&& swap::may_be_page(src, offset, f.page_size)
            &&& swap::swap_with(img, offset, f.page_size) == Ok::<swap::Facts, VolumeError>(f)
        },
        Known::Iso(f) => i == 11 && iso9660::but_for_boot(src, offset, f),
        _ => false,
    }
}

/// Whether the `i`-th backend may give an answer: that for the image, or none or part of
/// it where the device may refuse a read.
#[verifier::opaque]
pub open spec fn may_answer<S: BlockSource>(
    src: &S,
    offset: int,
    i: int,
    k: Option<Known>,
) -> bool {
    ||| k == answer(src.image(), offset, i)
    ||| k is None && hard_to_tell(src, offset, i)
    ||| k is Some && in_part(src, offset, i, k->0)
}

/// Whether the first `n` backends may all find nothing.
pub open spec fn passed<S: BlockSource>(src: &S, offset: int, n: int) -> bool {
    forall|i: int| 0 <= i < n ==> #[trigger] may_answer(src, offset, i, None)
}

/// Whether asking the backends in order may end with a volume, or none.
#[verifier::opaque]
pub open spec fn may_recognise<S: BlockSource>(src: &S, offset: int, k: Option<Known>) -> bool {
    match k {
        None => passed(src, offset, BACKENDS as int),
        Some(v) => exists|i: int|
            0 <= i < BACKENDS && #[trigger] may_answer(src, offset, i, k) && passed(src, offset, i),
    }
}

/// What a volume says, if there is one.
pub open spec fn told(r: Option<Volume>) -> Option<Known> {
    match r {
        Some(v) => Some(v@),
        None => None,
    }
}

proof fn lemma_pass<S: BlockSource>(src: &S, offset: int, n: int)
    requires
        passed(src, offset, n),
        may_answer(src, offset, n, None),
    ensures
        passed(src, offset, n + 1),
{
}

proof fn lemma_found<S: BlockSource>(src: &S, offset: int, i: int, k: Known)
    requires
        0 <= i < BACKENDS,
        passed(src, offset, i),
        may_answer(src, offset, i, Some(k)),
    ensures
        may_recognise(src, offset, Some(k)),
{
    reveal(may_recognise);
}

/// On a device that serves every read, a backend answers what it finds in the image.
proof fn lemma_answers<S: BlockSource>(src: &S, offset: int, i: int, k: Option<Known>)
    requires
        intact(src),
        0 <= i < BACKENDS,
    ensures
        may_answer(src, offset, i, k) <==> k == answer(src.image(), offset, i),
{
    reveal(may_answer);
    assert(!hard_to_tell(src, offset, i));
}

/// On a device that serves every read, what is found is what the image holds.
pub proof fn lemma_recognises<S: BlockSource>(src: &S, offset: int, k: Option<Known>)
    requires
        intact(src),
        offset + 512 <= src.image().len(),
    ensures
        may_recognise(src, offset, k) <==> k == recognised(src.image(), offset),
{
    let img = src.image();
    lemma_first_answer(img, offset, BACKENDS as int);
    assert forall|i: int, a: Option<Known>| 0 <= i < BACKENDS implies (#[trigger] may_answer(
        src,
        offset,
        i,
        a,
    ) <==> a == answer(img, offset, i)) by {
        lemma_answers(src, offset, i, a);
    }
    reveal(may_recognise);
    let f = first_answer(img, offset, BACKENDS as int);
    assert(f == recognised(img, offset)) by {
        reveal(recognised);
        reveal(by_signature);
        reveal_with_fuel(first_answer, 13);
    }
    if f is Some {
        let i = choose|i: int|
            0 <= i < BACKENDS && #[trigger] answer(img, offset, i) == f && forall|j: int|
                0 <= j < i ==> #[trigger] answer(img, offset, j) is None;
        assert(may_answer(src, offset, i, f));
        if may_recognise(src, offset, k) && k is None {
            assert(may_answer(src, offset, i, None));
        }
        if may_recognise(src, offset, k) && k is Some {
            let n = choose|n: int|
                0 <= n < BACKENDS && #[trigger] may_answer(src, offset, n, k) && passed(
                    src,
                    offset,
                    n,
                );
            if i < n {
                assert(may_answer(src, offset, i, None));
            }
            if n < i {
                assert(answer(img, offset, n) is None);
            }
        }
    }
}

/// What the first of the first `n` backends answers that finds a volume in an image.
spec fn first_answer(img: Seq<u8>, offset: int, n: int) -> Option<Known>
    decreases n,
{
    if n <= 0 {
        None
    } else {
        first_of(first_answer(img, offset, n - 1), answer(img, offset, n - 1))
    }
}

proof fn lemma_first_answer(img: Seq<u8>, offset: int, n: int)
    requires
        0 <= n,
    ensures
        match first_answer(img, offset, n) {
            Some(k) => exists|i: int|
                0 <= i < n && #[trigger] answer(img, offset, i) == Some(k) && forall|j: int|
                    0 <= j < i ==> #[trigger] answer(img, offset, j) is None,
            None => forall|i: int| 0 <= i < n ==> #[trigger] answer(img, offset, i) is None,
        },
    decreases n,
{
    if n > 0 {
        lemma_first_answer(img, offset, n - 1);
        if first_answer(img, offset, n - 1) is None {
            assert(answer(img, offset, n - 1) == answer(img, offset, n - 1));
        }
    }
}

fn ask_encrypted<S: BlockSource>(src: &S, offset: u64) -> (r: Option<Volume>)
    ensures
        may_answer(src, offset as int, 0, told(r)),
        intact(src) ==> same_volume(r, as_encrypted(src.image(), offset as int)),
        r matches Some(v) ==> v.wf() && v@.offset() == offset,
{
    proof {
        reveal(may_answer);
    }
    match encrypted::detect(src, offset) {
        Some(v) => Some(Volume::Encrypted(v)),
        None => None,
    }
}

fn ask_udf<S: BlockSource>(src: &S, offset: u64) -> (r: Option<Volume>)
    ensures
        may_answer(src, offset as int, 10, told(r)),
        intact(src) ==> same_volume(r, as_udf(src.image(), offset as int)),
        r matches Some(v) ==> v.wf() && v@.offset() == offset,
{
    proof {
        reveal(may_answer);
    }
    match udf::detect(src, offset) {
        Some(v) => Some(Volume::Udf(v)),
        None => None,
    }
}

fn ask_iso<S: BlockSource>(src: &S, offset: u64) -> (r: Option<Volume>)
    ensures
        may_answer(src, offset as int, 11, told(r)),
        intact(src) ==> same_volume(r, as_iso(src.image(), offset as int)),
        r matches Some(v) ==> v.wf() && v@.offset() == offset,
{
    proof {
        reveal(may_answer);
    }
    match iso9660::detect(src, offset) {
        Some(v) => Some(Volume::Iso(v)),
        None => None,
    }
}

fn ask_exfat<S: BlockSource>(src: &S, offset: u64) -> (r: Option<Volume>)
    ensures
        may_answer(src, offset as int, 1, told(r)),
        intact(src) ==> same_volume(r, as_exfat(src.image(), offset as int)),
        r matches Some(v) ==> v.wf() && v@.offset() == offset,
{
    proof {
        reveal(may_answer);
    }
    match exfat::Volume::parse(src, offset) {
        Ok(v) => Some(Volume::Exfat(v)),
        Err(_) => None,
    }
}

/// Ask for a FAT volume whose boot sector, which was read, looks like one.
fn ask_fat<S: BlockSource>(src: &S, offset: u64, boot: &Vec<u8>) -> (r: Option<Volume>)
    requires
        structure(src.image(), offset as int, 512) == Ok::<Seq<u8>, VolumeError>(boot@),
    ensures
        may_answer(src, offset as int, 9, told(r)),
        intact(src) ==> same_volume(r, as_fat(src.image(), offset as int)),
        r matches Some(v) ==> v.wf() && v@.offset() == offset,
{
    proof {
        reveal(may_answer);
    }
    if fat::looks_like_fat_vbr(boot.as_slice()) {
        match fat::Volume::parse(src, offset) {
            Ok(v) => {
                return Some(Volume::Fat(v));
            },
            Err(_) => {},
        }
    }
    None
}

fn ask_refs<S: BlockSource>(src: &S, offset: u64) -> (r: Option<Volume>)
    ensures
        may_answer(src, offset as int, 2, told(r)),
        intact(src) ==> same_volume(r, as_refs(src.image(), offset as int)),
        r matches Some(v) ==> v.wf() && v@.offset() == offset,
{
    proof {
        reveal(may_answer);
    }
    if refs::is_refs(src, offset) {
        match refs::Volume::parse(src, offset) {
            Ok(v) => {
                return Some(Volume::Refs(v));
            },
            Err(_) => {},
        }
    }
    None
}

fn ask_ext<S: BlockSource>(src: &S, offset: u64) -> (r: Option<Volume>)
    ensures
        may_answer(src, offset as int, 3, told(r)),
        intact(src) ==> same_volume(r, as_ext(src.image(), offset as int)),
        r matches Some(v) ==> v.wf() && v@.offset() == offset,
{
    proof {
        reveal(may_answer);
    }
    if ext4::is_ext_volume(src, offset) {
        match ext4::Volume::parse(src, offset) {
            Ok(v) => {
                return Some(Volume::Ext(v));
            },
            Err(_) => {},
        }
    }
    None
}

fn ask_apfs<S: BlockSource>(src: &S, offset: u64) -> (r: Option<Volume>)
    ensures
        may_answer(src, offset as int, 4, told(r)),
        intact(src) ==> same_volume(r, as_apfs(src.image(), offset as int)),
        r matches Some(v) ==> v.wf() && v@.offset() == offset,
{
    proof {
        reveal(may_answer);
    }
    if apfs::is_apfs(src, offset) {
        match apfs::Volume::parse(src, offset) {
            Ok(v) => {
                return Some(Volume::Apfs(v));
            },
            Err(_) => {},
        }
    }
    None
}

fn ask_btrfs<S: BlockSource>(src: &S, offset: u64) -> (r: Option<Volume>)
    ensures
        may_answer(src, offset as int, 5, told(r)),
        intact(src) ==> same_volume(r, as_btrfs(src.image(), offset as int)),
        r matches Some(v) ==> v.wf() && v@.offset() == offset,
{
    proof {
        reveal(may_answer);
    }
    if btrfs::is_btrfs(src, offset) {
        match btrfs::Volume::parse(src, offset) {
            Ok(v) => {
                proof {
                    if v@.subvolumes.len() == 0 {
                        assert(v@.subvolumes =~= Seq::empty());
                        assert(v@ == btrfs::Facts { subvolumes: Seq::empty(), ..v@ });
                    }
                }
                return Some(Volume::Btrfs(v));
            },
            Err(_) => {},
        }
    }
    None
}

fn ask_f2fs<S: BlockSource>(src: &S, offset: u64) -> (r: Option<Volume>)
    ensures
        may_answer(src, offset as int, 6, told(r)),
        intact(src) ==> same_volume(r, as_f2fs(src.image(), offset as int)),
        r matches Some(v) ==> v.wf() && v@.offset() == offset,
{
    proof {
        reveal(may_answer);
    }
    if f2fs::is_f2fs(src, offset) {
        match f2fs::Volume::parse(src, offset) {
            Ok(v) => {
                return Some(Volume::F2fs(v));
            },
            Err(_) => {},
        }
    }
    None
}

fn ask_lvm<S: BlockSource>(src: &S, offset: u64) -> (r: Option<Volume>)
    ensures
        may_answer(src, offset as int, 7, told(r)),
        intact(src) ==> same_volume(r, as_lvm(src.image(), offset as int)),
        r matches Some(v) ==> v.wf() && v@.offset() == offset,
{
    proof {
        reveal(may_answer);
    }
    if lvm::is_lvm(src, offset) {
        match lvm::Volume::parse(src, offset) {
            Ok(v) => {
                return Some(Volume::Lvm(v));
            },
            Err(_) => {},
        }
    }
    None
}

fn ask_swap<S: BlockSource>(src: &S, offset: u64) -> (r: Option<Volume>)
    ensures
        may_answer(src, offset as int, 8, told(r)),
        intact(src) ==> same_volume(r, as_swap(src.image(), offset as int)),
        r matches Some(v) ==> v.wf() && v@.offset() == offset,
{
    proof {
        reveal(may_answer);
    }
    if swap::is_swap(src, offset) {
        match swap::Volume::parse(src, offset) {
            Ok(v) => {
                return Some(Volume::Swap(v));
            },
            Err(_) => {},
        }
    }
    None
}

/// Take what a backend answered, or go on with the next one.
fn after<S: BlockSource>(src: &S, offset: u64, i: usize, r: &Option<Volume>) -> (found: bool)
    requires
        i < BACKENDS,
        passed(src, offset as int, i as int),
        may_answer(src, offset as int, i as int, told(*r)),
    ensures
        found == (r is Some),
        found ==> may_recognise(src, offset as int, told(*r)),
        !found ==> passed(src, offset as int, i + 1),
{
    proof {
        if r is Some {
            lemma_found(src, offset as int, i as int, r->0@);
        } else {
            lemma_pass(src, offset as int, i as int);
        }
    }
    r.is_some()
}

fn try_signatures<S: BlockSource>(src: &S, offset: u64) -> (r: Option<Volume>)
    requires
        passed(src, offset as int, 2),
    ensures
        match r {
            Some(v) => may_recognise(src, offset as int, Some(v@)),
            None => passed(src, offset as int, 9),
        },
        intact(src) ==> same_volume(r, by_signature(src.image(), offset as int)),
        r matches Some(v) ==> v.wf() && v@.offset() == offset,
{
    proof {
        reveal(by_signature);
    }
    let r = ask_refs(src, offset);
    if after(src, offset, 2, &r) {
        return r;
    }
    let r = ask_ext(src, offset);
    if after(src, offset, 3, &r) {
        return r;
    }
    let r = ask_apfs(src, offset);
    if after(src, offset, 4, &r) {
        return r;
    }
    let r = ask_btrfs(src, offset);
    if after(src, offset, 5, &r) {
        return r;
    }
    let r = ask_f2fs(src, offset);
    if after(src, offset, 6, &r) {
        return r;
    }
    let r = ask_lvm(src, offset);
    if after(src, offset, 7, &r) {
        return r;
    }
    let r = ask_swap(src, offset);
    if after(src, offset, 8, &r) {
        return r;
    }
    None
}

/// Whether what came of reading a sector is right: its bytes, or that the source ends
/// before it does. A read may also fail.
pub open spec fn sector_read(
    img: Seq<u8>,
    offset: int,
    r: Result<Vec<u8>, VolumeError>,
) -> bool {
    match r {
        Ok(b) => structure(img, offset, 512) == Ok::<Seq<u8>, VolumeError>(b@),
        Err(VolumeError::Read(_)) => true,
        Err(e) => structure(img, offset, 512) == Err::<Seq<u8>, VolumeError>(e),
    }
}

/// Whether a probe of an offset may end with a volume, or none: there is none where no
/// sector is left.
pub open spec fn may_find<S: BlockSource>(src: &S, offset: int, k: Option<Known>) -> bool {
    if offset + 512 > src.image().len() {
        k is None
    } else {
        may_recognise(src, offset, k)
    }
}

/// On a device that serves every read, a probe finds what the image holds.
pub proof fn lemma_finds<S: BlockSource>(src: &S, offset: int, k: Option<Known>)
    requires
        intact(src),
    ensures
        may_find(src, offset, k) <==> k == recognised(src.image(), offset),
{
    if offset + 512 <= src.image().len() {
        lemma_recognises(src, offset, k);
    } else {
        reveal(recognised);
    }
}

/// Try to recognise a supported filesystem at `offset`, by signature. Returns `None`
/// if nothing matches (e.g. an empty or unsupported partition).
pub fn try_parse_volume<S: BlockSource>(src: &S, offset: u64) -> (r: Result<
    Option<Volume>,
    ReadError,
>)
    ensures
        match r {
            Ok(v) => may_find(src, offset as int, told(v)),
            Err(_) => !src.readable(offset as int, 512),
        },
        intact(src) ==> (r matches Ok(v) && same_volume(
            v,
            recognised(src.image(), offset as int),
        )),
        r matches Ok(Some(v)) ==> v.wf() && v@.offset() == offset,
{
    let boot = read_structure(src, offset, 512);
    recognise(src, offset, boot)
}

/// Recognise a supported filesystem at `offset`, by signature, once its boot sector was
/// read, or was not.
pub fn recognise<S: BlockSource>(src: &S, offset: u64, boot: Result<Vec<u8>, VolumeError>) -> (r:
    Result<Option<Volume>, ReadError>)
    requires
        sector_read(src.image(), offset as int, boot),
    ensures
        match boot {
            Err(VolumeError::Read(e)) => r == Err::<Option<Volume>, ReadError>(e),
            Err(_) => r matches Ok(None),
            Ok(_) => r matches Ok(v) && may_recognise(src, offset as int, told(v)),
        },
        intact(src) ==> (r matches Ok(v) ==> same_volume(
            v,
            recognised(src.image(), offset as int),
        )),
        r matches Ok(Some(v)) ==> v.wf() && v@.offset() == offset,
{
    proof {
        reveal(recognised);
        reveal(may_recognise);
    }
    let _size: u64 = src.size();
    let boot = match boot {
        Ok(b) => b,
        Err(VolumeError::Read(e)) => {
            return Err(e);
        },
        Err(_) => {
            return Ok(None);
        },
    };
    let r = ask_encrypted(src, offset);
    if after(src, offset, 0, &r) {
        return Ok(r);
    }
    let r = if exfat::is_exfat_vbr(boot.as_slice()) {
        ask_exfat(src, offset)
    } else {
        assert(may_answer(src, offset as int, 1, None)) by {
            reveal(may_answer);
        }
        None
    };
    if after(src, offset, 1, &r) {
        return Ok(r);
    }
    let r = try_signatures(src, offset);
    if r.is_some() {
        return Ok(r);
    }
    let r = ask_fat(src, offset, &boot);
    if after(src, offset, 9, &r) {
        return Ok(r);
    }
    let r = ask_udf(src, offset);
    if after(src, offset, 10, &r) {
        return Ok(r);
    }
    let r = ask_iso(src, offset);
    let _found: bool = after(src, offset, 11, &r);
    Ok(r)
}

/// The volume at an explicit offset, trying each backend in the order of detection;
/// where none is left, FAT is tried without regard to what its boot sector looks like,
/// and its answer counts.
pub open spec fn volume_at(img: Seq<u8>, offset: int) -> Result<Known, VolumeError> {
    match first_of(
        as_encrypted(img, offset),
        first_of(
            as_exfat(img, offset),
            first_of(
                by_signature(img, offset),
                first_of(as_fat(img, offset), first_of(as_udf(img, offset), as_iso(img, offset))),
            ),
        ),
    ) {
        Some(k) => Ok(k),
        None => match fat::fat_volume(img, offset) {
            Ok(v) => Ok(Known::Fat(v)),
            Err(e) => Err(e),
        },
    }
}

/// Whether parsing at an explicit offset may give a result: a volume that the backends find
/// in order, or else what FAT answers without regard to what its boot sector looks like.
pub open spec fn may_parse<S: BlockSource>(
    src: &S,
    offset: int,
    r: Result<Known, VolumeError>,
) -> bool {
    let fat = fat::fat_volume(src.image(), offset);
    match r {
        Ok(k) => may_recognise(src, offset, Some(k)) || passed(src, offset, BACKENDS as int) && (
        k matches Known::Fat(f) && fat == Ok::<fat::Volume, VolumeError>(f)),
        Err(e) => passed(src, offset, BACKENDS as int) && if e is Read {
            !src.readable(offset, 512)
        } else {
            fat == Err::<fat::Volume, VolumeError>(e)
        },
    }
}

/// Parse a single volume at an explicit byte offset, trying each backend.
pub fn parse_at<S: BlockSource>(src: &S, offset: u64) -> (r: Result<Volume, VolumeError>)
    ensures
        intact(src) ==> match (r, volume_at(src.image(), offset as int)) {
            (Ok(v), Ok(k)) => v@ == k,
            (Err(a), Err(b)) => a == b,
            _ => false,
        },
        may_parse(src, offset as int, viewed(r)),
        r matches Ok(v) ==> v.wf() && v@.offset() == offset,
{
    let r = ask_encrypted(src, offset);
    if after(src, offset, 0, &r) {
        return Ok(r.unwrap());
    }
    let r = ask_exfat(src, offset);
    if after(src, offset, 1, &r) {
        return Ok(r.unwrap());
    }
    match try_signatures(src, offset) {
        Some(v) => {
            return Ok(v);
        },
        None => {},
    }
    let r = match read_structure(src, offset, 512) {
        Ok(boot) => ask_fat(src, offset, &boot),
        Err(_) => {
            assert(may_answer(src, offset as int, 9, None)) by {
                reveal(may_answer);
            }
            None
        },
    };
    if after(src, offset, 9, &r) {
        return Ok(r.unwrap());
    }
    let r = ask_udf(src, offset);
    if after(src, offset, 10, &r) {
        return Ok(r.unwrap());
    }
    let r = ask_iso(src, offset);
    if after(src, offset, 11, &r) {
        return Ok(r.unwrap());
    }
    match fat::Volume::parse(src, offset) {
        Ok(v) => Ok(Volume::Fat(v)),
        Err(e) => Err(e),
    }
}

/// What detection recognises at an offset is what is parsed there.
pub proof fn lemma_parse_agrees(img: Seq<u8>, offset: int)
    requires
        recognised(img, offset) is Some,
    ensures
        volume_at(img, offset) == Ok::<Known, VolumeError>(recognised(img, offset)->0),
{
    reveal(recognised);
}

// ---------------------------------------------------------------------------
// Partition tables

/// The volumes of a list.
pub open spec fn known_list(v: Seq<Volume>) -> Seq<Known> {
    v.map_values(|x: Volume| x@)
}

/// Whether every volume of a list is well-formed.
pub open spec fn all_wf(v: Seq<Volume>) -> bool {
    forall|i: int| 0 <= i < v.len() ==> (#[trigger] v[i]).wf()
}

/// A volume in front of others, if there is one.
pub open spec fn in_front(k: Option<Known>, rest: Seq<Known>) -> Seq<Known> {
    match k {
        Some(v) => seq![v] + rest,
        None => rest,
    }
}

/// Append the volume at an offset, if there is one.
fn push_volume<S: BlockSource>(src: &S, offset: u64, out: &mut Vec<Volume>) -> (r: Result<
    (),
    ReadError,
>)
    requires
        all_wf(old(out)@),
    ensures
        match r {
            Ok(()) => exists|k: Option<Known>| #[trigger]
                may_find(src, offset as int, k) && known_list(final(out)@) == known_list(old(out)@)
                    + in_front(k, Seq::empty()),
            Err(_) => !src.readable(offset as int, 512),
        },
        intact(src) ==> r is Ok && known_list(final(out)@) == known_list(old(out)@) + in_front(
            recognised(src.image(), offset as int),
            Seq::empty(),
        ),
        all_wf(final(out)@),
{
    let ghost before = known_list(out@);
    match try_parse_volume(src, offset) {
        Err(e) => {
            return Err(e);
        },
        Ok(Some(v)) => {
            let ghost m = v@;
            out.push(v);
            assert(may_find(src, offset as int, Some(m)));
            assert(known_list(out@) =~= before.push(m));
            assert(before.push(m) =~= before + (seq![m] + Seq::<Known>::empty()));
        },
        Ok(None) => {
            assert(may_find(src, offset as int, None));
            assert(before + Seq::<Known>::empty() =~= before);
        },
    }
    Ok(())
}

/// The most entries of a GPT that are looked at.
pub const MAX_ENTRIES: u64 = 1024;

/// The volumes of the entries of a GPT from the `i`-th on. An all-zero type GUID
/// marks an unused entry; the table ends early where the source does.
pub open spec fn gpt_entries(
    img: Seq<u8>,
    start: int,
    entry_size: int,
    sector: int,
    i: int,
    n: int,
) -> Seq<Known>
    decreases n - i,
{
    let at = start + i * entry_size;
    if i >= n || at + entry_size > img.len() {
        Seq::empty()
    } else {
        let rest = gpt_entries(img, start, entry_size, sector, i + 1, n);
        let lba = le64(img, at + 32);
        if unset(img.subrange(at, at + 16)) || lba == 0 {
            rest
        } else {
            in_front(recognised(img, lba * sector), rest)
        }
    }
}

/// Whether a list may be what is found of the volumes of the entries of a GPT from the
/// `i`-th on, where reads may fail.
pub open spec fn may_list_entries<S: BlockSource>(
    src: &S,
    start: int,
    entry_size: int,
    sector: int,
    i: int,
    n: int,
    ks: Seq<Known>,
) -> bool
    decreases n - i,
{
    let img = src.image();
    let at = start + i * entry_size;
    if i >= n || at + entry_size > img.len() {
        ks.len() == 0
    } else {
        let lba = le64(img, at + 32);
        if unset(img.subrange(at, at + 16)) || lba == 0 {
            may_list_entries(src, start, entry_size, sector, i + 1, n, ks)
        } else {
            ||| may_find(src, lba * sector, None) && may_list_entries(
                src,
                start,
                entry_size,
                sector,
                i + 1,
                n,
                ks,
            )
            ||| ks.len() > 0 && may_find(src, lba * sector, Some(ks[0])) && may_list_entries(
                src,
                start,
                entry_size,
                sector,
                i + 1,
                n,
                ks.drop_first(),
            )
        }
    }
}

/// What a GPT header says: where its entries begin, their size and their number.
/// `None` when it is none.
pub open spec fn gpt_header(h: Seq<u8>, sector: int) -> Option<(int, int, int)> {
    if !bytes_at(h, 0, seq![0x45u8, 0x46, 0x49, 0x20, 0x50, 0x41, 0x52, 0x54]) || !(128 <= le32(
        h,
        84,
    ) <= 4096) || le64(h, 72) * sector > u64::MAX {
        None
    } else {
        Some((le64(h, 72) * sector, le32(h, 84), imin(le32(h, 80), MAX_ENTRIES as int)))
    }
}

/// The volumes of the GPT whose header lies in the second sector of the given size;
/// `None` when there is none.
pub open spec fn gpt_with(img: Seq<u8>, sector: int) -> Option<Seq<Known>> {
    match structure(img, sector, 92) {
        Err(_) => None,
        Ok(h) => match gpt_header(h, sector) {
            None => None,
            Some((start, entry_size, n)) => Some(gpt_entries(img, start, entry_size, sector, 0, n)),
        },
    }
}

/// What the GPT header in the second sector of the given size says.
pub open spec fn gpt_header_at(img: Seq<u8>, sector: int) -> Option<(int, int, int)> {
    match structure(img, sector, 92) {
        Err(_) => None,
        Ok(h) => gpt_header(h, sector),
    }
}

/// Whether a list may be what is found of the volumes of a GPT, where reads may fail.
pub open spec fn may_list_gpt<S: BlockSource>(src: &S, ks: Seq<Known>) -> bool {
    match gpt_header_at(src.image(), 512) {
        Some((start, entry_size, n)) => may_list_entries(src, start, entry_size, 512, 0, n, ks),
        None => match gpt_header_at(src.image(), 4096) {
            Some((start, entry_size, n)) => may_list_entries(
                src,
                start,
                entry_size,
                4096,
                0,
                n,
                ks,
            ),
            None => ks.len() == 0,
        },
    }
}

/// The volumes of a GPT with 512- or 4096-byte logical sectors; none when there is no
/// such table.
pub open spec fn gpt_volumes(img: Seq<u8>) -> Seq<Known> {
    match gpt_with(img, 512) {
        Some(v) => v,
        None => match gpt_with(img, 4096) {
            Some(v) => v,
            None => Seq::empty(),
        },
    }
}

fn read_gpt_header(h: &[u8], sector: u64) -> (r: Option<(u64, u64, u64)>)
    requires
        h@.len() == 92,
    ensures
        match (r, gpt_header(h@, sector as int)) {
            (Some(a), Some(b)) => a.0 == b.0 && a.1 == b.1 && a.2 == b.2 && 128 <= a.1 <= 4096
                && a.2 <= MAX_ENTRIES,
            (None, None) => true,
            _ => false,
        },
{
    let sig = [0x45u8, 0x46, 0x49, 0x20, 0x50, 0x41, 0x52, 0x54];
    assert(sig@ =~= seq![0x45u8, 0x46, 0x49, 0x20, 0x50, 0x41, 0x52, 0x54]);
    let entry_size: u64 = get_le32(h, 84) as u64;
    if !has_at(h, 0, &sig) || entry_size < 128 || entry_size > 4096 {
        return None;
    }
    let count: u64 = get_le32(h, 80) as u64;
    let n: u64 = if count <= MAX_ENTRIES {
        count
    } else {
        MAX_ENTRIES
    };
    match get_le64(h, 72).checked_mul(sector) {
        Some(start) => Some((start, entry_size, n)),
        None => None,
    }
}

/// Read the volumes of the entries of a GPT.
fn read_entries<S: BlockSource>(src: &S, start: u64, entry_size: u64, sector: u64, n: u64) -> (r:
    Result<Vec<Volume>, ReadError>)
    requires
        128 <= entry_size <= 4096,
        n <= MAX_ENTRIES,
        sector <= 4096,
    ensures
        intact(src) ==> (r matches Ok(v) && known_list(v@) == gpt_entries(
            src.image(),
            start as int,
            entry_size as int,
            sector as int,
            0,
            n as int,
        )),
        match r {
            Ok(v) => may_list_entries(
                src,
                start as int,
                entry_size as int,
                sector as int,
                0,
                n as int,
                known_list(v@),
            ),
            Err(_) => !intact(src),
        },
        r matches Ok(v) ==> all_wf(v@),
{
    let ghost img = src.image();
    let size: u64 = src.size();
    let ghost whole = gpt_entries(
        img,
        start as int,
        entry_size as int,
        sector as int,
        0,
        n as int,
    );
    let mut out: Vec<Volume> = Vec::new();
    let mut i: u64 = 0;
    let mut at: u64 = start;
    assert(known_list(out@) + whole =~= whole);
    assert(start + 0 * entry_size == start);
    proof {
        assert forall|tail: Seq<Known>| known_list(out@) + tail =~= tail by {}
    }
    while i < n && at <= size && entry_size <= size - at
        invariant
            img == src.image(),
            size == img.len() <= MAX_SOURCE_LEN,
            128 <= entry_size <= 4096,
            sector <= 4096,
            i <= n <= MAX_ENTRIES,
            at == start + i * entry_size,
            all_wf(out@),
            forall|tail: Seq<Known>| #[trigger]
                may_list_entries(
                    src,
                    start as int,
                    entry_size as int,
                    sector as int,
                    i as int,
                    n as int,
                    tail,
                ) ==> may_list_entries(
                    src,
                    start as int,
                    entry_size as int,
                    sector as int,
                    0,
                    n as int,
                    known_list(out@) + tail,
                ),
            intact(src) ==> whole == known_list(out@) + gpt_entries(
                img,
                start as int,
                entry_size as int,
                sector as int,
                i as int,
                n as int,
            ),
        decreases n - i,
    {
        let ghost rest = gpt_entries(
            img,
            start as int,
            entry_size as int,
            sector as int,
            i + 1,
            n as int,
        );
        let ghost before = known_list(out@);
        let ghost mut found: Option<Known> = None;
        let e = src.read_at(at, entry_size as usize)?;
        assert(e@ =~= img.subrange(at as int, at + entry_size));
        let guid = vstd::slice::slice_subrange(e.as_slice(), 0, 16);
        assert(guid@ =~= img.subrange(at as int, at + 16));
        let lba: u64 = get_le64(e.as_slice(), 32);
        assert(lba == le64(img, at + 32));
        if !is_unset(guid) && lba != 0 {
            match lba.checked_mul(sector) {
                Some(offset) => {
                    push_volume(src, offset, &mut out)?;
                    proof {
                        found = choose|k: Option<Known>| #[trigger]
                            may_find(src, offset as int, k) && known_list(out@) == before
                                + in_front(k, Seq::empty());
                        let k = recognised(img, lba * sector);
                        assert(before + in_front(k, Seq::empty()) + rest =~= before + in_front(
                            k,
                            rest,
                        ));
                    }
                },
                None => {
                    assert(recognised(img, lba * sector) is None) by {
                        reveal(recognised);
                    }
                    assert(may_find(src, lba * sector, None));
                    assert(before + Seq::<Known>::empty() =~= before);
                },
            }
        } else {
            assert(before + Seq::<Known>::empty() =~= before);
        }
        proof {
            assert((i + 1) * entry_size == i * entry_size + entry_size) by (nonlinear_arith);
            assert forall|tail: Seq<Known>| #[trigger]
                may_list_entries(
                    src,
                    start as int,
                    entry_size as int,
                    sector as int,
                    i + 1,
                    n as int,
                    tail,
                ) implies may_list_entries(
                src,
                start as int,
                entry_size as int,
                sector as int,
                0,
                n as int,
                known_list(out@) + tail,
            ) by {
                let more = in_front(found, tail);
                if found is Some {
                    assert(more.drop_first() =~= tail);
                }
                assert(may_list_entries(
                    src,
                    start as int,
                    entry_size as int,
                    sector as int,
                    i as int,
                    n as int,
                    more,
                ));
                assert(before + in_front(found, Seq::empty()) + tail =~= before + more);
            }
        }
        i = i + 1;
        at = at + entry_size;
    }
    assert(known_list(out@) + Seq::<Known>::empty() =~= known_list(out@));
    assert(may_list_entries(
        src,
        start as int,
        entry_size as int,
        sector as int,
        i as int,
        n as int,
        Seq::empty(),
    ));
    Ok(out)
}

/// Read the GPT whose header lies in the second sector of the given size.
fn read_gpt<S: BlockSource>(src: &S, sector: u64) -> (r: Result<Option<Vec<Volume>>, ReadError>)
    requires
        512 <= sector <= 4096,
    ensures
        intact(src) ==> match (r, gpt_with(src.image(), sector as int)) {
            (Ok(Some(v)), Some(m)) => known_list(v@) == m,
            (Ok(None), None) => true,
            _ => false,
        },
        match (r, gpt_header_at(src.image(), sector as int)) {
            (Ok(Some(v)), Some((start, entry_size, n))) => may_list_entries(
                src,
                start,
                entry_size,
                sector as int,
                0,
                n,
                known_list(v@),
            ),
            (Ok(None), None) => true,
            (Err(_), _) => !intact(src),
            _ => false,
        },
        r matches Ok(Some(v)) ==> all_wf(v@),
{
    let h = match read_structure(src, sector, 92) {
        Ok(h) => h,
        Err(VolumeError::Read(e)) => {
            return Err(e);
        },
        Err(_) => {
            return Ok(None);
        },
    };
    match read_gpt_header(h.as_slice(), sector) {
        None => Ok(None),
        Some((start, entry_size, n)) => {
            let v = read_entries(src, start, entry_size, sector, n)?;
            Ok(Some(v))
        },
    }
}

/// Detect volumes via a GPT, supporting 512- and 4096-byte logical sectors. Returns
/// an empty list when the source is not GPT-partitioned.
pub fn detect_gpt<S: BlockSource>(src: &S) -> (r: Result<Vec<Volume>, ReadError>)
    ensures
        match r {
            Ok(v) => may_list_gpt(src, known_list(v@)),
            Err(_) => !intact(src),
        },
        intact(src) ==> (r matches Ok(v) && known_list(v@) == gpt_volumes(src.image())),
        r matches Ok(v) ==> all_wf(v@),
{
    match read_gpt(src, 512)? {
        Some(v) => {
            return Ok(v);
        },
        None => {},
    }
    match read_gpt(src, 4096)? {
        Some(v) => Ok(v),
        None => {
            let none: Vec<Volume> = Vec::new();
            assert(known_list(none@) =~= Seq::empty());
            Ok(none)
        },
    }
}

/// The volumes of the entries of a partition table from the `i`-th on.
pub open spec fn mbr_entries(img: Seq<u8>, s: Seq<u8>, i: int) -> Seq<Known>
    decreases 4 - i,
{
    if i >= 4 {
        Seq::empty()
    } else {
        let rest = mbr_entries(img, s, i + 1);
        let lba = le32(s, 454 + 16 * i);
        if lba == 0 {
            rest
        } else {
            in_front(recognised(img, lba * 512), rest)
        }
    }
}

/// Whether a list may be what is found of the volumes of the entries of a partition table
/// from the `i`-th on, where reads may fail.
pub open spec fn may_list_partitions<S: BlockSource>(
    src: &S,
    s: Seq<u8>,
    i: int,
    ks: Seq<Known>,
) -> bool
    decreases 4 - i,
{
    if i >= 4 {
        ks.len() == 0
    } else {
        let lba = le32(s, 454 + 16 * i);
        if lba == 0 {
            may_list_partitions(src, s, i + 1, ks)
        } else {
            ||| may_find(src, lba * 512, None) && may_list_partitions(src, s, i + 1, ks)
            ||| ks.len() > 0 && may_find(src, lba * 512, Some(ks[0])) && may_list_partitions(
                src,
                s,
                i + 1,
                ks.drop_first(),
            )
        }
    }
}

/// Whether a list may be what is found of the volumes of a legacy MBR partition table, where
/// reads may fail.
pub open spec fn may_list_mbr<S: BlockSource>(src: &S, s: Seq<u8>, ks: Seq<Known>) -> bool {
    if s[510] == 0x55 && s[511] == 0xAA {
        may_list_partitions(src, s, 0, ks)
    } else {
        ks.len() == 0
    }
}

/// The volumes of a legacy MBR partition table.
pub open spec fn mbr_volumes(img: Seq<u8>, s: Seq<u8>) -> Seq<Known> {
    if s[510] == 0x55 && s[511] == 0xAA {
        mbr_entries(img, s, 0)
    } else {
        Seq::empty()
    }
}

fn detect_mbr<S: BlockSource>(src: &S, s: &[u8]) -> (r: Result<Vec<Volume>, ReadError>)
    requires
        s@.len() == 512,
    ensures
        match r {
            Ok(v) => may_list_mbr(src, s@, known_list(v@)),
            Err(_) => !intact(src),
        },
        intact(src) ==> (r matches Ok(v) && known_list(v@) == mbr_volumes(src.image(), s@)),
        r matches Ok(v) ==> all_wf(v@),
{
    let ghost img = src.image();
    let mut out: Vec<Volume> = Vec::new();
    assert(known_list(out@) =~= Seq::empty());
    if s[510] != 0x55 || s[511] != 0xAA {
        return Ok(out);
    }
    let ghost whole = mbr_entries(img, s@, 0);
    assert(known_list(out@) + whole =~= whole);
    proof {
        assert forall|tail: Seq<Known>| known_list(out@) + tail =~= tail by {}
    }
    let mut i: usize = 0;
    while i < 4
        invariant
            img == src.image(),
            s@.len() == 512,
            i <= 4,
            all_wf(out@),
            forall|tail: Seq<Known>| #[trigger]
                may_list_partitions(src, s@, i as int, tail) ==> may_list_partitions(
                    src,
                    s@,
                    0,
                    known_list(out@) + tail,
                ),
            intact(src) ==> whole == known_list(out@) + mbr_entries(img, s@, i as int),
        decreases 4 - i,
    {
        let ghost rest = mbr_entries(img, s@, i + 1);
        let ghost before = known_list(out@);
        let ghost mut found: Option<Known> = None;
        let lba: u64 = get_le32(s, 454 + 16 * i) as u64;
        if lba == 0 {
            assert(before + Seq::<Known>::empty() =~= before);
        } else {
            push_volume(src, lba * 512, &mut out)?;
            proof {
                found = choose|k: Option<Known>| #[trigger]
                    may_find(src, lba * 512, k) && known_list(out@) == before + in_front(
                        k,
                        Seq::empty(),
                    );
                let k = recognised(img, lba * 512);
                assert(before + in_front(k, Seq::empty()) + rest =~= before + in_front(k, rest));
            }
        }
        proof {
            assert forall|tail: Seq<Known>| #[trigger]
                may_list_partitions(src, s@, i + 1, tail) implies may_list_partitions(
                src,
                s@,
                0,
                known_list(out@) + tail,
            ) by {
                let more = in_front(found, tail);
                if found is Some {
                    assert(more.drop_first() =~= tail);
                }
                assert(may_list_partitions(src, s@, i as int, more));
                assert(before + in_front(found, Seq::empty()) + tail =~= before + more);
            }
        }
        i = i + 1;
    }
    assert(known_list(out@) + Seq::<Known>::empty() =~= known_list(out@));
    assert(may_list_partitions(src, s@, i as int, Seq::empty()));
    Ok(out)
}

// ---------------------------------------------------------------------------
// Whole sources

/// Why no volumes were detected.
#[derive(Clone, Copy, Debug, PartialEq, Eq, Structural)]
pub enum DetectError {
    /// The device did not serve a read.
    Read(ReadError),
    /// The source is too small to contain a filesystem.
    TooSmall,
    /// There is no supported volume.
    NoVolumes,
}

impl DetectError {
    /// The message for the user.
    pub open spec fn text(self) -> &'static str {
        match self {
            DetectError::Read(_) => "reading from source",
            DetectError::TooSmall => "source too small to contain a filesystem",
            DetectError::NoVolumes =>
                "no FAT, exFAT, NTFS, ReFS, ext2/3/4, XFS, F2FS, HFS+, APFS, Btrfs, LVM2, Linux swap, UDF, ISO 9660, or encrypted (LUKS/BitLocker) volume found",
        }
    }

    /// The message for the user.
    pub fn message(self) -> (r: &'static str)
        ensures
            r == self.text(),
    {
        match self {
            DetectError::Read(_) => "reading from source",
            DetectError::TooSmall => "source too small to contain a filesystem",
            DetectError::NoVolumes =>
                "no FAT, exFAT, NTFS, ReFS, ext2/3/4, XFS, F2FS, HFS+, APFS, Btrfs, LVM2, Linux swap, UDF, ISO 9660, or encrypted (LUKS/BitLocker) volume found",
        }
    }
}

/// Every supported volume of an image: a bare volume at offset 0, or the volumes that
/// a GPT lists, or those that a legacy MBR partition table lists.
pub open spec fn volumes_of(img: Seq<u8>) -> Result<Seq<Known>, DetectError> {
    if img.len() < 512 {
        Err(DetectError::TooSmall)
    } else if recognised(img, 0) is Some {
        Ok(seq![recognised(img, 0)->0])
    } else if gpt_volumes(img).len() > 0 {
        Ok(gpt_volumes(img))
    } else if mbr_volumes(img, img.subrange(0, 512)).len() > 0 {
        Ok(mbr_volumes(img, img.subrange(0, 512)))
    } else {
        Err(DetectError::NoVolumes)
    }
}

/// Whether detection may end with a result, where reads may fail.
pub open spec fn may_detect<S: BlockSource>(src: &S, r: Result<Seq<Known>, DetectError>) -> bool {
    let size = src.image().len();
    let s = src.image().subrange(0, 512);
    let no_gpt = size >= 512 && may_find(src, 0, None) && may_list_gpt(src, Seq::empty());
    match r {
        Ok(ks) => {
            &&& size >= 512
            &&& ks.len() > 0
            &&& {
                ||| ks.len() == 1 && may_find(src, 0, Some(ks[0]))
                ||| may_find(src, 0, None) && may_list_gpt(src, ks)
                ||| no_gpt && may_list_mbr(src, s, ks)
            }
        },
        Err(DetectError::NoVolumes) => no_gpt && may_list_mbr(src, s, Seq::empty()),
        Err(DetectError::TooSmall) => size < 512,
        Err(DetectError::Read(_)) => !intact(src) && (size < 512 ==> !src.readable(0, 512)),
    }
}

/// Whether a list may be what detection finds, with nothing where it fails.
pub open spec fn may_list<S: BlockSource>(src: &S, ks: Seq<Known>) -> bool {
    ||| may_detect(src, Ok(ks))
    ||| ks.len() == 0 && exists|e: DetectError| #[trigger] may_detect(src, Err(e))
}

/// What detection found.
pub open spec fn detected(r: Result<Vec<Volume>, DetectError>) -> Result<Seq<Known>, DetectError> {
    match r {
        Ok(v) => Ok(known_list(v@)),
        Err(e) => Err(e),
    }
}

/// Detect every supported volume in `src`: a bare volume at offset 0, or the volumes
/// referenced by a GPT or legacy MBR partition table.
pub fn detect<S: BlockSource>(src: &S) -> (r: Result<Vec<Volume>, DetectError>)
    ensures
        may_detect(src, detected(r)),
        intact(src) ==> match (r, volumes_of(src.image())) {
            (Ok(v), Ok(m)) => known_list(v@) == m,
            (Err(a), Err(b)) => a == b,
            _ => false,
        },
        r matches Ok(v) ==> v@.len() > 0 && all_wf(v@),
{
    let sector0 = read_structure(src, 0, 512);
    detect_with(src, sector0)
}

/// Detect every supported volume in `src` once its first sector was read, or was not.
pub fn detect_with<S: BlockSource>(src: &S, sector0: Result<Vec<u8>, VolumeError>) -> (r: Result<
    Vec<Volume>,
    DetectError,
>)
    requires
        sector_read(src.image(), 0, sector0),
    ensures
        match sector0 {
            Err(VolumeError::Read(e)) => r == Err::<Vec<Volume>, DetectError>(
                DetectError::Read(e),
            ),
            Err(_) => r == Err::<Vec<Volume>, DetectError>(DetectError::TooSmall),
            Ok(_) => may_detect(src, detected(r)),
        },
        intact(src) && !(sector0 matches Err(VolumeError::Read(_))) ==> match (
            r,
            volumes_of(src.image()),
        ) {
            (Ok(v), Ok(m)) => known_list(v@) == m,
            (Err(a), Err(b)) => a == b,
            _ => false,
        },
        r matches Ok(v) ==> v@.len() > 0 && all_wf(v@),
{
    let sector0 = match sector0 {
        Ok(s) => s,
        Err(VolumeError::Read(e)) => {
            return Err(DetectError::Read(e));
        },
        Err(_) => {
            return Err(DetectError::TooSmall);
        },
    };
    match try_parse_volume(src, 0) {
        Err(e) => {
            return Err(DetectError::Read(e));
        },
        Ok(Some(v)) => {
            let ghost m = v@;
            let mut one: Vec<Volume> = Vec::new();
            one.push(v);
            assert(known_list(one@) =~= seq![m]);
            return Ok(one);
        },
        Ok(None) => {},
    }
    match detect_gpt(src) {
        Err(e) => {
            return Err(DetectError::Read(e));
        },
        Ok(gpt) => {
            if gpt.len() > 0 {
                return Ok(gpt);
            }
            assert(known_list(gpt@) =~= Seq::empty());
        },
    }
    match detect_mbr(src, sector0.as_slice()) {
        Err(e) => Err(DetectError::Read(e)),
        Ok(mbr) => if mbr.len() == 0 {
            assert(known_list(mbr@) =~= Seq::empty());
            Err(DetectError::NoVolumes)
        } else {
            Ok(mbr)
        },
    }
}

/// Bound on the probes of a scan for lost volumes, so that a tiny step on a huge
/// device cannot go on forever.
pub const MAX_PROBES: u64 = 16_000_000;

/// Where the scan goes on behind a volume: at the next multiple of the step.
pub open spec fn behind(offset: int, size: int, step: int) -> int {
    let end = sat64(offset + imax(size, step));
    sat64((end + step - 1) / step * step)
}

/// The volumes found by probing from an offset on, a step at a time, `left` times at
/// most. The body of a volume is skipped.
pub open spec fn lost_volumes(img: Seq<u8>, step: int, offset: int, left: int) -> Seq<Known>
    decreases left,
{
    if offset >= img.len() || left <= 0 {
        Seq::empty()
    } else {
        match recognised(img, offset) {
            Some(v) => seq![v] + lost_volumes(
                img,
                step,
                behind(offset, v.size(), step),
                left - 1,
            ),
            None => lost_volumes(img, step, offset + step, left - 1),
        }
    }
}

/// Whether a list may be what probing from an offset on finds, where reads may fail.
pub open spec fn may_list_lost<S: BlockSource>(
    src: &S,
    step: int,
    offset: int,
    left: int,
    ks: Seq<Known>,
) -> bool
    decreases left,
{
    if offset >= src.image().len() || left <= 0 {
        ks.len() == 0
    } else {
        ||| may_find(src, offset, None) && may_list_lost(src, step, offset + step, left - 1, ks)
        ||| ks.len() > 0 && may_find(src, offset, Some(ks[0])) && may_list_lost(
            src,
            step,
            behind(offset, ks[0].size(), step),
            left - 1,
            ks.drop_first(),
        )
    }
}

fn behind_volume(offset: u64, size: u64, step: u64) -> (r: u64)
    requires
        step >= 1,
    ensures
        r == behind(offset as int, size as int, step as int),
{
    let end: u64 = offset.saturating_add(max_u64(size, step));
    let whole: u64 = end / step;
    proof {
        lemma_ceil(end as int, step as int);
    }
    let n: u64 = if end % step == 0 {
        whole
    } else {
        whole + 1
    };
    sat_mul(n, step)
}

proof fn lemma_ceil(a: int, b: int)
    requires
        0 <= a,
        1 <= b,
    ensures
        (a + b - 1) / b == if a % b == 0 {
            a / b
        } else {
            a / b + 1
        },
        0 <= a / b <= a,
        a % b != 0 ==> a / b < a,
{
    let q = a / b;
    let r = a % b;
    assert(a == q * b + r && 0 <= r < b && 0 <= q <= a) by (nonlinear_arith)
        requires
            q == a / b,
            r == a % b,
            0 <= a,
            1 <= b,
    ;
    if r == 0 {
        assert((a + b - 1) / b == q) by (nonlinear_arith)
            requires
                a == q * b,
                1 <= b,
        ;
    } else {
        assert((a + b - 1) / b == q + 1) by (nonlinear_arith)
            requires
                a == q * b + r,
                1 <= r < b,
        ;
        assert(q < a) by (nonlinear_arith)
            requires
                a == q * b + r,
                1 <= r < b,
                0 <= q,
        ;
    }
}

/// Scan the whole source for filesystem signatures at `step`-aligned offsets,
/// returning every volume found, also those with no partition-table entry (lost or
/// orphaned partitions). After a hit, the scan skips past that volume's body so its
/// interior is not re-probed. `progress` is told the current offset as the scan
/// advances.
pub fn scan_lost_volumes<S: BlockSource, P: ProgressSink>(src: &S, step: u64, progress: &P) -> (r:
    Result<Vec<Volume>, ReadError>)
    ensures
        intact(src) ==> (r matches Ok(v) && known_list(v@) == lost_volumes(
            src.image(),
            imax(step as int, 512),
            0,
            MAX_PROBES as int,
        )),
        match r {
            Ok(v) => may_list_lost(
                src,
                imax(step as int, 512),
                0,
                MAX_PROBES as int,
                known_list(v@),
            ),
            Err(_) => !intact(src),
        },
        r matches Ok(v) ==> all_wf(v@),
{
    let ghost img = src.image();
    let size: u64 = src.size();
    let stride: u64 = max_u64(step, 512);
    let ghost whole = lost_volumes(img, stride as int, 0, MAX_PROBES as int);
    let mut out: Vec<Volume> = Vec::new();
    let mut offset: u64 = 0;
    let mut left: u64 = MAX_PROBES;
    assert(known_list(out@) + whole =~= whole);
    proof {
        assert forall|tail: Seq<Known>| known_list(out@) + tail =~= tail by {}
    }
    while offset < size && left > 0
        invariant
            forall|tail: Seq<Known>| #[trigger]
                may_list_lost(src, stride as int, offset as int, left as int, tail)
                    ==> may_list_lost(
                    src,
                    stride as int,
                    0,
                    MAX_PROBES as int,
                    known_list(out@) + tail,
                ),
            img == src.image(),
            size == img.len() <= MAX_SOURCE_LEN,
            stride == imax(step as int, 512),
            whole == lost_volumes(img, stride as int, 0, MAX_PROBES as int),
            left <= MAX_PROBES,
            all_wf(out@),
            intact(src) ==> whole == known_list(out@) + lost_volumes(
                img,
                stride as int,
                offset as int,
                left as int,
            ),
        decreases left,
    {
        let ghost before = known_list(out@);
        progress.update(offset);
        left = left - 1;
        match try_parse_volume(src, offset)? {
            Some(v) => {
                let next: u64 = behind_volume(offset, v.size(), stride);
                let ghost m = v@;
                out.push(v);
                proof {
                    let rest = lost_volumes(img, stride as int, next as int, left as int);
                    assert(known_list(out@) =~= before.push(m));
                    assert(before.push(m) + rest =~= before + (seq![m] + rest));
                    assert(may_find(src, offset as int, Some(m)));
                    assert forall|tail: Seq<Known>| #[trigger]
                        may_list_lost(src, stride as int, next as int, left as int, tail) implies
                        may_list_lost(
                        src,
                        stride as int,
                        0,
                        MAX_PROBES as int,
                        known_list(out@) + tail,
                    ) by {
                        let more = seq![m] + tail;
                        assert(more.drop_first() =~= tail);
                        assert(may_list_lost(
                            src,
                            stride as int,
                            offset as int,
                            left + 1,
                            more,
                        ));
                        assert(before.push(m) + tail =~= before + more);
                    }
                }
                offset = next;
            },
            None => {
                proof {
                    assert(may_find(src, offset as int, None));
                    assert forall|tail: Seq<Known>| #[trigger]
                        may_list_lost(src, stride as int, offset + stride, left as int, tail)
                            implies may_list_lost(
                        src,
                        stride as int,
                        0,
                        MAX_PROBES as int,
                        known_list(out@) + tail,
                    ) by {
                        assert(may_list_lost(
                            src,
                            stride as int,
                            offset as int,
                            left + 1,
                            tail,
                        ));
                    }
                }
                match offset.checked_add(stride) {
                    Some(next) => {
                        offset = next;
                    },
                    None => {
                        assert(lost_volumes(img, stride as int, offset + stride, left as int)
                            =~= Seq::empty());
                        assert(known_list(out@) + Seq::<Known>::empty() =~= known_list(out@));
                        assert(may_list_lost(
                            src,
                            stride as int,
                            offset + stride,
                            left as int,
                            Seq::empty(),
                        ));
                        return Ok(out);
                    },
                }
            },
        }
    }
    assert(known_list(out@) + Seq::<Known>::empty() =~= known_list(out@));
    assert(may_list_lost(src, stride as int, offset as int, left as int, Seq::empty()));
    Ok(out)
}

} // verus!
