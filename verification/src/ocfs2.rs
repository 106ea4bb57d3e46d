//! OCFS2 **detection**: no metadata undelete.
//!
//! OCFS2 (the Oracle Cluster File System 2) is a shared-disk cluster filesystem for
//! Linux: several nodes mount the same block device at once and coordinate through
//! a cluster stack. Its metadata is cluster-managed rather than single-host, so
//! this module only *recognises* an OCFS2 volume and reports its size, label, and
//! UUID.
//!
//! The "superblock" is really a system inode whose signature is `OCFSV2`, stored at
//! block 2 of the volume. The block size isn't known in advance, so the inode is
//! probed at `2 * block_size` for each supported block size (512 B to 4 KiB).

use vstd::prelude::*;

use crate::bytes::{bytes_at, get_le32, le32};
use crate::numbers::{power, two_to};
use crate::recover::options::{nothing, uuid_text, RecoverOptions, RecoverStats};
use crate::source::{intact, BlockSource};
use crate::text::{opt_text, owned_opt};
use crate::volume::{
    fit, fitted, marked_at, nul_text, read_inside, span, span_from, structure, text_in, uuid_in,
    viewed, Identity, VolumeError,
};

verus! {

/// As much of the inode as covers its fields.
pub const HEADER_LEN: usize = 0x160;

/// The signature of the superblock inode, `OCFSV2`.
pub open spec fn signature() -> Seq<u8> {
    seq![0x4Fu8, 0x43, 0x46, 0x53, 0x56, 0x32]
}

/// A recognised OCFS2 volume (detection only; no metadata undelete).
pub struct Volume {
    /// Byte offset of the volume within the source.
    pub offset: u64,
    pub size: u64,
    pub label: String,
    pub uuid: Option<String>,
}

impl View for Volume {
    type V = Identity;

    open spec fn view(&self) -> Identity {
        Identity {
            offset: self.offset as int,
            size: self.size as int,
            label: self.label@,
            uuid: opt_text(self.uuid),
        }
    }
}

/// How far into the volume the superblock inode lies: at the first of the places
/// that carries the signature.
pub open spec fn inode_at(img: Seq<u8>, offset: int) -> Option<int> {
    if bytes_at(img, offset + 1024, signature()) {
        Some(1024)
    } else if bytes_at(img, offset + 2048, signature()) {
        Some(2048)
    } else if bytes_at(img, offset + 4096, signature()) {
        Some(4096)
    } else if bytes_at(img, offset + 8192, signature()) {
        Some(8192)
    } else {
        None
    }
}

/// Find the superblock inode. A place that cannot be read is passed over.
fn sb_offset<S: BlockSource>(src: &S, offset: u64) -> (r: Option<u64>)
    ensures
        r matches Some(n) ==> n <= 8192 && inode_at(src.image(), offset as int) is Some,
        intact(src) ==> match (r, inode_at(src.image(), offset as int)) {
            (Some(a), Some(b)) => a == b,
            (None, None) => true,
            _ => false,
        },
{
    let sig = [0x4Fu8, 0x43, 0x46, 0x53, 0x56, 0x32];
    assert(sig@ =~= signature());
    if marked_at(src, offset, 1024, &sig) {
        Some(1024)
    } else if marked_at(src, offset, 2048, &sig) {
        Some(2048)
    } else if marked_at(src, offset, 4096, &sig) {
        Some(4096)
    } else if marked_at(src, offset, 8192, &sig) {
        Some(8192)
    } else {
        None
    }
}

/// Does an OCFS2 superblock inode sit at `vol_offset`?
pub fn is_ocfs2<S: BlockSource>(src: &S, vol_offset: u64) -> (r: bool)
    ensures
        r ==> inode_at(src.image(), vol_offset as int) is Some,
        intact(src) ==> r == (inode_at(src.image(), vol_offset as int) is Some),
{
    sb_offset(src, vol_offset).is_some()
}

/// The volume that a superblock inode describes.
pub open spec fn ocfs2_inode(img: Seq<u8>, offset: int, h: Seq<u8>) -> Result<
    Identity,
    VolumeError,
> {
    let clusters = le32(h, 0x14);
    let bits = le32(h, 0xFC);
    if !(9 <= bits <= 30) || clusters == 0 {
        Err(VolumeError::Implausible)
    } else {
        Ok(
            Identity {
                offset,
                size: fitted(clusters * power(bits), span(img, offset), power(bits)),
                label: nul_text(h.subrange(0x110, 0x150)),
                uuid: uuid_text(h.subrange(0x150, 0x160)),
            },
        )
    }
}

/// The OCFS2 volume at an offset of the image.
pub open spec fn ocfs2_volume(img: Seq<u8>, offset: int) -> Result<Identity, VolumeError> {
    match inode_at(img, offset) {
        None => Err(VolumeError::NotRecognised),
        Some(at) => match structure(img, offset + at, HEADER_LEN as int) {
            Err(e) => Err(e),
            Ok(h) => ocfs2_inode(img, offset, h),
        },
    }
}

impl Volume {
    /// Parse the OCFS2 superblock inode at `offset`, failing if there is none.
    pub fn parse<S: BlockSource>(src: &S, offset: u64) -> (r: Result<Volume, VolumeError>)
        ensures
            intact(src) ==> viewed(r) == ocfs2_volume(src.image(), offset as int),
            r matches Ok(v) ==> v@.offset == offset,
    {
        let at: u64 = match sb_offset(src, offset) {
            Some(n) => n,
            None => {
                return Err(VolumeError::NotRecognised);
            },
        };
        let h = match read_inside(src, offset, at, HEADER_LEN) {
            Ok(h) => h,
            Err(e) => {
                return Err(e);
            },
        };
        let s = h.as_slice();
        let clusters: u64 = get_le32(s, 0x14) as u64;
        let bits: u32 = get_le32(s, 0xFC);
        if bits < 9 || bits > 30 || clusters == 0 {
            return Err(VolumeError::Implausible);
        }
        let unit: u64 = two_to(bits);
        Ok(
            Volume {
                offset,
                size: fit(clusters, unit, span_from(src, offset), unit),
                label: text_in(s, 0x110, 0x150),
                uuid: uuid_in(s, 0x150),
            },
        )
    }

    /// Total size of the volume in bytes.
    pub fn size(&self) -> (r: u64)
        ensures
            r == self@.size,
    {
        self.size
    }

    /// Short filesystem label.
    pub fn fs_label(&self) -> (r: &'static str)
        ensures
            r@ == "OCFS2"@,
    {
        "OCFS2"
    }

    /// The volume label, or an empty string when unset.
    pub fn label(&self) -> (r: &str)
        ensures
            r@ == self@.label,
    {
        self.label.as_str()
    }

    /// The filesystem UUID, or `None` when unset.
    pub fn uuid(&self) -> (r: Option<String>)
        ensures
            opt_text(r) == self@.uuid,
    {
        owned_opt(&self.uuid)
    }

    /// OCFS2 metadata undelete is not supported: nothing is ever recovered, so that a mixed disk's other volumes still
    /// are. Carving is the fallback.
    pub fn recover_deleted<S: BlockSource>(&self, _src: &S, _opts: &RecoverOptions) -> (r:
        RecoverStats)
        ensures
            r.view() == nothing(),
    {
        RecoverStats::default()
    }
}

} // verus!
