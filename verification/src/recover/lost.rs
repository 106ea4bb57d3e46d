//! What holds of detected volumes.

use vstd::prelude::*;

use super::detection::{
    as_apfs, as_btrfs, as_encrypted, as_exfat, as_ext, as_f2fs, as_fat, as_iso, as_lvm, as_refs,
    as_swap, as_udf, behind, by_signature, lost_volumes, recognised,
};
use super::Known;
use crate::source::MAX_SOURCE_LEN;

verus! {

/// Whether a volume, if there is one, lies at an offset.
pub open spec fn lies_at(k: Option<Known>, offset: int) -> bool {
    k matches Some(v) ==> v.offset() == offset
}

proof fn lemma_signed_offset(img: Seq<u8>, offset: int)
    requires
        0 <= offset <= img.len() <= MAX_SOURCE_LEN,
    ensures
        lies_at(as_refs(img, offset), offset),
        lies_at(as_ext(img, offset), offset),
        lies_at(as_apfs(img, offset), offset),
        lies_at(as_btrfs(img, offset), offset),
        lies_at(as_f2fs(img, offset), offset),
        lies_at(as_lvm(img, offset), offset),
        lies_at(as_swap(img, offset), offset),
{
}

proof fn lemma_other_offset(img: Seq<u8>, offset: int)
    requires
        0 <= offset <= img.len() <= MAX_SOURCE_LEN,
    ensures
        lies_at(as_encrypted(img, offset), offset),
        lies_at(as_exfat(img, offset), offset),
        lies_at(as_fat(img, offset), offset),
        lies_at(as_udf(img, offset), offset),
        lies_at(as_iso(img, offset), offset),
{
}

/// A volume that is recognised at an offset lies there.
pub proof fn lemma_recognised_offset(img: Seq<u8>, offset: int)
    requires
        0 <= offset <= img.len() <= MAX_SOURCE_LEN,
    ensures
        lies_at(recognised(img, offset), offset),
{
    reveal(recognised);
    reveal(by_signature);
    lemma_signed_offset(img, offset);
    lemma_other_offset(img, offset);
}

proof fn lemma_behind(offset: int, size: int, step: int)
    requires
        0 <= offset <= MAX_SOURCE_LEN,
        512 <= step <= u64::MAX,
    ensures
        behind(offset, size, step) < u64::MAX ==> {
            &&& behind(offset, size, step) % step == 0
            &&& behind(offset, size, step) >= offset + size
            &&& behind(offset, size, step) >= offset + step
        },
{
    let end = crate::bytes::sat64(offset + crate::bytes::imax(size, step));
    let q = (end + step - 1) / step;
    let r = (end + step - 1) % step;
    assert(end + step - 1 == q * step + r && 0 <= r < step) by (nonlinear_arith)
        requires
            q == (end + step - 1) / step,
            r == (end + step - 1) % step,
            1 <= step,
    ;
    assert(q * step >= end);
    assert((q * step) % step == 0) by (nonlinear_arith)
        requires
            1 <= step,
    ;
}

/// A scan for lost volumes finds each of them at a multiple of the step, exactly as
/// it is recognised there, and no two overlap: each lies behind the end of those
/// before it.
pub proof fn lemma_lost_volumes(img: Seq<u8>, step: int, offset: int, left: int)
    requires
        512 <= step <= u64::MAX,
        0 <= offset,
        offset % step == 0,
        img.len() <= MAX_SOURCE_LEN,
    ensures
        ({
            let vs = lost_volumes(img, step, offset, left);
            &&& forall|i: int|
                0 <= i < vs.len() ==> {
                    let v = #[trigger] vs[i];
                    &&& offset <= v.offset() < img.len()
                    &&& v.offset() % step == 0
                    &&& recognised(img, v.offset()) == Some(v)
                }
            &&& forall|i: int, j: int|
                0 <= i < j < vs.len() ==> (#[trigger] vs[i]).offset() + vs[i].size() <= (
                #[trigger] vs[j]).offset()
        }),
    decreases left,
{
    if offset < img.len() && left > 0 {
        lemma_recognised_offset(img, offset);
        match recognised(img, offset) {
            Some(v) => {
                let next = behind(offset, v.size(), step);
                let rest = lost_volumes(img, step, next, left - 1);
                lemma_behind(offset, v.size(), step);
                if next < img.len() {
                    lemma_lost_volumes(img, step, next, left - 1);
                } else {
                    assert(rest =~= Seq::empty());
                }
                let vs = seq![v] + rest;
                assert forall|i: int| 0 <= i < vs.len() implies {
                    let w = #[trigger] vs[i];
                    &&& offset <= w.offset() < img.len()
                    &&& w.offset() % step == 0
                    &&& recognised(img, w.offset()) == Some(w)
                } by {
                    if i > 0 {
                        assert(vs[i] == rest[i - 1]);
                    }
                }
                assert forall|i: int, j: int| 0 <= i < j < vs.len() implies (
                #[trigger] vs[i]).offset() + vs[i].size() <= (#[trigger] vs[j]).offset() by {
                    assert(vs[j] == rest[j - 1]);
                    if i > 0 {
                        assert(vs[i] == rest[i - 1]);
                    }
                }
            },
            None => {
                assert((offset + step) % step == 0) by (nonlinear_arith)
                    requires
                        offset % step == 0,
                        512 <= step,
                ;
                lemma_lost_volumes(img, step, offset + step, left - 1);
            },
        }
    }
}

} // verus!
