//! The free space of an exFAT volume: the clusters whose bit in the allocation bitmap
//! is not set.

use vstd::prelude::*;

use super::walk::{dir_chain, read_dir_chain};
use super::Volume;
use crate::bytes::{get_le32, get_le64, le32, le64};
use crate::recover::free::{
    add_unit, apart, in_ranges, is_free, lemma_with_unit, says_free, with_unit,
};
use crate::source::{intact, BlockSource, ReadError};

verus! {

/// Where an allocation bitmap lies: its first cluster and its length.
#[derive(Clone, Copy, Debug, PartialEq, Eq, Structural)]
pub struct Bitmap {
    pub first_cluster: u32,
    pub len: u64,
}

/// The bitmap that a directory names, from the entry at `i` on.
pub open spec fn bitmap_entry(b: Seq<u8>, i: int) -> Option<Bitmap>
    decreases b.len() - i,
{
    if i < 0 || i + 32 > b.len() || b[i] == 0 {
        None
    } else if b[i] == 0x81 {
        Some(Bitmap { first_cluster: le32(b, i + 20) as u32, len: le64(b, i + 24) as u64 })
    } else {
        bitmap_entry(b, i + 32)
    }
}

fn find_bitmap(b: &Vec<u8>) -> (r: Option<Bitmap>)
    ensures
        r == bitmap_entry(b@, 0),
{
    let n: usize = b.len();
    let mut i: usize = 0;
    while n - i >= 32
        invariant
            i <= n == b@.len(),
            bitmap_entry(b@, 0) == bitmap_entry(b@, i as int),
        decreases n - i,
    {
        if b[i] == 0 {
            return None;
        }
        if b[i] == 0x81 {
            return Some(
                Bitmap {
                    first_cluster: get_le32(b.as_slice(), i + 20),
                    len: get_le64(b.as_slice(), i + 24),
                },
            );
        }
        i = i + 32;
    }
    None
}

/// The allocation bitmap of a volume.
pub open spec fn bitmap(img: Seq<u8>, v: Volume) -> Option<Seq<u8>> {
    let root = dir_chain(img, v, v.root_cluster, Seq::empty(), Seq::empty(), None);
    match bitmap_entry(root, 0) {
        Some(e) => Some(
            dir_chain(img, v, e.first_cluster, Seq::empty(), Seq::empty(), Some(e.len)),
        ),
        None => None,
    }
}

/// The ranges of the free clusters among the first `n`.
pub open spec fn free_clusters(map_bytes: Seq<u8>, v: Volume, n: int) -> Seq<(u64, u64)>
    decreases n,
{
    if n <= 0 {
        Seq::empty()
    } else {
        let before = free_clusters(map_bytes, v, n - 1);
        if says_free(map_bytes, n - 1) {
            with_unit(before, v.cluster_at(n + 1), v.cluster_len())
        } else {
            before
        }
    }
}

proof fn lemma_next_cluster(v: Volume, n: int)
    requires
        v.wf(),
        0 <= n < v.cluster_count,
    ensures
        v.cluster_at(n + 2) + v.cluster_len() == v.cluster_at(n + 3),
        0 < v.cluster_len(),
        0 <= v.cluster_at(n + 2),
        v.cluster_at(n + 3) <= u64::MAX,
        v.cluster_at(2) == v.offset + v.cluster_heap_offset_sectors * v.bytes_per_sector,
{
    let c = v.cluster_len();
    let h = v.cluster_heap_offset_sectors as int;
    let b = v.bytes_per_sector as int;
    assert(0 <= h * b <= 0xFFFF_FFFF * 4096) by (nonlinear_arith)
        requires
            0 <= h <= 0xFFFF_FFFF,
            0 <= b <= 4096,
    ;
    assert(n * c + c == (n + 1) * c && 0 <= n * c && (n + 1) * c <= 0xFFFF_FFFF * 0x200_0000)
        by (nonlinear_arith)
        requires
            0 <= n < 0xFFFF_FFFF,
            512 <= c <= 0x200_0000,
    ;
    assert(0 * c == 0);
}

/// The free ranges lie apart, and hold exactly the bytes of the clusters that the
/// bitmap says are free.
pub proof fn lemma_free_clusters(map_bytes: Seq<u8>, v: Volume, n: int)
    requires
        v.wf(),
        0 <= n <= v.cluster_count,
    ensures
        apart(free_clusters(map_bytes, v, n), v.cluster_at(n + 2)),
        forall|i: int|
            #[trigger] in_ranges(free_clusters(map_bytes, v, n), i) <==> exists|k: int|
                0 <= k < n && #[trigger] says_free(map_bytes, k) && v.cluster_at(k + 2) <= i
                    < v.cluster_at(k + 2) + v.cluster_len(),
    decreases n,
{
    if n > 0 {
        lemma_free_clusters(map_bytes, v, n - 1);
        lemma_next_cluster(v, n - 1);
        let before = free_clusters(map_bytes, v, n - 1);
        let rs = free_clusters(map_bytes, v, n);
        if says_free(map_bytes, n - 1) {
            lemma_with_unit(before, v.cluster_at(n + 1), v.cluster_len());
        }
        assert forall|i: int| #[trigger] in_ranges(rs, i) <==> exists|k: int|
            0 <= k < n && #[trigger] says_free(map_bytes, k) && v.cluster_at(k + 2) <= i
                < v.cluster_at(k + 2) + v.cluster_len() by {
            let was = in_ranges(before, i);
            if in_ranges(rs, i) {
                if was {
                    let k = choose|k: int|
                        0 <= k < n - 1 && #[trigger] says_free(map_bytes, k) && v.cluster_at(k + 2)
                            <= i < v.cluster_at(k + 2) + v.cluster_len();
                    assert(0 <= k < n && says_free(map_bytes, k));
                } else {
                    assert(says_free(map_bytes, n - 1));
                }
            }
            if exists|k: int|
                0 <= k < n && #[trigger] says_free(map_bytes, k) && v.cluster_at(k + 2) <= i
                    < v.cluster_at(k + 2) + v.cluster_len() {
                let k = choose|k: int|
                    0 <= k < n && #[trigger] says_free(map_bytes, k) && v.cluster_at(k + 2) <= i
                        < v.cluster_at(k + 2) + v.cluster_len();
                if k < n - 1 {
                    assert(was);
                }
            }
        }
    }
}

impl Volume {
    /// Absolute byte ranges of the volume's free space; `None` when the volume names
    /// no allocation bitmap.
    pub fn free_extents<S: BlockSource>(&self, src: &S) -> (r: Result<
        Option<Vec<(u64, u64)>>,
        ReadError,
    >)
        requires
            self.wf(),
        ensures
            r matches Ok(o) ==> match (o, bitmap(src.image(), *self)) {
                (Some(v), Some(m)) => v@ == free_clusters(m, *self, self.cluster_count as int),
                (None, None) => true,
                _ => false,
            },
            intact(src) ==> r is Ok,
    {
        let root = read_dir_chain(src, self, self.root_cluster, None)?;
        let entry = match find_bitmap(&root) {
            Some(e) => e,
            None => {
                return Ok(None);
            },
        };
        let map_bytes = read_dir_chain(src, self, entry.first_cluster, Some(entry.len))?;
        let mut out: Vec<(u64, u64)> = Vec::new();
        if self.cluster_count == 0 {
            return Ok(Some(out));
        }
        let len: u64 = self.cluster_size();
        proof {
            lemma_next_cluster(*self, 0);
        }
        let mut at: u64 = self.offset + self.cluster_heap_offset_sectors * self.bytes_per_sector;
        let mut n: u32 = 0;
        while n < self.cluster_count
            invariant
                self.wf(),
                len == self.cluster_len(),
                n <= self.cluster_count,
                at == self.cluster_at(n + 2),
                out@ == free_clusters(map_bytes@, *self, n as int),
                apart(out@, at as int),
            decreases self.cluster_count - n,
        {
            proof {
                lemma_next_cluster(*self, n as int);
            }
            if is_free(&map_bytes, n as u64) {
                add_unit(&mut out, at, len);
            }
            at = at + len;
            assert(apart(out@, at as int));
            n = n + 1;
        }
        Ok(Some(out))
    }
}

} // verus!
