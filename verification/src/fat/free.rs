//! The free space of a FAT volume: the clusters whose entry in the FAT is zero.

use vstd::prelude::*;

use super::{lemma_cluster_fits, Volume};
use crate::recover::free::{add_unit, apart, in_ranges, lemma_with_unit, with_unit};
use crate::source::{intact, BlockSource, ReadError};

verus! {

/// The ranges of the free clusters among the first `n`.
pub open spec fn free_clusters(img: Seq<u8>, v: Volume, n: int) -> Seq<(u64, u64)>
    decreases n,
{
    if n <= 0 {
        Seq::empty()
    } else {
        let before = free_clusters(img, v, n - 1);
        if v.link(img, n + 1) == Some(0int) {
            with_unit(before, v.cluster_at(n + 1), v.cluster_len())
        } else {
            before
        }
    }
}

proof fn lemma_next_cluster(v: Volume, cluster: int)
    requires
        v.wf(),
        2 <= cluster <= v.last_cluster(),
    ensures
        v.cluster_at(cluster) + v.cluster_len() == v.cluster_at(cluster + 1),
        0 < v.cluster_len(),
        0 <= v.cluster_at(cluster),
        v.cluster_at(cluster + 1) <= u64::MAX,
{
    lemma_cluster_fits(v, cluster);
    let s = v.sectors_per_cluster as int;
    let b = v.bytes_per_sector as int;
    let f = v.first_data_sector as int;
    let k = cluster - 2;
    assert((f + k * s) * b + s * b == (f + (k + 1) * s) * b && 0 < s * b) by (nonlinear_arith)
        requires
            1 <= s,
            1 <= b,
    ;
}

/// The free ranges lie apart, and hold exactly the bytes of the clusters that the
/// FAT marks free.
pub proof fn lemma_free_clusters(img: Seq<u8>, v: Volume, n: int)
    requires
        v.wf(),
        0 <= n <= v.count_of_clusters,
    ensures
        apart(free_clusters(img, v, n), v.cluster_at(n + 2)),
        forall|i: int|
            #[trigger] in_ranges(free_clusters(img, v, n), i) <==> exists|c: int|
                2 <= c < n + 2 && #[trigger] v.link(img, c) == Some(0int) && v.cluster_at(c) <= i
                    < v.cluster_at(c) + v.cluster_len(),
    decreases n,
{
    if n > 0 {
        lemma_free_clusters(img, v, n - 1);
        lemma_next_cluster(v, n + 1);
        let before = free_clusters(img, v, n - 1);
        let rs = free_clusters(img, v, n);
        let at = v.cluster_at(n + 1);
        let len = v.cluster_len();
        if v.link(img, n + 1) == Some(0int) {
            lemma_with_unit(before, at, len);
        }
        assert forall|i: int| #[trigger] in_ranges(rs, i) <==> exists|c: int|
            2 <= c < n + 2 && #[trigger] v.link(img, c) == Some(0int) && v.cluster_at(c) <= i
                < v.cluster_at(c) + v.cluster_len() by {
            let was = in_ranges(before, i);
            if in_ranges(rs, i) {
                if was {
                    let c = choose|c: int|
                        2 <= c < n + 1 && #[trigger] v.link(img, c) == Some(0int) && v.cluster_at(c)
                            <= i < v.cluster_at(c) + v.cluster_len();
                    assert(2 <= c < n + 2 && v.link(img, c) == Some(0int));
                } else {
                    assert(v.link(img, n + 1) == Some(0int));
                }
            }
            if exists|c: int|
                2 <= c < n + 2 && #[trigger] v.link(img, c) == Some(0int) && v.cluster_at(c) <= i
                    < v.cluster_at(c) + v.cluster_len() {
                let c = choose|c: int|
                    2 <= c < n + 2 && #[trigger] v.link(img, c) == Some(0int) && v.cluster_at(c)
                        <= i < v.cluster_at(c) + v.cluster_len();
                if c < n + 1 {
                    assert(was);
                }
            }
        }
    } else {
        lemma_first_cluster(v);
    }
}

proof fn lemma_first_cluster(v: Volume)
    requires
        v.wf(),
    ensures
        0 <= v.cluster_at(2) <= u64::MAX,
        0 <= v.first_data_sector * v.bytes_per_sector <= u64::MAX,
        v.cluster_at(2) == v.offset + v.first_data_sector * v.bytes_per_sector,
{
    let f = v.first_data_sector as int;
    let b = v.bytes_per_sector as int;
    assert(0 <= f * b <= 0xFFFF_FFFF * 65535) by (nonlinear_arith)
        requires
            0 <= f <= 0xFFFF_FFFF,
            1 <= b <= 65535,
    ;
    let z = (2 - 2) * v.sectors_per_cluster;
    assert(z == 0);
}

impl Volume {
    /// Absolute byte ranges of the volume's free space.
    pub fn free_extents<S: BlockSource>(&self, src: &S) -> (r: Result<Vec<(u64, u64)>, ReadError>)
        requires
            self.wf(),
        ensures
            r matches Ok(v) ==> v@ == free_clusters(
                src.image(),
                *self,
                self.count_of_clusters as int,
            ),
            intact(src) ==> r is Ok,
    {
        let ghost img = src.image();
        let len: u64 = self.cluster_size();
        let mut out: Vec<(u64, u64)> = Vec::new();
        let mut n: u32 = 0;
        proof {
            lemma_first_cluster(*self);
        }
        let mut at: u64 = self.offset + self.first_data_sector as u64 * self.bytes_per_sector as u64;
        while n < self.count_of_clusters
            invariant
                self.wf(),
                img == src.image(),
                len == self.cluster_len(),
                n <= self.count_of_clusters,
                at == self.cluster_at(n + 2),
                out@ == free_clusters(img, *self, n as int),
                apart(out@, at as int),
            decreases self.count_of_clusters - n,
        {
            proof {
                lemma_next_cluster(*self, n + 2);
            }
            if let Some(value) = self.read_link(src, n as u64 + 2)? {
                if value == 0 {
                    add_unit(&mut out, at, len);
                }
            }
            at = at + len;
            assert(apart(out@, at as int));
            n = n + 1;
        }
        Ok(out)
    }
}

} // verus!
