//! Recovering deleted files of an exFAT volume.

use vstd::prelude::*;

use super::walk::{deleted_files, deleted_list, finds, Deleted, DeletedFile, ALL_CLUSTERS};
use super::Volume;
use crate::bytes::{imin, min_u64, sat64};
use crate::recover::options::RecoverOptions;
use crate::recover::plan::{
    contents, contents_of, piece_bytes, recover_plans, recovers, Piece, Plan, Recovery, Style,
};
use crate::recover::visited::{lemma_distinct_in_range, lemma_push_distinct, Visited};
use crate::source::{intact, window, BlockSource, ReadError, MAX_SOURCE_LEN};
use crate::text::string_of;

verus! {

/// Whether what is recorded of a deleted file makes sense.
pub open spec fn plausible(v: Volume, d: Deleted) -> bool {
    &&& d.data_length > 0
    &&& v.has_cluster(d.first_cluster)
    &&& d.data_length <= v.len()
    &&& d.no_fat_chain ==> sat64(v.cluster_at(d.first_cluster as int) + d.data_length) <= v.end()
}

/// What was found of a file by following its chain: where its parts lie, and how
/// many bytes are missing.
pub struct Parts {
    pub pieces: Seq<Piece>,
    pub missing: int,
}

/// The parts of a file from `cluster` on, behind those already found. The chain
/// ends at a cluster that was seen before, and where the source does.
pub open spec fn file_chain(
    img: Seq<u8>,
    v: Volume,
    cluster: u32,
    seen: Seq<u32>,
    p: Parts,
) -> Parts
    decreases ALL_CLUSTERS + 1 - seen.len(),
{
    let at = v.cluster_at(cluster as int);
    let want = imin(p.missing, v.cluster_len());
    let got = window(img, at, want).len();
    if p.missing <= 0 || !v.has_cluster(cluster) || seen.contains(cluster) || seen.len()
        > ALL_CLUSTERS || got == 0 {
        p
    } else {
        let next = Parts {
            pieces: p.pieces.push(Piece::Data { offset: at as u64, len: want as u64 }),
            missing: p.missing - got,
        };
        match v.next(img, cluster as int) {
            Some(n) => file_chain(img, v, n, seen.push(cluster), next),
            None => next,
        }
    }
}

/// Whether the device is not certain to serve some read of a file's chain in the FAT.
pub open spec fn hard_file_chain<S: BlockSource>(
    src: &S,
    v: Volume,
    cluster: u32,
    seen: Seq<u32>,
    missing: int,
) -> bool
    decreases ALL_CLUSTERS + 1 - seen.len(),
{
    let got = window(
        src.image(),
        v.cluster_at(cluster as int),
        imin(missing, v.cluster_len()),
    ).len();
    if missing <= 0 || !v.has_cluster(cluster) || seen.contains(cluster) || seen.len()
        > ALL_CLUSTERS || got == 0 {
        false
    } else {
        ||| !src.readable(v.link_at(cluster as int), 4)
        ||| match v.next(src.image(), cluster as int) {
            Some(n) => hard_file_chain(src, v, n, seen.push(cluster), missing - got),
            None => false,
        }
    }
}

/// Where the contents of a deleted file lie: contiguous if the file says so, or
/// if its chain is incomplete (likely freed by the delete).
pub open spec fn file_pieces(img: Seq<u8>, v: Volume, d: Deleted) -> Seq<Piece> {
    let straight = seq![
        Piece::Data {
            offset: v.cluster_at(d.first_cluster as int) as u64,
            len: d.data_length as u64,
        },
    ];
    let chain = file_chain(
        img,
        v,
        d.first_cluster,
        Seq::empty(),
        Parts { pieces: Seq::empty(), missing: d.data_length },
    );
    if d.no_fat_chain || chain.missing > 0 {
        straight
    } else {
        chain.pieces
    }
}

/// Whether a plan is that of a deleted file.
pub open spec fn plans_file(img: Seq<u8>, v: Volume, d: Deleted, p: Plan) -> bool {
    &&& p.path@ == d.path
    &&& p.size == d.data_length
    &&& p.mtime == d.mtime
    &&& p.atime == d.atime
    &&& p.valid == plausible(v, d)
    &&& p.pieces@ == if plausible(v, d) {
        file_pieces(img, v, d)
    } else {
        Seq::empty()
    }
}

/// Whether a plan is that of a deleted file, or has no pieces because the device may
/// refuse to give the chain of the file.
pub open spec fn may_plan<S: BlockSource>(src: &S, v: Volume, d: Deleted, p: Plan) -> bool {
    ||| plans_file(src.image(), v, d, p)
    ||| {
        &&& plausible(v, d)
        &&& !d.no_fat_chain
        &&& hard_file_chain(src, v, d.first_cluster, Seq::empty(), d.data_length)
        &&& p.path@ == d.path
        &&& p.size == d.data_length
        &&& p.mtime == d.mtime
        &&& p.atime == d.atime
        &&& p.valid
        &&& p.pieces@.len() == 0
    }
}

/// Whether plans are those of a list of deleted files, as far as the device gives their
/// chains.
pub open spec fn may_plan_all<S: BlockSource>(
    src: &S,
    v: Volume,
    files: Seq<Deleted>,
    plans: Seq<Plan>,
) -> bool {
    &&& plans.len() == files.len()
    &&& forall|i: int| 0 <= i < files.len() ==> may_plan(src, v, #[trigger] files[i], plans[i])
}

/// Whether plans are those of a list of deleted files.
pub open spec fn plans_files(
    img: Seq<u8>,
    v: Volume,
    files: Seq<Deleted>,
    plans: Seq<Plan>,
) -> bool {
    &&& plans.len() == files.len()
    &&& forall|i: int| 0 <= i < files.len() ==> plans_file(img, v, #[trigger] files[i], plans[i])
}

proof fn lemma_contents_push(img: Seq<u8>, ps: Seq<Piece>, p: Piece, n: int)
    requires
        n <= ps.len(),
    ensures
        contents_of(img, ps.push(p), n) == contents_of(img, ps, n),
    decreases n,
{
    if n > 0 {
        lemma_contents_push(img, ps, p, n - 1);
    }
}

proof fn lemma_chain_len(img: Seq<u8>, v: Volume, cluster: u32, seen: Seq<u32>, p: Parts)
    requires
        img.len() <= MAX_SOURCE_LEN,
        0 <= p.missing <= u64::MAX,
    ensures
        ({
            let r = file_chain(img, v, cluster, seen, p);
            &&& 0 <= r.missing
            &&& contents(img, r.pieces).len() + r.missing == contents(img, p.pieces).len()
                + p.missing
        }),
    decreases ALL_CLUSTERS + 1 - seen.len(),
{
    let at = v.cluster_at(cluster as int);
    let want = imin(p.missing, v.cluster_len());
    let got = window(img, at, want).len();
    if !(p.missing <= 0 || !v.has_cluster(cluster) || seen.contains(cluster) || seen.len()
        > ALL_CLUSTERS || got == 0) {
        let piece = Piece::Data { offset: at as u64, len: want as u64 };
        let next = Parts { pieces: p.pieces.push(piece), missing: p.missing - got };
        assert(0 <= at < img.len());
        assert(0 < got <= want <= p.missing);
        lemma_contents_push(img, p.pieces, piece, p.pieces.len() as int);
        assert(contents(img, next.pieces) == contents(img, p.pieces) + piece_bytes(img, piece));
        match v.next(img, cluster as int) {
            Some(n) => {
                lemma_chain_len(img, v, n, seen.push(cluster), next);
            },
            None => {},
        }
    }
}

/// A file that is stored contiguously comes back as the bytes from its first cluster
/// on; one whose chain is whole comes back with its recorded size.
pub proof fn lemma_whole_file(img: Seq<u8>, v: Volume, d: Deleted, p: Plan)
    requires
        v.end() <= img.len() <= MAX_SOURCE_LEN,
        plausible(v, d),
        d.data_length <= u64::MAX,
        plans_file(img, v, d, p),
    ensures
        ({
            let at = v.cluster_at(d.first_cluster as int);
            let chain = file_chain(
                img,
                v,
                d.first_cluster,
                Seq::empty(),
                Parts { pieces: Seq::empty(), missing: d.data_length },
            );
            &&& d.no_fat_chain ==> contents(img, p.pieces@) == img.subrange(at, at + d.data_length)
            &&& !d.no_fat_chain && chain.missing <= 0 ==> contents(img, p.pieces@).len()
                == d.data_length
        }),
{
    let at = v.cluster_at(d.first_cluster as int);
    let none = Parts { pieces: Seq::empty(), missing: d.data_length };
    assert(contents(img, none.pieces).len() == 0);
    lemma_chain_len(img, v, d.first_cluster, Seq::empty(), none);
    if d.no_fat_chain {
        reveal_with_fuel(contents_of, 2);
        assert(contents(img, p.pieces@) =~= piece_bytes(img, p.pieces@[0]));
        assert(window(img, at, d.data_length) =~= img.subrange(at, at + d.data_length));
    }
}

/// exFAT reports the recorded sizes.
pub open spec fn exfat_style() -> Style {
    Style { nominal: true, keep_empty: false }
}

/// Follow the chain of a file.
fn follow_chain<S: BlockSource>(src: &S, v: &Volume, d: &DeletedFile) -> (r: Result<
    (Vec<Piece>, u64),
    ReadError,
>)
    requires
        v.wf(),
    ensures
        r matches Ok(x) ==> (Parts { pieces: x.0@, missing: x.1 as int }) == file_chain(
            src.image(),
            *v,
            d.first_cluster,
            Seq::empty(),
            Parts { pieces: Seq::empty(), missing: d.data_length as int },
        ),
        r is Err ==> hard_file_chain(
            src,
            *v,
            d.first_cluster,
            Seq::empty(),
            d.data_length as int,
        ),
        intact(src) ==> r is Ok,
{
    let ghost img = src.image();
    let size: u64 = src.size();
    let ghost whole = file_chain(
        img,
        *v,
        d.first_cluster,
        Seq::empty(),
        Parts { pieces: Seq::empty(), missing: d.data_length as int },
    );
    let cb: u64 = v.cluster_size();
    let mut pieces: Vec<Piece> = Vec::new();
    let mut missing: u64 = d.data_length;
    let mut seen = Visited::new();
    let mut cluster: u32 = d.first_cluster;
    assert(pieces@ =~= Seq::empty());
    loop
        invariant
            img == src.image(),
            size == img.len() <= MAX_SOURCE_LEN,
            v.wf(),
            cb == v.cluster_len(),
            seen@.no_duplicates(),
            whole == file_chain(
                img,
                *v,
                d.first_cluster,
                Seq::empty(),
                Parts { pieces: Seq::empty(), missing: d.data_length as int },
            ),
            whole == file_chain(
                img,
                *v,
                cluster,
                seen@,
                Parts { pieces: pieces@, missing: missing as int },
            ),
            hard_file_chain(src, *v, cluster, seen@, missing as int) ==> hard_file_chain(
                src,
                *v,
                d.first_cluster,
                Seq::empty(),
                d.data_length as int,
            ),
        decreases ALL_CLUSTERS + 1 - seen@.len(),
    {
        proof {
            lemma_distinct_in_range(seen@, 0, u32::MAX as int);
        }
        if missing == 0 || cluster < 2 || cluster > v.max_valid_cluster() || seen.contains(
            cluster,
        ) {
            return Ok((pieces, missing));
        }
        let at: u64 = v.cluster_offset(cluster);
        let want: u64 = min_u64(missing, cb);
        let got: u64 = if at >= size {
            0
        } else {
            min_u64(want, size - at)
        };
        assert(got == window(img, at as int, want as int).len());
        if got == 0 {
            return Ok((pieces, missing));
        }
        let ghost was = seen@;
        let (next_seen, _fresh) = seen.insert(cluster);
        seen = next_seen;
        proof {
            lemma_push_distinct(was, cluster);
            lemma_distinct_in_range(seen@, 0, u32::MAX as int);
        }
        pieces.push(Piece::Data { offset: at, len: want });
        missing = missing - got;
        match v.next_cluster(src, cluster)? {
            Some(n) => {
                cluster = n;
            },
            None => {
                return Ok((pieces, missing));
            },
        }
    }
}

impl Volume {
    fn valid_extent(&self, d: &DeletedFile) -> (r: bool)
        requires
            self.wf(),
        ensures
            r == plausible(*self, d.view()),
    {
        if d.data_length == 0 || d.first_cluster < 2 || d.first_cluster > self.max_valid_cluster()
            || d.data_length > self.size() {
            return false;
        }
        // For contiguous files the whole extent must fit inside the volume.
        if d.no_fat_chain {
            let start: u64 = self.cluster_offset(d.first_cluster);
            let end: u64 = self.offset.saturating_add(self.size());
            return start.saturating_add(d.data_length) <= end;
        }
        true
    }

    /// Where the contents of a deleted file lie, following the FAT chain when
    /// present and falling back to a contiguous extent otherwise.
    fn locate<S: BlockSource>(&self, src: &S, d: &DeletedFile) -> (r: Result<Vec<Piece>, ReadError>)
        requires
            self.wf(),
            d.first_cluster >= 2,
        ensures
            r matches Ok(ps) ==> ps@ == file_pieces(src.image(), *self, d.view()),
            r is Err ==> !d.no_fat_chain && hard_file_chain(
                src,
                *self,
                d.first_cluster,
                Seq::empty(),
                d.data_length as int,
            ),
            intact(src) ==> r is Ok,
    {
        if !d.no_fat_chain {
            let (pieces, missing) = follow_chain(src, self, d)?;
            if missing == 0 {
                return Ok(pieces);
            }
        }
        let mut straight: Vec<Piece> = Vec::new();
        straight.push(
            Piece::Data { offset: self.cluster_offset(d.first_cluster), len: d.data_length },
        );
        assert(straight@ =~= seq![
            Piece::Data {
                offset: self.cluster_at(d.first_cluster as int) as u64,
                len: d.data_length,
            },
        ]);
        Ok(straight)
    }

    /// Plan the recovery of a deleted file. When its chain cannot be read there
    /// are no pieces.
    fn plan<S: BlockSource>(&self, src: &S, d: &DeletedFile) -> (r: Plan)
        requires
            self.wf(),
        ensures
            may_plan(src, *self, d.view(), r),
            intact(src) ==> plans_file(src.image(), *self, d.view(), r),
    {
        let valid = self.valid_extent(d);
        let mut pieces: Vec<Piece> = Vec::new();
        if valid {
            match self.locate(src, d) {
                Ok(ps) => {
                    pieces = ps;
                },
                Err(_) => {},
            }
        } else {
            assert(pieces@ =~= Seq::empty());
        }
        Plan {
            path: string_of(&d.path),
            size: d.data_length,
            mtime: d.mtime,
            atime: d.atime,
            valid,
            pieces,
        }
    }

    /// Find the deleted files on this volume and plan their recovery.
    pub fn plans<S: BlockSource>(&self, src: &S) -> (r: Vec<Plan>)
        requires
            self.wf(),
        ensures
            exists|files: Seq<Deleted>| #[trigger]
                finds(src, *self, files) && may_plan_all(src, *self, files, r@),
            intact(src) ==> plans_files(
                src.image(),
                *self,
                deleted_files(src.image(), *self),
                r@,
            ),
    {
        let files = self.walk(src);
        let mut out: Vec<Plan> = Vec::new();
        let mut i: usize = 0;
        while i < files.len()
            invariant
                self.wf(),
                i <= files@.len(),
                out@.len() == i,
                forall|k: int|
                    0 <= k < i ==> may_plan(
                        src,
                        *self,
                        (#[trigger] files@[k]).view(),
                        out@[k],
                    ),
                intact(src) ==> forall|k: int|
                    0 <= k < i ==> plans_file(
                        src.image(),
                        *self,
                        (#[trigger] files@[k]).view(),
                        out@[k],
                    ),
            decreases files.len() - i,
        {
            out.push(self.plan(src, &files[i]));
            i = i + 1;
        }
        proof {
            assert(finds(src, *self, deleted_list(files@)));
            assert forall|k: int| 0 <= k < files@.len() implies may_plan(
                src,
                *self,
                #[trigger] deleted_list(files@)[k],
                out@[k],
            ) by {
                assert(deleted_list(files@)[k] == files@[k].view());
            }
            if intact(src) {
                assert forall|k: int| 0 <= k < files@.len() implies plans_file(
                    src.image(),
                    *self,
                    #[trigger] deleted_list(files@)[k],
                    out@[k],
                ) by {
                    assert(deleted_list(files@)[k] == files@[k].view());
                }
            }
        }
        out
    }

    /// Recover the deleted files on this volume that the options ask for. Gives
    /// the plans too: the contents of those taken are to be written.
    pub fn recover_deleted<S: BlockSource>(&self, src: &S, opts: &RecoverOptions) -> (r: (
        Vec<Plan>,
        Recovery,
    ))
        requires
            self.wf(),
        ensures
            exists|files: Seq<Deleted>| #[trigger]
                finds(src, *self, files) && may_plan_all(src, *self, files, r.0@),
            intact(src) ==> plans_files(
                src.image(),
                *self,
                deleted_files(src.image(), *self),
                r.0@,
            ),
            exists|lost: Seq<bool>| #[trigger]
                recovers(src, *opts, r.0@, exfat_style(), r.1, lost),
    {
        let plans = self.plans(src);
        let style = Style { nominal: true, keep_empty: false };
        let got = recover_plans(src, opts, &plans, style);
        let ghost lost = choose|lost: Seq<bool>| #[trigger]
            recovers(src, *opts, plans@, style, got, lost);
        let out = (plans, got);
        assert(recovers(src, *opts, out.0@, exfat_style(), out.1, lost));
        out
    }
}

} // verus!
