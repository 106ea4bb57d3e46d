//! Deleted files that a filesystem backend has found: where their contents lie,
//! which of them a run takes, and what it reports.

use vstd::prelude::*;

use super::options::{
    file_name_of, final_name, nothing, Outcome, RecoverOptions, RecoverStats,
};
use crate::bytes::min_u64;
use crate::hash::{sha256, Sha256, MAX_MESSAGE};
use crate::source::{intact, window, BlockSource, ReadError, MAX_SOURCE_LEN};
use crate::text::{chars_of, string_of};
use crate::times::Timestamp;

verus! {

/// How much of a file is read at a time.
pub const PIECE_CHUNK: u64 = 0x10_0000;

/// A part of a file's contents.
#[derive(Clone, Copy, Debug, PartialEq, Eq, Structural)]
pub enum Piece {
    /// Bytes of the source.
    Data { offset: u64, len: u64 },
    /// Zeros that are not stored.
    Hole { len: u64 },
}

/// The bytes of a piece. What lies past the end of the source is missing.
pub open spec fn piece_bytes(img: Seq<u8>, p: Piece) -> Seq<u8> {
    match p {
        Piece::Data { offset, len } => window(img, offset as int, len as int),
        Piece::Hole { len } => Seq::new(len as nat, |i: int| 0u8),
    }
}

/// The bytes of the first `n` pieces.
pub open spec fn contents_of(img: Seq<u8>, ps: Seq<Piece>, n: int) -> Seq<u8>
    decreases n,
{
    if n <= 0 {
        Seq::empty()
    } else {
        contents_of(img, ps, n - 1) + piece_bytes(img, ps[n - 1])
    }
}

/// The bytes of a file.
pub open spec fn contents(img: Seq<u8>, ps: Seq<Piece>) -> Seq<u8> {
    contents_of(img, ps, ps.len() as int)
}

proof fn lemma_contents_grow(img: Seq<u8>, ps: Seq<Piece>, n: int, m: int)
    requires
        0 <= n <= m,
    ensures
        contents_of(img, ps, n).len() <= contents_of(img, ps, m).len(),
    decreases m - n,
{
    if n < m {
        lemma_contents_grow(img, ps, n, m - 1);
    }
}

/// A deleted file that may be recovered.
pub struct Plan {
    /// Path relative to the volume root.
    pub path: String,
    /// The size that the filesystem records.
    pub size: u64,
    pub mtime: Option<Timestamp>,
    pub atime: Option<Timestamp>,
    /// Whether what the filesystem records of the file is plausible.
    pub valid: bool,
    /// Where its contents lie.
    pub pieces: Vec<Piece>,
}

/// Whether the device is not certain to serve some part of the `len` bytes from
/// `offset` on.
pub open spec fn hard_span<S: BlockSource>(src: &S, offset: int, len: int) -> bool {
    exists|a: int, n: int|
        offset <= a && 0 < n && a + n <= offset + len && !#[trigger] src.readable(a, n)
}

/// Whether the device is not certain to serve some part of a piece.
pub open spec fn hard_piece<S: BlockSource>(src: &S, p: Piece) -> bool {
    p matches Piece::Data { offset, len } && hard_span(src, offset as int, len as int)
}

/// Whether the device is not certain to serve some part of a file.
pub open spec fn hard_file<S: BlockSource>(src: &S, ps: Seq<Piece>) -> bool {
    exists|k: int| 0 <= k < ps.len() && hard_piece(src, #[trigger] ps[k])
}

/// The number of bytes of a piece.
fn piece_len(size: u64, p: Piece) -> (r: u64)
    requires
        size <= MAX_SOURCE_LEN,
    ensures
        forall|img: Seq<u8>| img.len() == size ==> #[trigger] piece_bytes(img, p).len() == r,
{
    match p {
        Piece::Data { offset, len } => if offset >= size {
            0
        } else {
            min_u64(len, size - offset)
        },
        Piece::Hole { len } => len,
    }
}

/// The number of bytes of a file, `None` when they are more than can be hashed.
fn contents_len<S: BlockSource>(src: &S, ps: &Vec<Piece>) -> (r: Option<u64>)
    ensures
        match r {
            Some(n) => n == contents(src.image(), ps@).len() && n <= MAX_MESSAGE,
            None => contents(src.image(), ps@).len() > MAX_MESSAGE,
        },
{
    let size: u64 = src.size();
    let ghost img = src.image();
    let mut total: u64 = 0;
    let mut i: usize = 0;
    while i < ps.len()
        invariant
            i <= ps@.len(),
            size == img.len() <= MAX_SOURCE_LEN,
            img == src.image(),
            total == contents_of(img, ps@, i as int).len(),
            total <= MAX_MESSAGE,
        decreases ps.len() - i,
    {
        let n: u64 = piece_len(size, ps[i]);
        assert(piece_bytes(img, ps@[i as int]).len() == n);
        proof {
            lemma_contents_grow(img, ps@, i + 1, ps@.len() as int);
        }
        if n > MAX_MESSAGE - total {
            return None;
        }
        total = total + n;
        i = i + 1;
    }
    Some(total)
}

/// Absorb a piece of the source.
fn absorb_data<S: BlockSource>(src: &S, hasher: Sha256, offset: u64, len: u64) -> (r: Result<
    Sha256,
    ReadError,
>)
    requires
        hasher@.len() + len <= MAX_MESSAGE,
        offset + len <= src.image().len() <= MAX_SOURCE_LEN,
    ensures
        r matches Ok(h) ==> h@ == hasher@ + src.image().subrange(offset as int, offset + len),
        r is Err ==> hard_span(src, offset as int, len as int),
{
    let ghost img = src.image();
    let ghost first = hasher@;
    let mut h = hasher;
    let mut done: u64 = 0;
    assert(first + img.subrange(offset as int, offset as int) =~= first);
    while done < len
        invariant
            img == src.image(),
            done <= len,
            first.len() + len <= MAX_MESSAGE,
            offset + len <= img.len() <= MAX_SOURCE_LEN,
            h@ == first + img.subrange(offset as int, offset + done),
        decreases len - done,
    {
        let want: u64 = min_u64(len - done, PIECE_CHUNK);
        let buf = match src.read_at(offset + done, want as usize) {
            Ok(b) => b,
            Err(e) => {
                assert(!src.readable((offset + done) as int, want as int));
                return Err(e);
            },
        };
        assert(buf@ =~= img.subrange(offset + done, offset + done + want));
        h = h.update(buf.as_slice());
        assert(first + img.subrange(offset as int, offset + done) + buf@ =~= first + img.subrange(
            offset as int,
            offset + done + want,
        ));
        done = done + want;
    }
    Ok(h)
}

fn zero_chunk(n: usize) -> (r: Vec<u8>)
    ensures
        r@ == Seq::new(n as nat, |i: int| 0u8),
{
    let mut v: Vec<u8> = Vec::new();
    while v.len() < n
        invariant
            v@.len() <= n,
            forall|i: int| 0 <= i < v@.len() ==> v@[i] == 0,
        decreases n - v.len(),
    {
        v.push(0);
    }
    assert(v@ =~= Seq::new(n as nat, |i: int| 0u8));
    v
}

/// Absorb zeros.
fn absorb_zeros(hasher: Sha256, len: u64) -> (r: Sha256)
    requires
        hasher@.len() + len <= MAX_MESSAGE,
    ensures
        r@ == hasher@ + Seq::new(len as nat, |i: int| 0u8),
{
    let ghost first = hasher@;
    let mut h = hasher;
    let mut done: u64 = 0;
    assert(first + Seq::new(0, |i: int| 0u8) =~= first);
    while done < len
        invariant
            done <= len,
            first.len() + len <= MAX_MESSAGE,
            h@ == first + Seq::new(done as nat, |i: int| 0u8),
        decreases len - done,
    {
        let want: u64 = min_u64(len - done, PIECE_CHUNK);
        let buf = zero_chunk(want as usize);
        h = h.update(buf.as_slice());
        assert(first + Seq::new(done as nat, |i: int| 0u8) + buf@ =~= first + Seq::new(
            (done + want) as nat,
            |i: int| 0u8,
        ));
        done = done + want;
    }
    h
}

/// The digest of a file's contents.
pub fn digest_pieces<S: BlockSource>(src: &S, ps: &Vec<Piece>) -> (r: Result<Vec<u8>, ReadError>)
    requires
        contents(src.image(), ps@).len() <= MAX_MESSAGE,
    ensures
        r matches Ok(d) ==> d@ == sha256(contents(src.image(), ps@)),
        r is Err ==> hard_file(src, ps@),
        intact(src) ==> r is Ok,
{
    let size: u64 = src.size();
    let ghost img = src.image();
    let mut h = Sha256::new();
    let mut i: usize = 0;
    while i < ps.len()
        invariant
            i <= ps@.len(),
            img == src.image(),
            size == img.len() <= MAX_SOURCE_LEN,
            contents(img, ps@).len() <= MAX_MESSAGE,
            h@ == contents_of(img, ps@, i as int),
        decreases ps.len() - i,
    {
        let p = ps[i];
        let n: u64 = piece_len(size, p);
        proof {
            assert(piece_bytes(img, p).len() == n);
            lemma_contents_grow(img, ps@, i + 1, ps@.len() as int);
        }
        let ghost before = h@;
        match p {
            Piece::Data { offset, len } => {
                if n > 0 {
                    h = match absorb_data(src, h, offset, n) {
                        Ok(next) => next,
                        Err(e) => {
                            assert(hard_piece(src, ps@[i as int]));
                            return Err(e);
                        },
                    };
                    assert(img.subrange(offset as int, offset + n) =~= piece_bytes(img, p));
                } else {
                    assert(before + piece_bytes(img, p) =~= before);
                }
            },
            Piece::Hole { len } => {
                h = absorb_zeros(h, len);
            },
        }
        assert(h@ =~= contents_of(img, ps@, i + 1));
        i = i + 1;
    }
    Ok(h.finalize())
}

/// Read a part of the source behind what was already read.
fn read_data<S: BlockSource>(src: &S, buf: &mut Vec<u8>, offset: u64, len: u64) -> (r: Result<
    (),
    ReadError,
>)
    requires
        offset + len <= src.image().len() <= MAX_SOURCE_LEN,
    ensures
        r is Ok ==> final(buf)@ == old(buf)@ + src.image().subrange(
            offset as int,
            offset + len,
        ),
        r is Err ==> hard_span(src, offset as int, len as int),
{
    let ghost img = src.image();
    let ghost first = buf@;
    let mut done: u64 = 0;
    assert(first + img.subrange(offset as int, offset as int) =~= first);
    while done < len
        invariant
            img == src.image(),
            done <= len,
            offset + len <= img.len() <= MAX_SOURCE_LEN,
            buf@ == first + img.subrange(offset as int, offset + done),
        decreases len - done,
    {
        let want: u64 = min_u64(len - done, PIECE_CHUNK);
        let mut chunk = match src.read_at(offset + done, want as usize) {
            Ok(b) => b,
            Err(e) => {
                assert(!src.readable((offset + done) as int, want as int));
                return Err(e);
            },
        };
        let ghost before = buf@;
        buf.append(&mut chunk);
        assert(buf@ =~= first + img.subrange(offset as int, offset + done + want));
        done = done + want;
    }
    Ok(())
}

/// Read a file's contents.
pub fn read_pieces<S: BlockSource>(src: &S, ps: &Vec<Piece>) -> (r: Result<Vec<u8>, ReadError>)
    ensures
        r matches Ok(d) ==> d@ == contents(src.image(), ps@),
        r is Err ==> hard_file(src, ps@),
        intact(src) ==> r is Ok,
{
    let size: u64 = src.size();
    let ghost img = src.image();
    let mut buf: Vec<u8> = Vec::new();
    let mut i: usize = 0;
    assert(buf@ =~= Seq::empty());
    while i < ps.len()
        invariant
            i <= ps@.len(),
            img == src.image(),
            size == img.len() <= MAX_SOURCE_LEN,
            buf@ == contents_of(img, ps@, i as int),
        decreases ps.len() - i,
    {
        let p = ps[i];
        let n: u64 = piece_len(size, p);
        assert(piece_bytes(img, p).len() == n);
        let ghost before = buf@;
        match p {
            Piece::Data { offset, len } => {
                if n > 0 {
                    match read_data(src, &mut buf, offset, n) {
                        Ok(_) => {},
                        Err(e) => {
                            assert(hard_piece(src, ps@[i as int]));
                            return Err(e);
                        },
                    }
                    assert(img.subrange(offset as int, offset + n) =~= piece_bytes(img, p));
                } else {
                    assert(before + piece_bytes(img, p) =~= before);
                }
            },
            Piece::Hole { len } => {
                let mut k: u64 = 0;
                assert(buf@ =~= before + Seq::new(0, |i: int| 0u8));
                while k < len
                    invariant
                        k <= len,
                        buf@ == before + Seq::new(k as nat, |i: int| 0u8),
                    decreases len - k,
                {
                    buf.push(0);
                    k = k + 1;
                    assert(buf@ =~= before + Seq::new(k as nat, |i: int| 0u8));
                }
            },
        }
        assert(buf@ =~= contents_of(img, ps@, i + 1));
        i = i + 1;
    }
    Ok(buf)
}

// ---------------------------------------------------------------------------
// Taking files

/// How a backend reports files.
#[derive(Clone, Copy, Debug, PartialEq, Eq, Structural)]
pub struct Style {
    /// Report the sizes that the filesystem records, not the bytes that are there.
    pub nominal: bool,
    /// Take files of whose contents nothing is there.
    pub keep_empty: bool,
}

/// What becomes of a deleted file.
#[derive(Clone, Copy, Debug, PartialEq, Eq, Structural)]
pub enum Fate {
    /// The options do not ask for it.
    Ignored,
    /// It cannot be recovered.
    Skipped,
    /// It would be recovered, but nothing is to be written.
    Listed,
    /// It is recovered.
    Taken,
}

/// Whether the options ask for a file.
pub open spec fn wanted(opts: RecoverOptions, p: Plan) -> bool {
    opts.accepts_size(p.size as int) && opts.accepts_time(p.mtime) && opts.accepts_name(
        final_name(p.path@, p.path@.len() as int),
    )
}

/// What becomes of a file; `lost` says that reading its contents failed.
pub open spec fn fate(
    img: Seq<u8>,
    opts: RecoverOptions,
    p: Plan,
    lost: bool,
    style: Style,
) -> Fate {
    let n = contents(img, p.pieces@).len();
    if !wanted(opts, p) {
        Fate::Ignored
    } else if !p.valid {
        Fate::Skipped
    } else if opts.dry_run {
        Fate::Listed
    } else if (n == 0 && !style.keep_empty) || n > MAX_MESSAGE || lost {
        Fate::Skipped
    } else {
        Fate::Taken
    }
}

/// The outcome with one more file.
pub open spec fn with_plan(
    img: Seq<u8>,
    opts: RecoverOptions,
    p: Plan,
    lost: bool,
    style: Style,
    o: Outcome,
) -> Outcome {
    let data = contents(img, p.pieces@);
    match fate(img, opts, p, lost, style) {
        Fate::Ignored => o,
        Fate::Skipped => o.with_skipped(p.path@, p.size as int),
        Fate::Listed => o.with_recovered(p.path@, p.size as int, None),
        Fate::Taken => o.with_recovered(
            p.path@,
            if style.nominal {
                p.size as int
            } else {
                data.len() as int
            },
            Some(sha256(data)),
        ),
    }
}

/// The outcome of the first `n` files.
pub open spec fn outcome(
    img: Seq<u8>,
    opts: RecoverOptions,
    plans: Seq<Plan>,
    lost: Seq<bool>,
    style: Style,
    n: int,
) -> Outcome
    decreases n,
{
    if n <= 0 {
        nothing()
    } else {
        with_plan(
            img,
            opts,
            plans[n - 1],
            lost[n - 1],
            style,
            outcome(img, opts, plans, lost, style, n - 1),
        )
    }
}

/// Which of the first `n` files are taken.
pub open spec fn taken(
    img: Seq<u8>,
    opts: RecoverOptions,
    plans: Seq<Plan>,
    lost: Seq<bool>,
    style: Style,
    n: int,
) -> Seq<usize>
    decreases n,
{
    if n <= 0 {
        Seq::empty()
    } else {
        let rest = taken(img, opts, plans, lost, style, n - 1);
        if fate(img, opts, plans[n - 1], lost[n - 1], style) == Fate::Taken {
            rest.push((n - 1) as usize)
        } else {
            rest
        }
    }
}

/// What a recovery run gives.
pub struct Recovery {
    pub stats: RecoverStats,
    /// The indices of the files that are taken: their contents are to be written.
    pub taken: Vec<usize>,
}

/// Whether a recovery is right, with `lost` saying whose contents were not read: only
/// that of a file which the device is not certain to serve.
pub open spec fn recovers<S: BlockSource>(
    src: &S,
    opts: RecoverOptions,
    plans: Seq<Plan>,
    style: Style,
    r: Recovery,
    lost: Seq<bool>,
) -> bool {
    let n = plans.len() as int;
    &&& lost.len() == n
    &&& forall|i: int| 0 <= i < n && #[trigger] lost[i] ==> hard_file(src, plans[i].pieces@)
    &&& intact(src) ==> forall|i: int| 0 <= i < n ==> !#[trigger] lost[i]
    &&& r.stats.view() == outcome(src.image(), opts, plans, lost, style, n)
    &&& r.taken@ == taken(src.image(), opts, plans, lost, style, n)
}

/// Take the files that the options ask for.
pub fn recover_plans<S: BlockSource>(
    src: &S,
    opts: &RecoverOptions,
    plans: &Vec<Plan>,
    style: Style,
) -> (r: Recovery)
    ensures
        exists|lost: Seq<bool>| #[trigger] recovers(src, *opts, plans@, style, r, lost),
{
    let ghost img = src.image();
    let ghost mut lost: Seq<bool> = Seq::empty();
    let mut stats = RecoverStats::default();
    let mut chosen: Vec<usize> = Vec::new();
    let mut i: usize = 0;
    while i < plans.len()
        invariant
            i <= plans@.len(),
            img == src.image(),
            lost.len() == i,
            forall|k: int| 0 <= k < i && #[trigger] lost[k] ==> hard_file(src, plans@[k].pieces@),
            intact(src) ==> forall|k: int| 0 <= k < i ==> !#[trigger] lost[k],
            stats.view() == outcome(img, *opts, plans@, lost, style, i as int),
            chosen@ == taken(img, *opts, plans@, lost, style, i as int),
        decreases plans.len() - i,
    {
        let p = &plans[i];
        let mut failed = false;
        let ghost before = lost;
        let ghost was = stats.view();
        let name = file_name_of(p.path.as_str());
        if opts.size_ok(p.size) && opts.time_ok(p.mtime) && opts.name_ok(name.as_str()) {
            let path = string_of(&chars_of(p.path.as_str()));
            if !p.valid {
                stats.record_skipped(path, p.size);
            } else if opts.dry_run {
                stats.record_recovered(path, p.size, None);
            } else {
                match contents_len(src, &p.pieces) {
                    None => {
                        stats.record_skipped(path, p.size);
                    },
                    Some(n) => {
                        if n == 0 && !style.keep_empty {
                            stats.record_skipped(path, p.size);
                        } else {
                            match digest_pieces(src, &p.pieces) {
                                Ok(d) => {
                                    stats.record_recovered(
                                        path,
                                        if style.nominal {
                                            p.size
                                        } else {
                                            n
                                        },
                                        Some(d),
                                    );
                                    chosen.push(i);
                                },
                                Err(_) => {
                                    failed = true;
                                    stats.record_skipped(path, p.size);
                                },
                            }
                        }
                    },
                }
            }
        }
        proof {
            lost = lost.push(failed);
            lemma_lost_prefix(img, *opts, plans@, before, lost, style, i as int);
        }
        i = i + 1;
    }
    let r = Recovery { stats, taken: chosen };
    assert(recovers(src, *opts, plans@, style, r, lost));
    r
}

proof fn lemma_lost_prefix(
    img: Seq<u8>,
    opts: RecoverOptions,
    plans: Seq<Plan>,
    a: Seq<bool>,
    b: Seq<bool>,
    style: Style,
    n: int,
)
    requires
        0 <= n <= a.len() < b.len(),
        forall|i: int| 0 <= i < n ==> a[i] == b[i],
    ensures
        outcome(img, opts, plans, a, style, n) == outcome(img, opts, plans, b, style, n),
        taken(img, opts, plans, a, style, n) == taken(img, opts, plans, b, style, n),
    decreases n,
{
    if n > 0 {
        lemma_lost_prefix(img, opts, plans, a, b, style, n - 1);
    }
}

/// A dry run takes no files.
pub proof fn lemma_dry_run_takes_nothing(
    img: Seq<u8>,
    opts: RecoverOptions,
    plans: Seq<Plan>,
    lost: Seq<bool>,
    style: Style,
    n: int,
)
    requires
        opts.dry_run,
    ensures
        taken(img, opts, plans, lost, style, n).len() == 0,
    decreases n,
{
    if n > 0 {
        lemma_dry_run_takes_nothing(img, opts, plans, lost, style, n - 1);
    }
}

/// What a backend gives that recovers nothing.
pub(crate) fn recover_nothing() -> (r: (Vec<Plan>, Recovery))
    ensures
        r.0@.len() == 0,
        r.1.taken@.len() == 0,
        r.1.stats.view() == nothing(),
{
    (Vec::new(), Recovery { stats: RecoverStats::default(), taken: Vec::new() })
}

} // verus!
