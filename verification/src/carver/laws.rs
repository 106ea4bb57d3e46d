//! What every scan keeps.

use vstd::prelude::*;

use super::checkpoint::{checkpoint, lemma_checkpoint_roundtrip, restored, storable, storable_file};
use super::{
    at_limit, carved_name, file_end, fresh_tally, judged, lemma_extent_bounded, lemma_sweep_parts,
    lemma_within_limit, scannable, size_limit, sweep, visited, CarveOptions, FileRecord, Tally,
};
use crate::bytes::{imax, sat64};
use crate::hash::{lemma_digest_len, sha256};
use crate::numbers::{dec, digit_char, digits, hex, lemma_digits_len, zero_filled};
use crate::signatures::table::signature_table;
use crate::signatures::words::{lemma_table_words, word};
use crate::signatures::{first_match, signatured, Signature};
use crate::source::MAX_SOURCE_LEN;
use crate::text::white;

verus! {

/// Whether a scan of the image up to `scan_end` for the signatures makes sense.
pub open spec fn sane_scan(img: Seq<u8>, sigs: Seq<Signature>, scan_end: int) -> bool {
    &&& scan_end <= img.len() <= MAX_SOURCE_LEN
    &&& scannable(sigs)
}

/// Whether the signatures all stand in the table.
pub open spec fn from_table(sigs: Seq<Signature>) -> bool {
    forall|i: int| 0 <= i < sigs.len() ==> signature_table().contains(#[trigger] sigs[i])
}

/// What holds of each record: the file lies in the scanned region, is long
/// enough, and the digest is that of its bytes.
pub open spec fn sound_file(
    img: Seq<u8>,
    opts: CarveOptions,
    scan_end: int,
    f: FileRecord,
) -> bool {
    &&& 0 <= f.offset
    &&& 0 < f.size
    &&& opts.min_size <= f.size
    &&& f.offset + f.size <= scan_end
    &&& f.sha256 == sha256(img.subrange(f.offset, f.offset + f.size))
}

/// What holds of the tally of every scan.
pub open spec fn sound(img: Seq<u8>, opts: CarveOptions, scan_end: int, t: Tally) -> bool {
    &&& 0 <= t.skip_until <= imax(0, scan_end)
    &&& 0 <= t.rejected
    &&& 0 <= t.duplicates
    &&& 0 <= t.bytes
    &&& t.recovered == sat64(t.files.len() as int)
    &&& forall|i: int| 0 <= i < t.files.len() ==> sound_file(img, opts, scan_end, #[trigger] t.files[i])
    &&& !opts.allow_nested ==> forall|i: int|
        0 <= i < t.files.len() ==> (#[trigger] t.files[i]).offset + t.files[i].size <= t.skip_until
    &&& !opts.allow_nested ==> forall|i: int, j: int|
        0 <= i < j < t.files.len() ==> (#[trigger] t.files[i]).offset + t.files[i].size <= (
        #[trigger] t.files[j]).offset
    &&& opts.dedup ==> forall|i: int|
        0 <= i < t.files.len() ==> t.seen.contains((#[trigger] t.files[i]).sha256)
    &&& opts.dedup ==> forall|i: int, j: int|
        0 <= i < j < t.files.len() ==> (#[trigger] t.files[i]).sha256 != (
        #[trigger] t.files[j]).sha256
    &&& opts.max_files matches Some(m) ==> t.files.len() <= m && (!t.full ==> t.files.len() < m)
}

proof fn lemma_judged_sound(
    img: Seq<u8>,
    opts: CarveOptions,
    scan_end: int,
    sig: Signature,
    start: int,
    len: int,
    t: Tally,
)
    requires
        sound(img, opts, scan_end, t),
        !t.full,
        scan_end <= MAX_SOURCE_LEN,
        0 <= start,
        0 < len,
        start + len <= scan_end,
        opts.allow_nested || start >= t.skip_until,
    ensures
        sound(img, opts, scan_end, judged(img, opts, sig, start, len, t)),
{
    let r = judged(img, opts, sig, start, len, t);
    let digest = sha256(img.subrange(start, start + len));
    if len >= opts.min_size && !(opts.validate && super::rejects(img, sig, start, len)) {
        if opts.dedup && t.seen.contains(digest) {
            assert(r.files == t.files);
        } else {
            assert(r.files.len() == t.files.len() + 1);
            let n = t.files.len() as int;
            assert(r.files[n].offset == start && r.files[n].size == len && r.files[n].sha256
                == digest);
            assert forall|i: int| 0 <= i < r.files.len() implies sound_file(
                img,
                opts,
                scan_end,
                #[trigger] r.files[i],
            ) by {
                if i < n {
                    assert(r.files[i] == t.files[i]);
                }
            }
            if !opts.allow_nested {
                assert forall|i: int| 0 <= i < r.files.len() implies (
                #[trigger] r.files[i]).offset + r.files[i].size <= r.skip_until by {
                    if i < n {
                        assert(r.files[i] == t.files[i]);
                    }
                }
                assert forall|i: int, j: int| 0 <= i < j < r.files.len() implies (
                #[trigger] r.files[i]).offset + r.files[i].size <= (
                #[trigger] r.files[j]).offset by {
                    assert(r.files[i] == t.files[i]);
                    if j < n {
                        assert(r.files[j] == t.files[j]);
                    }
                }
            }
            if opts.dedup {
                assert(r.seen == t.seen.push(digest));
                assert forall|i: int| 0 <= i < r.files.len() implies r.seen.contains(
                    (#[trigger] r.files[i]).sha256,
                ) by {
                    if i < n {
                        assert(r.files[i] == t.files[i]);
                        let k = t.seen.index_of(t.files[i].sha256);
                        assert(r.seen[k] == t.files[i].sha256);
                    } else {
                        assert(r.seen[t.seen.len() as int] == digest);
                    }
                }
                assert forall|i: int, j: int| 0 <= i < j < r.files.len() implies (
                #[trigger] r.files[i]).sha256 != (#[trigger] r.files[j]).sha256 by {
                    assert(r.files[i] == t.files[i]);
                    assert(t.seen.contains(t.files[i].sha256));
                    if j < n {
                        assert(r.files[j] == t.files[j]);
                    }
                }
            }
        }
    }
}

proof fn lemma_visited_sound(
    img: Seq<u8>,
    sigs: Seq<Signature>,
    opts: CarveOptions,
    scan_end: int,
    pos: int,
    t: Tally,
)
    requires
        sane_scan(img, sigs, scan_end),
        0 <= pos < scan_end,
        sound(img, opts, scan_end, t),
        !t.full,
    ensures
        sound(img, opts, scan_end, visited(img, sigs, opts, scan_end, pos, t)),
{
    reveal(visited);
    match first_match(sigs, img.subrange(pos, scan_end)) {
        None => {},
        Some(sig) => {
            let start = pos - sig.magic_offset;
            if start >= 0 && (opts.allow_nested || start >= t.skip_until) {
                lemma_extent_bounded(img, sig.extent, start, size_limit(sig, start, scan_end));
                match file_end(img, sig, start, scan_end) {
                    None => {},
                    Some(len) => {
                        lemma_judged_sound(img, opts, scan_end, sig, start, len, t);
                    },
                }
            }
        },
    }
}

/// A scan keeps its records sound. Every file lies in the scanned region and has
/// the digest of its bytes. Unless nested files are asked for, no two files
/// overlap and they come in order. With `dedup` no two files have equal digests.
/// There are no more files than asked for, and the count is that of the records.
pub proof fn lemma_sweep_sound(
    img: Seq<u8>,
    sigs: Seq<Signature>,
    opts: CarveOptions,
    scan_end: int,
    from: int,
    to: int,
    t: Tally,
)
    requires
        sane_scan(img, sigs, scan_end),
        0 <= from,
        to <= scan_end,
        sound(img, opts, scan_end, t),
    ensures
        sound(img, opts, scan_end, sweep(img, sigs, opts, scan_end, from, to, t)),
    decreases to - from,
{
    if from < to && !t.full {
        lemma_visited_sound(img, sigs, opts, scan_end, from, t);
        lemma_sweep_sound(
            img,
            sigs,
            opts,
            scan_end,
            from + 1,
            to,
            visited(img, sigs, opts, scan_end, from, t),
        );
    }
}

/// A scan that begins afresh is sound, whatever digests it is seeded with.
pub proof fn lemma_scan_sound(
    img: Seq<u8>,
    sigs: Seq<Signature>,
    opts: CarveOptions,
    scan_end: int,
    from: int,
    to: int,
    seed: Seq<Seq<u8>>,
)
    requires
        sane_scan(img, sigs, scan_end),
        0 <= from,
        to <= scan_end,
    ensures
        sound(img, opts, scan_end, sweep(img, sigs, opts, scan_end, from, to, fresh_tally(opts, seed))),
{
    lemma_sweep_sound(img, sigs, opts, scan_end, from, to, fresh_tally(opts, seed));
}

/// What a seed excludes is not recorded again.
pub proof fn lemma_seed_excluded(
    img: Seq<u8>,
    sigs: Seq<Signature>,
    opts: CarveOptions,
    scan_end: int,
    from: int,
    to: int,
    t: Tally,
    n: int,
    i: int,
    d: Seq<u8>,
)
    requires
        opts.dedup,
        t.seen.contains(d),
        0 <= n <= t.files.len(),
        forall|k: int| n <= k < t.files.len() ==> (#[trigger] t.files[k]).sha256 != d,
        n <= i < sweep(img, sigs, opts, scan_end, from, to, t).files.len(),
    ensures
        sweep(img, sigs, opts, scan_end, from, to, t).files[i].sha256 != d,
    decreases to - from,
{
    if from < to && !t.full {
        reveal(visited);
        let next = visited(img, sigs, opts, scan_end, from, t);
        let at = t.seen.index_of(d);
        assert(t.seen[at] == d);
        assert(next.seen.contains(d)) by {
            assert(next.seen[at] == d);
        }
        lemma_seed_excluded(img, sigs, opts, scan_end, from + 1, to, next, n, i, d);
    }
}

// ---------------------------------------------------------------------------
// Resuming

proof fn lemma_digits_ascii(n: int, base: int)
    requires
        0 <= n,
        2 <= base <= 16,
    ensures
        digits(n, base).len() > 0,
        forall|i: int| 0 <= i < digits(n, base).len() ==> '0' <= #[trigger] digits(n, base)[i] <= 'f',
    decreases n,
{
    lemma_digits_len(n, base);
    if n >= base {
        assert(0 <= n / base < n && 0 <= n % base < 16) by (nonlinear_arith)
            requires
                n >= base,
                2 <= base <= 16,
        ;
        lemma_digits_ascii(n / base, base);
        assert(digits(n, base) =~= digits(n / base, base).push(digit_char(n % base)));
    } else {
        assert(digits(n, base) =~= seq![digit_char(n)]);
    }
}

/// The name of a carved file is one line that ends with its extension.
proof fn lemma_name(n: int, offset: int, ext: Seq<char>, organize: bool)
    requires
        0 <= n,
        0 <= offset,
        word(ext),
    ensures
        ({
            let name = carved_name(n, offset, ext, organize);
            &&& name.len() > 0
            &&& !white(name.last())
            &&& forall|i: int| 0 <= i < name.len() ==> name[i] != '\n'
        }),
{
    lemma_digits_ascii(n, 10);
    lemma_digits_ascii(offset, 16);
    reveal_strlit("_0x");
    reveal_strlit(".");
    reveal_strlit("/");
    let a = zero_filled(dec(n), 8);
    let b = zero_filled(hex(offset), 16);
    assert(forall|i: int| 0 <= i < a.len() ==> a[i] != '\n');
    assert(forall|i: int| 0 <= i < b.len() ==> b[i] != '\n');
    let name = carved_name(n, offset, ext, organize);
    assert(name.last() == ext.last());
}

/// Whether a scan can be stored and taken up again: what a checkpoint leaves out
/// is not needed.
pub open spec fn resumable(opts: CarveOptions, t: Tally) -> bool {
    &&& storable(t)
    &&& !opts.dedup ==> t.seen.len() == 0
}

proof fn lemma_judged_resumable(
    img: Seq<u8>,
    opts: CarveOptions,
    scan_end: int,
    sig: Signature,
    start: int,
    len: int,
    t: Tally,
)
    requires
        resumable(opts, t),
        scan_end <= MAX_SOURCE_LEN,
        0 <= start,
        0 < len,
        start + len <= scan_end,
        signature_table().contains(sig),
    ensures
        resumable(opts, judged(img, opts, sig, start, len, t)),
{
    let r = judged(img, opts, sig, start, len, t);
    let digest = sha256(img.subrange(start, start + len));
    lemma_digest_len(img.subrange(start, start + len));
    let k = signature_table().index_of(sig);
    assert(signature_table()[k].ext@ == sig.ext@);
    assert(signatured(sig.ext@));
    lemma_table_words();
    lemma_name(t.recovered, start, sig.ext@, opts.organize);
    assert forall|i: int| 0 <= i < r.files.len() implies storable_file(#[trigger] r.files[i]) by {
        if i < t.files.len() {
            assert(r.files[i] == t.files[i]);
        }
    }
    assert forall|i: int| 0 <= i < r.seen.len() implies (#[trigger] r.seen[i]).len() == 32 by {
        if i < t.seen.len() {
            assert(r.seen[i] == t.seen[i]);
        }
    }
}

proof fn lemma_sweep_resumable(
    img: Seq<u8>,
    sigs: Seq<Signature>,
    opts: CarveOptions,
    scan_end: int,
    from: int,
    to: int,
    t: Tally,
)
    requires
        sane_scan(img, sigs, scan_end),
        from_table(sigs),
        0 <= from,
        to <= scan_end,
        resumable(opts, t),
    ensures
        resumable(opts, sweep(img, sigs, opts, scan_end, from, to, t)),
    decreases to - from,
{
    reveal(visited);
    if from < to && !t.full {
        match first_match(sigs, img.subrange(from, scan_end)) {
            None => {},
            Some(sig) => {
                super::lemma_match_listed(sigs, img.subrange(from, scan_end));
                let k = choose|k: int| 0 <= k < sigs.len() && sigs[k] == sig;
                assert(signature_table().contains(sigs[k]));
                let start = from - sig.magic_offset;
                if start >= 0 && (opts.allow_nested || start >= t.skip_until) {
                    lemma_extent_bounded(img, sig.extent, start, size_limit(sig, start, scan_end));
                    match file_end(img, sig, start, scan_end) {
                        None => {},
                        Some(len) => {
                            lemma_judged_resumable(img, opts, scan_end, sig, start, len, t);
                        },
                    }
                }
            },
        }
        lemma_sweep_resumable(
            img,
            sigs,
            opts,
            scan_end,
            from + 1,
            to,
            visited(img, sigs, opts, scan_end, from, t),
        );
    }
}

/// A scan that is interrupted, stored and taken up again from its checkpoint finds
/// what it would have found without the interruption.
pub proof fn lemma_resume(
    img: Seq<u8>,
    sigs: Seq<Signature>,
    opts: CarveOptions,
    scan_end: int,
    from: int,
    mid: int,
    to: int,
)
    requires
        sane_scan(img, sigs, scan_end),
        from_table(sigs),
        0 <= from <= mid <= to <= scan_end,
    ensures
        ({
            let t = sweep(img, sigs, opts, scan_end, from, mid, fresh_tally(opts, Seq::empty()));
            let saved = restored(checkpoint(mid, scan_end, t, opts.dedup));
            let again = Tally { full: at_limit(opts, saved.tally.recovered), ..saved.tally };
            &&& saved.pos == mid
            &&& again == t
            &&& sweep(img, sigs, opts, scan_end, mid, to, again) == sweep(
                img,
                sigs,
                opts,
                scan_end,
                from,
                to,
                fresh_tally(opts, Seq::empty()),
            )
        }),
{
    let fresh = fresh_tally(opts, Seq::empty());
    let t = sweep(img, sigs, opts, scan_end, from, mid, fresh);
    lemma_within_limit(img, sigs, opts, scan_end, from, mid, fresh);
    lemma_sweep_resumable(img, sigs, opts, scan_end, from, mid, fresh);
    lemma_checkpoint_roundtrip(mid, scan_end, t, opts.dedup);
    if !opts.dedup {
        assert(t.seen =~= Seq::empty());
    }
    lemma_sweep_parts(img, sigs, opts, scan_end, from, mid, to, fresh);
}

} // verus!
