//! A scan of several regions of the source that keeps one tally.

use vstd::prelude::*;

use super::laws::sane_scan;
use super::{
    end_of_scan, file_end, fresh_tally, judged, lemma_extent_bounded, lemma_within_limit, rests_at,
    scannable, size_limit, start_of_scan, sweep, visited, within_limit, CarveOptions, CarveState, Carver,
    FileRecord, ProgressSink, Tally,
};
use crate::bytes::{imax, imin, max_u64, min_u64, sat64};
use crate::signatures::{first_match, Signature};
use crate::source::{intact, BlockSource, ReadError, MAX_SOURCE_LEN};

verus! {

/// Where the scan of a region ends: with the region, or where the whole scan does.
pub open spec fn region_end(opts: CarveOptions, size: int, region: (u64, u64)) -> int {
    imin(region.0 + region.1, end_of_scan(opts, size))
}

/// Where the scan of a region begins.
pub open spec fn region_start(opts: CarveOptions, size: int, region: (u64, u64)) -> int {
    imin(
        imax(region.0 as int, start_of_scan(opts, size)),
        region_end(opts, size, region),
    )
}

/// The tally after the first `n` regions, each scanned up to its stop. No region is
/// begun once the wanted number of files is reached.
pub open spec fn swept(
    img: Seq<u8>,
    sigs: Seq<Signature>,
    opts: CarveOptions,
    regions: Seq<(u64, u64)>,
    stops: Seq<int>,
    n: int,
    t: Tally,
) -> Tally
    decreases n,
{
    if n <= 0 {
        t
    } else {
        let before = swept(img, sigs, opts, regions, stops, n - 1, t);
        sweep(
            img,
            sigs,
            opts,
            region_end(opts, img.len() as int, regions[n - 1]),
            region_start(opts, img.len() as int, regions[n - 1]),
            stops[n - 1],
            before,
        )
    }
}

/// Whether each region has a stop that lies in it; the end of the region if nothing
/// interrupts the scan.
pub open spec fn stops_fit(
    opts: CarveOptions,
    size: int,
    regions: Seq<(u64, u64)>,
    stops: Seq<int>,
    steady: bool,
) -> bool {
    &&& stops.len() == regions.len()
    &&& forall|i: int| #![trigger stops[i]]
        0 <= i < regions.len() ==> region_start(opts, size, regions[i]) <= stops[i] <= region_end(
            opts,
            size,
            regions[i],
        ) && (steady ==> stops[i] == region_end(opts, size, regions[i]))
}

/// Whether the tally is that of a scan of the regions.
pub open spec fn sweeps_regions(
    img: Seq<u8>,
    sigs: Seq<Signature>,
    opts: CarveOptions,
    regions: Seq<(u64, u64)>,
    steady: bool,
    t: Tally,
) -> bool {
    exists|stops: Seq<int>| #[trigger]
        stops_fit(opts, img.len() as int, regions, stops, steady) && t == swept(
            img,
            sigs,
            opts,
            regions,
            stops,
            regions.len() as int,
            fresh_tally(opts, Seq::empty()),
        )
}

/// Where the scans of the first `n` regions came to rest.
pub open spec fn rests_fit(
    img: Seq<u8>,
    sigs: Seq<Signature>,
    opts: CarveOptions,
    regions: Seq<(u64, u64)>,
    stops: Seq<int>,
    rests: Seq<int>,
    n: int,
) -> bool {
    let first = fresh_tally(opts, Seq::empty());
    forall|i: int| #![trigger rests[i]]
        0 <= i < n ==> rests_at(
            img,
            sigs,
            opts,
            region_start(opts, img.len() as int, regions[i]),
            region_end(opts, img.len() as int, regions[i]),
            stops[i],
            swept(img, sigs, opts, regions, stops, i, first),
            swept(img, sigs, opts, regions, stops, i + 1, first),
            rests[i],
        )
}

/// The bytes from the beginning of each of the first `n` regions to where its scan came
/// to rest.
pub open spec fn scanned_in(
    opts: CarveOptions,
    size: int,
    regions: Seq<(u64, u64)>,
    rests: Seq<int>,
    n: int,
) -> int
    decreases n,
{
    if n <= 0 {
        0
    } else {
        scanned_in(opts, size, regions, rests, n - 1) + (rests[n - 1] - region_start(
            opts,
            size,
            regions[n - 1],
        ))
    }
}

/// Whether a state is that of a scan of the regions with these stops, which came to rest
/// at `rests`.
pub open spec fn scans_regions(
    img: Seq<u8>,
    sigs: Seq<Signature>,
    opts: CarveOptions,
    regions: Seq<(u64, u64)>,
    stops: Seq<int>,
    rests: Seq<int>,
    st: CarveState,
) -> bool {
    let n = regions.len() as int;
    let first = fresh_tally(opts, Seq::empty());
    &&& rests.len() == n
    &&& st.tally() == swept(img, sigs, opts, regions, stops, n, first)
    &&& rests_fit(img, sigs, opts, regions, stops, rests, n)
    &&& st.stats.bytes_scanned == sat64(scanned_in(opts, img.len() as int, regions, rests, n))
}

/// Whether the scanned bytes that a state tells are those of a scan of the regions.
pub open spec fn counts_scanned(
    img: Seq<u8>,
    sigs: Seq<Signature>,
    opts: CarveOptions,
    regions: Seq<(u64, u64)>,
    steady: bool,
    st: CarveState,
) -> bool {
    exists|stops: Seq<int>, rests: Seq<int>|
        stops_fit(opts, img.len() as int, regions, stops, steady) && #[trigger] scans_regions(
            img,
            sigs,
            opts,
            regions,
            stops,
            rests,
            st,
        )
}

/// The rests of regions that are not reached do not matter.
proof fn lemma_scanned_same(
    opts: CarveOptions,
    size: int,
    regions: Seq<(u64, u64)>,
    a: Seq<int>,
    b: Seq<int>,
    n: int,
)
    requires
        n <= a.len(),
        n <= b.len(),
        forall|i: int| 0 <= i < n ==> a[i] == b[i],
    ensures
        scanned_in(opts, size, regions, a, n) == scanned_in(opts, size, regions, b, n),
    decreases n,
{
    if n > 0 {
        lemma_scanned_same(opts, size, regions, a, b, n - 1);
    }
}

/// The stops of regions that are not reached do not matter.
proof fn lemma_swept_same(
    img: Seq<u8>,
    sigs: Seq<Signature>,
    opts: CarveOptions,
    regions: Seq<(u64, u64)>,
    a: Seq<int>,
    b: Seq<int>,
    n: int,
    t: Tally,
)
    requires
        n <= a.len(),
        n <= b.len(),
        forall|i: int| 0 <= i < n ==> a[i] == b[i],
    ensures
        swept(img, sigs, opts, regions, a, n, t) == swept(img, sigs, opts, regions, b, n, t),
    decreases n,
{
    if n > 0 {
        lemma_swept_same(img, sigs, opts, regions, a, b, n - 1, t);
    }
}

/// Scan the given regions, `(offset, length)` each, in order. Digests for `dedup`, the
/// number of files and the end of the last recovered file are carried from one region to
/// the next.
pub fn carve_regions<S: BlockSource, P: ProgressSink>(
    src: &S,
    active: &Vec<Signature>,
    opts: &CarveOptions,
    progress: &P,
    regions: &Vec<(u64, u64)>,
) -> (r: Result<CarveState, ReadError>)
    requires
        scannable(active@),
    ensures
        r matches Ok(st) ==> sweeps_regions(
            src.image(),
            active@,
            *opts,
            regions@,
            progress.steady(),
            st.tally(),
        ),
        r matches Ok(st) ==> counts_scanned(
            src.image(),
            active@,
            *opts,
            regions@,
            progress.steady(),
            st,
        ),
        r matches Ok(st) ==> within_limit(*opts, st.tally()),
        intact(src) ==> r is Ok,
{
    let ghost img = src.image();
    let ghost first = fresh_tally(*opts, Seq::empty());
    let whole = Carver::new(src, active, opts);
    let (from, to) = whole.bounds();
    let mut st = whole.start(opts, Vec::new());
    let mut scanned: u64 = 0;
    let ghost mut stops: Seq<int> = Seq::empty();
    let ghost mut rests: Seq<int> = Seq::empty();
    let mut i: usize = 0;
    assert(super::digests(Seq::empty()) =~= Seq::empty());
    let _size: u64 = src.size();
    while i < regions.len()
        invariant
            i <= regions@.len(),
            img == src.image(),
            first == fresh_tally(*opts, Seq::empty()),
            scannable(active@),
            from == start_of_scan(*opts, img.len() as int),
            to == end_of_scan(*opts, img.len() as int),
            from <= to <= img.len(),
            stops_fit(*opts, img.len() as int, regions@.take(i as int), stops, progress.steady()),
            st.tally() == swept(img, active@, *opts, regions@, stops, i as int, first),
            within_limit(*opts, st.tally()),
            rests.len() == i,
            rests_fit(img, active@, *opts, regions@, stops, rests, i as int),
            scanned == sat64(scanned_in(*opts, img.len() as int, regions@, rests, i as int)),
            0 <= scanned_in(*opts, img.len() as int, regions@, rests, i as int),
        decreases regions.len() - i,
    {
        let (offset, len) = regions[i];
        let end: u64 = min_u64(offset.saturating_add(len), to);
        let start: u64 = min_u64(max_u64(offset, from), end);
        let ghost before = st.tally();
        let ghost mut stop = end as int;
        let ghost mut rest = start as int;
        assert(end == region_end(*opts, img.len() as int, regions@[i as int]));
        assert(start == region_start(*opts, img.len() as int, regions@[i as int]));
        if !st.full {
            let carver = Carver::spanning(active, start, end);
            st.pos = start;
            st.stats.bytes_scanned = 0;
            assert(st.tally() == before);
            let done = carver.run(src, opts, progress, st)?;
            proof {
                stop = choose|stop: int|
                    #![trigger sweep(
                        src.image(),
                        carver.signatures(),
                        *opts,
                        carver.scan_end() as int,
                        start as int,
                        stop,
                        before,
                    )]
                    start <= stop <= end && (progress.steady() ==> stop == end) && done.tally()
                        == sweep(
                        src.image(),
                        carver.signatures(),
                        *opts,
                        carver.scan_end() as int,
                        start as int,
                        stop,
                        before,
                    ) && rests_at(
                        src.image(),
                        carver.signatures(),
                        *opts,
                        start as int,
                        carver.scan_end() as int,
                        stop,
                        before,
                        done.tally(),
                        done.pos as int,
                    );
                rest = done.pos as int;
                lemma_within_limit(
                    src.image(),
                    carver.signatures(),
                    *opts,
                    carver.scan_end() as int,
                    start as int,
                    stop,
                    before,
                );
            }
            st = done;
            scanned = scanned.saturating_add(st.stats.bytes_scanned);
        }
        proof {
            let longer = stops.push(stop);
            lemma_swept_same(img, active@, *opts, regions@, stops, longer, i as int, first);
            assert(regions@.take(i + 1) =~= regions@.take(i as int).push(regions@[i as int]));
            let further = rests.push(rest);
            lemma_scanned_same(*opts, img.len() as int, regions@, rests, further, i as int);
            assert(swept(img, active@, *opts, regions@, longer, i + 1, first) == st.tally());
            assert forall|k: int| #![trigger further[k]] 0 <= k < i + 1 implies rests_at(
                img,
                active@,
                *opts,
                region_start(*opts, img.len() as int, regions@[k]),
                region_end(*opts, img.len() as int, regions@[k]),
                longer[k],
                swept(img, active@, *opts, regions@, longer, k, first),
                swept(img, active@, *opts, regions@, longer, k + 1, first),
                further[k],
            ) by {
                lemma_swept_same(img, active@, *opts, regions@, stops, longer, imin(k, i as int), first);
                reveal(rests_at);
                if k < i {
                    assert(rests[k] == further[k]);
                    lemma_swept_same(img, active@, *opts, regions@, stops, longer, k + 1, first);
                }
            }
            stops = longer;
            rests = further;
        }
        i = i + 1;
    }
    assert(regions@.take(i as int) =~= regions@);
    st.stats.bytes_scanned = scanned;
    assert(stops_fit(*opts, img.len() as int, regions@, stops, progress.steady()));
    assert(scans_regions(img, active@, *opts, regions@, stops, rests, st));
    assert(counts_scanned(img, active@, *opts, regions@, progress.steady(), st));
    Ok(st)
}

/// A scan of one region that holds all that the whole scan would visit is the whole scan.
pub proof fn lemma_one_region(
    img: Seq<u8>,
    sigs: Seq<Signature>,
    opts: CarveOptions,
    region: (u64, u64),
    t: Tally,
)
    requires
        region.0 <= start_of_scan(opts, img.len() as int),
        end_of_scan(opts, img.len() as int) <= region.0 + region.1,
    ensures
        sweeps_regions(img, sigs, opts, seq![region], true, t) <==> t == sweep(
            img,
            sigs,
            opts,
            end_of_scan(opts, img.len() as int),
            start_of_scan(opts, img.len() as int),
            end_of_scan(opts, img.len() as int),
            fresh_tally(opts, Seq::empty()),
        ),
{
    let size = img.len() as int;
    let regions = seq![region];
    let first = fresh_tally(opts, Seq::empty());
    reveal_with_fuel(swept, 3);
    assert(region_end(opts, size, region) == end_of_scan(opts, size));
    assert(region_start(opts, size, region) == start_of_scan(opts, size));
    let whole = seq![end_of_scan(opts, size)];
    assert(stops_fit(opts, size, regions, whole, true));
    assert(swept(img, sigs, opts, regions, whole, 0, first) == first);
    if sweeps_regions(img, sigs, opts, regions, true, t) {
        let stops = choose|stops: Seq<int>| #[trigger]
            stops_fit(opts, size, regions, stops, true) && t == swept(
                img,
                sigs,
                opts,
                regions,
                stops,
                1,
                first,
            );
        assert(stops[0] == end_of_scan(opts, size));
        assert(swept(img, sigs, opts, regions, stops, 0, first) == first);
    }
}

/// Whether a file was found between two offsets: its signature's magic stands there,
/// and the file ends there.
pub open spec fn found_in(sigs: Seq<Signature>, from: int, to: int, f: FileRecord) -> bool {
    &&& f.offset + f.size <= to
    &&& exists|sig: Signature| #[trigger]
        sigs.contains(sig) && from <= f.offset + sig.magic_offset < to
}

/// Whether the tally has grown by files that were found between two offsets.
pub open spec fn grown(sigs: Seq<Signature>, from: int, to: int, t: Tally, r: Tally) -> bool {
    &&& t.files.len() <= r.files.len()
    &&& forall|i: int| 0 <= i < t.files.len() ==> #[trigger] r.files[i] == t.files[i]
    &&& forall|i: int| t.files.len() <= i < r.files.len() ==> found_in(sigs, from, to, #[trigger] r.files[i])
}

proof fn lemma_match_is_listed(sigs: Seq<Signature>, window: Seq<u8>)
    ensures
        first_match(sigs, window) matches Some(sig) ==> sigs.contains(sig),
    decreases sigs.len(),
{
    if sigs.len() > 0 {
        lemma_match_is_listed(sigs.drop_last(), window);
        match first_match(sigs.drop_last(), window) {
            Some(sig) => {
                let k = sigs.drop_last().index_of(sig);
                assert(sigs[k] == sig);
            },
            None => {
                assert(sigs[sigs.len() - 1] == sigs.last());
            },
        }
    }
}

proof fn lemma_visit_grows(
    img: Seq<u8>,
    sigs: Seq<Signature>,
    opts: CarveOptions,
    scan_end: int,
    pos: int,
    t: Tally,
)
    requires
        sane_scan(img, sigs, scan_end),
        0 <= pos < scan_end,
    ensures
        grown(sigs, pos, scan_end, t, visited(img, sigs, opts, scan_end, pos, t)),
{
    reveal(visited);
    let r = visited(img, sigs, opts, scan_end, pos, t);
    lemma_match_is_listed(sigs, img.subrange(pos, scan_end));
    match first_match(sigs, img.subrange(pos, scan_end)) {
        None => {},
        Some(sig) => {
            let start = pos - sig.magic_offset;
            if start >= 0 && (opts.allow_nested || start >= t.skip_until) {
                lemma_extent_bounded(img, sig.extent, start, size_limit(sig, start, scan_end));
                match file_end(img, sig, start, scan_end) {
                    None => {},
                    Some(len) => {
                        assert(r == judged(img, opts, sig, start, len, t));
                        if r.files.len() > t.files.len() {
                            let f = r.files[t.files.len() as int];
                            assert(sigs.contains(sig) && f.offset + sig.magic_offset == pos);
                            assert(found_in(sigs, pos, scan_end, f));
                        }
                    },
                }
            }
        },
    }
}

proof fn lemma_sweep_grows(
    img: Seq<u8>,
    sigs: Seq<Signature>,
    opts: CarveOptions,
    scan_end: int,
    from: int,
    to: int,
    t: Tally,
)
    requires
        sane_scan(img, sigs, scan_end),
        0 <= from,
        to <= scan_end,
    ensures
        grown(sigs, from, scan_end, t, sweep(img, sigs, opts, scan_end, from, to, t)),
    decreases to - from,
{
    if from < to && !t.full {
        let next = visited(img, sigs, opts, scan_end, from, t);
        let r = sweep(img, sigs, opts, scan_end, from, to, t);
        lemma_visit_grows(img, sigs, opts, scan_end, from, t);
        lemma_sweep_grows(img, sigs, opts, scan_end, from + 1, to, next);
        assert forall|i: int| t.files.len() <= i < r.files.len() implies found_in(
            sigs,
            from,
            scan_end,
            #[trigger] r.files[i],
        ) by {
            if i < next.files.len() {
                assert(r.files[i] == next.files[i]);
            } else {
                let sig = choose|sig: Signature| #[trigger]
                    sigs.contains(sig) && from + 1 <= r.files[i].offset + sig.magic_offset < scan_end;
                assert(sigs.contains(sig));
            }
        }
        assert forall|i: int| 0 <= i < t.files.len() implies #[trigger] r.files[i]
            == t.files[i] by {
            assert(next.files[i] == t.files[i]);
        }
    }
}

/// Whether a file was found in one of the first `n` regions.
pub open spec fn in_regions(
    sigs: Seq<Signature>,
    opts: CarveOptions,
    size: int,
    regions: Seq<(u64, u64)>,
    n: int,
    f: FileRecord,
) -> bool {
    exists|k: int| #![trigger regions[k]]
        0 <= k < n && found_in(
            sigs,
            region_start(opts, size, regions[k]),
            region_end(opts, size, regions[k]),
            f,
        )
}

proof fn lemma_swept_in_regions(
    img: Seq<u8>,
    sigs: Seq<Signature>,
    opts: CarveOptions,
    regions: Seq<(u64, u64)>,
    stops: Seq<int>,
    n: int,
)
    requires
        img.len() <= MAX_SOURCE_LEN,
        scannable(sigs),
        stops_fit(opts, img.len() as int, regions, stops, false),
        0 <= n <= regions.len(),
    ensures
        ({
            let t = swept(img, sigs, opts, regions, stops, n, fresh_tally(opts, Seq::empty()));
            forall|i: int|
                0 <= i < t.files.len() ==> in_regions(
                    sigs,
                    opts,
                    img.len() as int,
                    regions,
                    n,
                    #[trigger] t.files[i],
                )
        }),
    decreases n,
{
    if n > 0 {
        let size = img.len() as int;
        let first = fresh_tally(opts, Seq::empty());
        let before = swept(img, sigs, opts, regions, stops, n - 1, first);
        let t = swept(img, sigs, opts, regions, stops, n, first);
        let from = region_start(opts, size, regions[n - 1]);
        let to = region_end(opts, size, regions[n - 1]);
        lemma_swept_in_regions(img, sigs, opts, regions, stops, n - 1);
        assert(from <= stops[n - 1] <= to);
        lemma_sweep_grows(img, sigs, opts, to, from, stops[n - 1], before);
        assert forall|i: int| 0 <= i < t.files.len() implies in_regions(
            sigs,
            opts,
            size,
            regions,
            n,
            #[trigger] t.files[i],
        ) by {
            if i < before.files.len() {
                assert(t.files[i] == before.files[i]);
                let k = choose|k: int| #![trigger regions[k]]
                    0 <= k < n - 1 && found_in(
                        sigs,
                        region_start(opts, size, regions[k]),
                        region_end(opts, size, regions[k]),
                        t.files[i],
                    );
                assert(0 <= k < n);
            } else {
                assert(found_in(sigs, from, to, t.files[i]));
                assert(regions[n - 1] == regions[n - 1]);
            }
        }
    }
}

/// A scan of regions carves only those: the magic of every file that it records stands
/// in one of the regions, and the file ends there.
pub proof fn lemma_only_regions(
    img: Seq<u8>,
    sigs: Seq<Signature>,
    opts: CarveOptions,
    regions: Seq<(u64, u64)>,
    steady: bool,
    t: Tally,
)
    requires
        img.len() <= MAX_SOURCE_LEN,
        scannable(sigs),
        sweeps_regions(img, sigs, opts, regions, steady, t),
    ensures
        forall|i: int|
            0 <= i < t.files.len() ==> in_regions(
                sigs,
                opts,
                img.len() as int,
                regions,
                regions.len() as int,
                #[trigger] t.files[i],
            ),
{
    let stops = choose|stops: Seq<int>| #[trigger]
        stops_fit(opts, img.len() as int, regions, stops, steady) && t == swept(
            img,
            sigs,
            opts,
            regions,
            stops,
            regions.len() as int,
            fresh_tally(opts, Seq::empty()),
        );
    assert(stops_fit(opts, img.len() as int, regions, stops, false));
    lemma_swept_in_regions(img, sigs, opts, regions, stops, regions.len() as int);
}

} // verus!
