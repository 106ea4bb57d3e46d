//! The summaries of the commands.

use vstd::prelude::*;

use super::summary::{counts_in, facts, Fact, SummaryValue};
use crate::carver::{carved_items, records, CarveStats};
use crate::cli::{ImageArgs, RecoverArgs, ScanArgs, UndeleteArgs};
use crate::image::ImageStats;
use crate::recover::passes::{CarveTotals, Totals};
use crate::signatures::Signature;
use crate::tallies::{tallies, TypeStat};
use crate::text::{owned, push_text};

verus! {

/// The extensions of the first `n` signatures, set apart.
pub open spec fn joined_types(sigs: Seq<Signature>, sep: Seq<char>, n: int) -> Seq<char>
    decreases n,
{
    if n <= 0 {
        Seq::empty()
    } else if n == 1 {
        sigs[0].ext@
    } else {
        joined_types(sigs, sep, n - 1) + sep + sigs[n - 1].ext@
    }
}

/// Name the types of signatures.
pub fn type_names(active: &Vec<Signature>, sep: &str) -> (r: String)
    ensures
        r@ == joined_types(active@, sep@, active@.len() as int),
{
    let mut out = String::new();
    let mut i: usize = 0;
    assert(out@ =~= joined_types(active@, sep@, 0));
    while i < active.len()
        invariant
            i <= active@.len(),
            out@ == joined_types(active@, sep@, i as int),
        decreases active.len() - i,
    {
        if i > 0 {
            push_text(&mut out, sep);
        }
        push_text(&mut out, active[i].ext);
        assert(out@ =~= joined_types(active@, sep@, i + 1));
        i = i + 1;
    }
    out
}

/// The counts of a tally.
pub open spec fn tally_counts(list: Seq<(String, TypeStat)>) -> Seq<(Seq<char>, int)> {
    list.map_values(|m: (String, TypeStat)| (m.0@, m.1.count as int))
}

fn counts(list: &Vec<(String, TypeStat)>) -> (r: Vec<(String, u64)>)
    ensures
        counts_in(r@) == tally_counts(list@),
{
    let mut out: Vec<(String, u64)> = Vec::new();
    let mut i: usize = 0;
    assert(counts_in(out@) =~= tally_counts(list@).take(0));
    while i < list.len()
        invariant
            i <= list@.len(),
            counts_in(out@) == tally_counts(list@).take(i as int),
        decreases list.len() - i,
    {
        let ghost before = counts_in(out@);
        let entry: (String, u64) = (owned(list[i].0.as_str()), list[i].1.count);
        let ghost e = (entry.0@, entry.1 as int);
        out.push(entry);
        assert(counts_in(out@) =~= before.push(e));
        assert(counts_in(out@) =~= tally_counts(list@).take(i + 1));
        i = i + 1;
    }
    assert(counts_in(out@) =~= tally_counts(list@));
    out
}

/// What a scan is summarized as.
pub open spec fn scan_facts(
    args: ScanArgs,
    source_bytes: int,
    types: Seq<char>,
    st: CarveStats,
    per_type: Seq<(Seq<char>, int)>,
    elapsed_ms: int,
    now: int,
) -> Seq<(Seq<char>, Fact)> {
    seq![
        ("command"@, Fact::Text("scan"@)),
        ("source"@, Fact::Text(args.source@)),
        ("source_bytes"@, Fact::Number(source_bytes)),
        ("output"@, Fact::Text(args.output@)),
        ("types"@, Fact::Text(types)),
        ("validate"@, Fact::Flag(!args.no_validate)),
        ("dedup"@, Fact::Flag(args.dedup)),
        ("allow_nested"@, Fact::Flag(args.allow_nested)),
        ("min_size"@, Fact::Number(args.min_size as int)),
        ("files_recovered"@, Fact::Number(st.files_recovered as int)),
        ("bytes_recovered"@, Fact::Number(st.bytes_recovered as int)),
        ("rejected"@, Fact::Number(st.rejected as int)),
        ("duplicates"@, Fact::Number(st.duplicates as int)),
        ("per_type"@, Fact::Counts(per_type)),
        ("elapsed_ms"@, Fact::Number(elapsed_ms)),
        ("timestamp_unix"@, Fact::Number(now)),
    ]
}

/// The summary of a scan that took `elapsed_ms` and ended at the Unix time `now`.
pub fn scan_summary(
    args: &ScanArgs,
    source_bytes: u64,
    active: &Vec<Signature>,
    st: &CarveStats,
    elapsed_ms: u64,
    now: u64,
) -> (r: Vec<(&'static str, SummaryValue)>)
    ensures
        exists|list: Seq<(String, TypeStat)>|
            tallies(list, carved_items(records(st.files@))) && facts(r@) == scan_facts(
                *args,
                source_bytes as int,
                joined_types(active@, ","@, active@.len() as int),
                *st,
                #[trigger] tally_counts(list),
                elapsed_ms as int,
                now as int,
            ),
{
    let list = st.per_type();
    let r: Vec<(&'static str, SummaryValue)> = vec![
        ("command", SummaryValue::Text(owned("scan"))),
        ("source", SummaryValue::Text(owned(args.source.as_str()))),
        ("source_bytes", SummaryValue::Number(source_bytes)),
        ("output", SummaryValue::Text(owned(args.output.as_str()))),
        ("types", SummaryValue::Text(type_names(active, ","))),
        ("validate", SummaryValue::Flag(!args.no_validate)),
        ("dedup", SummaryValue::Flag(args.dedup)),
        ("allow_nested", SummaryValue::Flag(args.allow_nested)),
        ("min_size", SummaryValue::Number(args.min_size)),
        ("files_recovered", SummaryValue::Number(st.files_recovered)),
        ("bytes_recovered", SummaryValue::Number(st.bytes_recovered)),
        ("rejected", SummaryValue::Number(st.rejected)),
        ("duplicates", SummaryValue::Number(st.duplicates)),
        ("per_type", SummaryValue::Counts(counts(&list))),
        ("elapsed_ms", SummaryValue::Number(elapsed_ms)),
        ("timestamp_unix", SummaryValue::Number(now)),
    ];
    assert(facts(r@) =~= scan_facts(
        *args,
        source_bytes as int,
        joined_types(active@, ","@, active@.len() as int),
        *st,
        tally_counts(list@),
        elapsed_ms as int,
        now as int,
    ));
    r
}

/// What an undelete run is summarized as.
pub open spec fn undelete_facts(
    args: UndeleteArgs,
    source_bytes: int,
    volumes: int,
    t: Totals,
    elapsed_ms: int,
    now: int,
) -> Seq<(Seq<char>, Fact)> {
    seq![
        ("command"@, Fact::Text("undelete"@)),
        ("source"@, Fact::Text(args.source@)),
        ("source_bytes"@, Fact::Number(source_bytes)),
        ("output"@, Fact::Text(args.output@)),
        ("volumes"@, Fact::Number(volumes)),
        ("dry_run"@, Fact::Flag(args.dry_run)),
        ("min_size"@, Fact::Number(args.min_size as int)),
        ("recovered"@, Fact::Number(t.recovered as int)),
        ("bytes_recovered"@, Fact::Number(t.bytes_recovered as int)),
        ("skipped"@, Fact::Number(t.skipped as int)),
        ("elapsed_ms"@, Fact::Number(elapsed_ms)),
        ("timestamp_unix"@, Fact::Number(now)),
    ]
}

/// The summary of an undelete run over some volumes.
pub fn undelete_summary(
    args: &UndeleteArgs,
    source_bytes: u64,
    volumes: usize,
    t: &Totals,
    elapsed_ms: u64,
    now: u64,
) -> (r: Vec<(&'static str, SummaryValue)>)
    ensures
        facts(r@) == undelete_facts(
            *args,
            source_bytes as int,
            volumes as int,
            *t,
            elapsed_ms as int,
            now as int,
        ),
{
    let r: Vec<(&'static str, SummaryValue)> = vec![
        ("command", SummaryValue::Text(owned("undelete"))),
        ("source", SummaryValue::Text(owned(args.source.as_str()))),
        ("source_bytes", SummaryValue::Number(source_bytes)),
        ("output", SummaryValue::Text(owned(args.output.as_str()))),
        ("volumes", SummaryValue::Number(volumes as u64)),
        ("dry_run", SummaryValue::Flag(args.dry_run)),
        ("min_size", SummaryValue::Number(args.min_size)),
        ("recovered", SummaryValue::Number(t.recovered)),
        ("bytes_recovered", SummaryValue::Number(t.bytes_recovered)),
        ("skipped", SummaryValue::Number(t.skipped)),
        ("elapsed_ms", SummaryValue::Number(elapsed_ms)),
        ("timestamp_unix", SummaryValue::Number(now)),
    ];
    assert(facts(r@) =~= undelete_facts(
        *args,
        source_bytes as int,
        volumes as int,
        *t,
        elapsed_ms as int,
        now as int,
    ));
    r
}

/// What a combined run is summarized as.
pub open spec fn recover_facts(
    args: RecoverArgs,
    source_bytes: int,
    t: Totals,
    carved: CarveTotals,
    elapsed_ms: int,
    now: int,
) -> Seq<(Seq<char>, Fact)> {
    seq![
        ("command"@, Fact::Text("recover"@)),
        ("source"@, Fact::Text(args.source@)),
        ("source_bytes"@, Fact::Number(source_bytes)),
        ("output"@, Fact::Text(args.output@)),
        ("named_recovered"@, Fact::Number(t.recovered as int)),
        ("named_bytes"@, Fact::Number(t.bytes_recovered as int)),
        ("unallocated_only"@, Fact::Flag(args.unallocated)),
        ("carved_recovered"@, Fact::Number(carved.files as int)),
        ("carved_bytes"@, Fact::Number(carved.bytes as int)),
        ("carved_duplicates"@, Fact::Number(carved.duplicates as int)),
        ("elapsed_ms"@, Fact::Number(elapsed_ms)),
        ("timestamp_unix"@, Fact::Number(now)),
    ]
}

/// The summary of a combined run.
pub fn recover_summary(
    args: &RecoverArgs,
    source_bytes: u64,
    t: &Totals,
    carved: &CarveTotals,
    elapsed_ms: u64,
    now: u64,
) -> (r: Vec<(&'static str, SummaryValue)>)
    ensures
        facts(r@) == recover_facts(
            *args,
            source_bytes as int,
            *t,
            *carved,
            elapsed_ms as int,
            now as int,
        ),
{
    let r: Vec<(&'static str, SummaryValue)> = vec![
        ("command", SummaryValue::Text(owned("recover"))),
        ("source", SummaryValue::Text(owned(args.source.as_str()))),
        ("source_bytes", SummaryValue::Number(source_bytes)),
        ("output", SummaryValue::Text(owned(args.output.as_str()))),
        ("named_recovered", SummaryValue::Number(t.recovered)),
        ("named_bytes", SummaryValue::Number(t.bytes_recovered)),
        ("unallocated_only", SummaryValue::Flag(args.unallocated)),
        ("carved_recovered", SummaryValue::Number(carved.files)),
        ("carved_bytes", SummaryValue::Number(carved.bytes)),
        ("carved_duplicates", SummaryValue::Number(carved.duplicates)),
        ("elapsed_ms", SummaryValue::Number(elapsed_ms)),
        ("timestamp_unix", SummaryValue::Number(now)),
    ];
    assert(facts(r@) =~= recover_facts(
        *args,
        source_bytes as int,
        *t,
        *carved,
        elapsed_ms as int,
        now as int,
    ));
    r
}

/// What passes over the unreadable regions of an image salvaged.
#[derive(Clone, Copy, Debug, PartialEq, Eq, Structural)]
pub struct Retried {
    pub passes: u64,
    pub bytes: u64,
}

/// What an imaging run is summarized as.
pub open spec fn image_facts(
    args: ImageArgs,
    source_bytes: int,
    st: ImageStats,
    retried: Retried,
    elapsed_ms: int,
    now: int,
) -> Seq<(Seq<char>, Fact)> {
    seq![
        ("command"@, Fact::Text("image"@)),
        ("source"@, Fact::Text(args.source@)),
        ("source_bytes"@, Fact::Number(source_bytes)),
        ("output"@, Fact::Text(args.output@)),
        ("sparse"@, Fact::Flag(!args.no_sparse)),
        ("sector_size"@, Fact::Number(args.sector_size as int)),
        ("resume"@, Fact::Flag(args.resume)),
        ("retry_bad"@, Fact::Number(args.retry_bad as int)),
        ("bytes_total"@, Fact::Number(st.bytes_total as int)),
        ("bytes_copied"@, Fact::Number(st.bytes_copied as int)),
        ("bytes_sparse"@, Fact::Number(st.bytes_sparse as int)),
        ("bytes_zeroed"@, Fact::Number(st.bytes_zeroed as int)),
        ("retry_passes"@, Fact::Number(retried.passes as int)),
        ("bytes_recovered_retry"@, Fact::Number(retried.bytes as int)),
        ("bad_regions"@, Fact::Number(st.bad_regions@.len() as int)),
        ("cancelled"@, Fact::Flag(st.cancelled)),
        ("elapsed_ms"@, Fact::Number(elapsed_ms)),
        ("timestamp_unix"@, Fact::Number(now)),
    ]
}

/// The summary of an imaging run.
pub fn image_summary(
    args: &ImageArgs,
    source_bytes: u64,
    st: &ImageStats,
    retried: Retried,
    elapsed_ms: u64,
    now: u64,
) -> (r: Vec<(&'static str, SummaryValue)>)
    ensures
        facts(r@) == image_facts(
            *args,
            source_bytes as int,
            *st,
            retried,
            elapsed_ms as int,
            now as int,
        ),
{
    let r: Vec<(&'static str, SummaryValue)> = vec![
        ("command", SummaryValue::Text(owned("image"))),
        ("source", SummaryValue::Text(owned(args.source.as_str()))),
        ("source_bytes", SummaryValue::Number(source_bytes)),
        ("output", SummaryValue::Text(owned(args.output.as_str()))),
        ("sparse", SummaryValue::Flag(!args.no_sparse)),
        ("sector_size", SummaryValue::Number(args.sector_size)),
        ("resume", SummaryValue::Flag(args.resume)),
        ("retry_bad", SummaryValue::Number(args.retry_bad as u64)),
        ("bytes_total", SummaryValue::Number(st.bytes_total)),
        ("bytes_copied", SummaryValue::Number(st.bytes_copied)),
        ("bytes_sparse", SummaryValue::Number(st.bytes_sparse)),
        ("bytes_zeroed", SummaryValue::Number(st.bytes_zeroed)),
        ("retry_passes", SummaryValue::Number(retried.passes)),
        ("bytes_recovered_retry", SummaryValue::Number(retried.bytes)),
        ("bad_regions", SummaryValue::Number(st.bad_regions.len() as u64)),
        ("cancelled", SummaryValue::Flag(st.cancelled)),
        ("elapsed_ms", SummaryValue::Number(elapsed_ms)),
        ("timestamp_unix", SummaryValue::Number(now)),
    ];
    assert(facts(r@) =~= image_facts(
        *args,
        source_bytes as int,
        *st,
        retried,
        elapsed_ms as int,
        now as int,
    ));
    r
}

} // verus!
