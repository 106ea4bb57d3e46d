//! What a summary of recovered files counts.

use vstd::prelude::*;

use super::{
    copies, corrupt_of, finding, groups, is_first, leads, mismatches_of, redundant, Content,
    FileFacts,
};
use crate::bytes::sat64;
use crate::text::lowered;

verus! {

/// Whether no two files have the same content.
pub open spec fn all_differ(files: Seq<FileFacts>) -> bool {
    forall|i: int, j: int|
        #![trigger files[i], files[j]]
        0 <= i < j < files.len() ==> files[i].digest@ != files[j].digest@
}

proof fn lemma_one_copy(files: Seq<FileFacts>, i: int, n: int)
    requires
        all_differ(files),
        0 <= i < files.len(),
        0 <= n <= files.len(),
    ensures
        copies(files, files[i].digest@, n) == if i < n {
            1int
        } else {
            0
        },
    decreases n,
{
    if n > 0 {
        lemma_one_copy(files, i, n - 1);
        let f = files[n - 1];
        if n - 1 != i {
            assert(f.digest@ != files[i].digest@);
        }
    }
}

proof fn lemma_no_groups(files: Seq<FileFacts>, n: int)
    requires
        all_differ(files),
        0 <= n <= files.len(),
    ensures
        groups(files, n) == 0,
        redundant(files, n) == 0,
    decreases n,
{
    if n > 0 {
        lemma_no_groups(files, n - 1);
        lemma_one_copy(files, n - 1, files.len() as int);
    }
}

/// Files that all differ have no duplicates, and nothing in them is redundant.
pub proof fn lemma_all_differ(files: Seq<FileFacts>)
    requires
        all_differ(files),
    ensures
        groups(files, files.len() as int) == 0,
        redundant(files, files.len() as int) == 0,
{
    lemma_no_groups(files, files.len() as int);
}

/// Whether all files have the same content.
pub open spec fn all_same(files: Seq<FileFacts>, d: Seq<u8>) -> bool {
    forall|i: int| 0 <= i < files.len() ==> (#[trigger] files[i]).digest@ == d
}

proof fn lemma_all_copies(files: Seq<FileFacts>, d: Seq<u8>, n: int)
    requires
        all_same(files, d),
        0 <= n <= files.len(),
    ensures
        copies(files, d, n) == n,
    decreases n,
{
    if n > 0 {
        lemma_all_copies(files, d, n - 1);
        assert(files[n - 1].digest@ == d);
    }
}

proof fn lemma_one_group(files: Seq<FileFacts>, d: Seq<u8>, n: int)
    requires
        all_same(files, d),
        2 <= files.len(),
        1 <= n <= files.len(),
    ensures
        groups(files, n) == 1,
        redundant(files, n) == sat64(files[0].size * (files.len() - 1)),
    decreases n,
{
    lemma_all_copies(files, d, files.len() as int);
    let f = files[n - 1];
    assert(f.digest@ == d);
    if n > 1 {
        lemma_one_group(files, d, n - 1);
        assert(files[0].digest@ == d);
        assert(!is_first(files, n - 1));
        assert(!leads(files, n - 1));
    } else {
        assert(groups(files, 0) == 0 && redundant(files, 0) == 0);
        assert(leads(files, 0));
    }
}

/// Files that are all copies of one are one group, and all of them but one are redundant.
pub proof fn lemma_all_same(files: Seq<FileFacts>, d: Seq<u8>)
    requires
        all_same(files, d),
        2 <= files.len(),
    ensures
        groups(files, files.len() as int) == 1,
        redundant(files, files.len() as int) == sat64(files[0].size * (files.len() - 1)),
{
    lemma_one_group(files, d, files.len() as int);
}

proof fn lemma_listed(files: Seq<FileFacts>, i: int, n: int)
    requires
        0 <= i < n <= files.len(),
    ensures
        finding(files[i]) matches Content::Mismatch(d) ==> mismatches_of(files, n).contains(
            (files[i].path@, lowered(files[i].ext@), d@),
        ),
        finding(files[i]) is Corrupt ==> corrupt_of(files, n).contains(
            (files[i].path@, lowered(files[i].ext@)),
        ),
    decreases n,
{
    let ms = mismatches_of(files, n);
    let cs = corrupt_of(files, n);
    let ms0 = mismatches_of(files, n - 1);
    let cs0 = corrupt_of(files, n - 1);
    if i < n - 1 {
        lemma_listed(files, i, n - 1);
        if let Content::Mismatch(d) = finding(files[i]) {
            let x = (files[i].path@, lowered(files[i].ext@), d@);
            let q = choose|q: int| 0 <= q < ms0.len() && ms0[q] == x;
            assert(ms[q] == x);
        }
        if finding(files[i]) is Corrupt {
            let x = (files[i].path@, lowered(files[i].ext@));
            let q = choose|q: int| 0 <= q < cs0.len() && cs0[q] == x;
            assert(cs[q] == x);
        }
    } else {
        if let Content::Mismatch(d) = finding(files[i]) {
            assert(ms.last() == (files[i].path@, lowered(files[i].ext@), d@));
        }
        if finding(files[i]) is Corrupt {
            assert(cs.last() == (files[i].path@, lowered(files[i].ext@)));
        }
    }
}

/// Every file whose content is not what it claims is listed, with the type that it claims
/// and the one that it has; every corrupt one is listed with the type that it claims.
pub proof fn lemma_reported_files(files: Seq<FileFacts>, i: int)
    requires
        0 <= i < files.len(),
    ensures
        finding(files[i]) matches Content::Mismatch(d) ==> mismatches_of(
            files,
            files.len() as int,
        ).contains((files[i].path@, lowered(files[i].ext@), d@)),
        finding(files[i]) is Corrupt ==> corrupt_of(files, files.len() as int).contains(
            (files[i].path@, lowered(files[i].ext@)),
        ),
{
    lemma_listed(files, i, files.len() as int);
}

} // verus!
