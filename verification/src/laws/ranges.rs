//! Laws of sets of numbers shown as runs.
use vstd::prelude::*;

use crate::number::signed_decimal;
use crate::laws::text::law_joining_parts;
use crate::ranges::{
    covers, ids_text, is_runs, law_finite_sets_have_runs, law_runs_are_unique, run_text, runs_of,
};

verus! {

/// Numbers in a row are shown by the first and the last of them, and a lone one by itself.
pub proof fn law_runs_are_shown_by_their_ends(first: i64, last: i64)
    requires
        first <= last,
    ensures
        ids_text(Set::new(|x: i64| first <= x <= last)) == if first == last {
            signed_decimal(first as int)
        } else {
            signed_decimal(first as int) + "-"@ + signed_decimal(last as int)
        },
        ids_text(Set::empty()) == Seq::<char>::empty(),
{
    let ids = Set::new(|x: i64| first <= x <= last);
    let runs = seq![(first, last)];
    assert(is_runs(runs, ids)) by {
        assert forall|x: i64| #[trigger] ids.contains(x) <==> covers(runs, x) by {
            if ids.contains(x) {
                assert(runs[0].0 <= x <= runs[0].1);
            }
        }
    }
    law_runs_are_unique(runs_of(ids), runs, ids);
    let show = |run: (i64, i64)| run_text(run);
    assert(runs.map_values(show) =~= seq![run_text((first, last))]);
    law_joining_parts(runs.map_values(show), seq![], ","@);
    let none = Seq::<(i64, i64)>::empty();
    assert(is_runs(none, Set::empty()));
    law_runs_are_unique(runs_of(Set::empty()), none, Set::empty());
    assert(none.map_values(show) =~= Seq::empty());
    law_joining_parts(none.map_values(show), seq![], ","@);
}

/// Whether every number of one set lies below those of another, with a gap between.
pub open spec fn apart(low: Set<i64>, high: Set<i64>) -> bool {
    forall|a: i64, b: i64| #[trigger] low.contains(a) && #[trigger] high.contains(b) ==> a + 1 < b
}

proof fn lemma_ends(runs: Seq<(i64, i64)>, ids: Set<i64>, k: int)
    requires
        is_runs(runs, ids),
        0 <= k < runs.len(),
    ensures
        ids.contains(runs[k].0),
        ids.contains(runs[k].1),
{
    assert(runs[k].0 <= runs[k].0 <= runs[k].1);
    assert(covers(runs, runs[k].0));
    assert(runs[k].0 <= runs[k].1 <= runs[k].1);
    assert(covers(runs, runs[k].1));
}

proof fn lemma_covers_both(ra: Seq<(i64, i64)>, rb: Seq<(i64, i64)>, x: i64)
    ensures
        covers(ra + rb, x) <==> covers(ra, x) || covers(rb, x),
{
    let runs = ra + rb;
    if covers(ra, x) {
        let k = choose|k: int| 0 <= k < ra.len() && (#[trigger] ra[k]).0 <= x <= ra[k].1;
        assert(runs[k] == ra[k]);
    }
    if covers(rb, x) {
        let k = choose|k: int| 0 <= k < rb.len() && (#[trigger] rb[k]).0 <= x <= rb[k].1;
        assert(runs[ra.len() + k] == rb[k]);
    }
    if covers(runs, x) {
        let k = choose|k: int| 0 <= k < runs.len() && (#[trigger] runs[k]).0 <= x <= runs[k].1;
        if k < ra.len() {
            assert(ra[k] == runs[k]);
        } else {
            assert(rb[k - ra.len()] == runs[k]);
        }
    }
}

proof fn lemma_runs_follow(
    ra: Seq<(i64, i64)>,
    rb: Seq<(i64, i64)>,
    low: Set<i64>,
    high: Set<i64>,
)
    requires
        is_runs(ra, low),
        is_runs(rb, high),
        apart(low, high),
    ensures
        is_runs(ra + rb, low.union(high)),
{
    let runs = ra + rb;
    let n = ra.len() as int;
    assert forall|k: int| 0 <= k < runs.len() implies (#[trigger] runs[k]).0 <= runs[k].1 by {
        if k < n {
            assert(runs[k] == ra[k]);
        } else {
            assert(runs[k] == rb[k - n]);
        }
    }
    assert forall|j: int, k: int| 0 <= j < k < runs.len() implies (#[trigger] runs[j]).1 + 1 < (
    #[trigger] runs[k]).0 by {
        if k < n {
            assert(runs[j] == ra[j] && runs[k] == ra[k]);
        } else if j >= n {
            assert(runs[j] == rb[j - n] && runs[k] == rb[k - n]);
        } else {
            assert(runs[j] == ra[j] && runs[k] == rb[k - n]);
            lemma_ends(ra, low, j);
            lemma_ends(rb, high, k - n);
        }
    }
    assert forall|x: i64| #[trigger] low.union(high).contains(x) <==> covers(runs, x) by {
        lemma_covers_both(ra, rb, x);
        assert(low.contains(x) <==> covers(ra, x));
        assert(high.contains(x) <==> covers(rb, x));
    }
}

/// Sets of numbers with a gap between them are shown one after the other, with a comma
/// between; so each number belongs to the run that shows it, and no run is broken.
pub proof fn law_gaps_part_runs(low: Set<i64>, high: Set<i64>)
    requires
        low.finite(),
        high.finite(),
        !low.is_empty(),
        !high.is_empty(),
        apart(low, high),
    ensures
        ids_text(low.union(high)) == ids_text(low) + ","@ + ids_text(high),
{
    let (ra, rb) = (runs_of(low), runs_of(high));
    law_finite_sets_have_runs(low);
    law_finite_sets_have_runs(high);
    lemma_runs_follow(ra, rb, low, high);
    law_runs_are_unique(runs_of(low.union(high)), ra + rb, low.union(high));
    let some_low = low.choose();
    let some_high = high.choose();
    assert(low.contains(some_low) && high.contains(some_high));
    assert(covers(ra, some_low) && covers(rb, some_high));
    let show = |run: (i64, i64)| run_text(run);
    assert((ra + rb).map_values(show) =~= ra.map_values(show) + rb.map_values(show));
    law_joining_parts(ra.map_values(show), rb.map_values(show), ","@);
}

} // verus!
