//! Sets of device numbers as runs, such as `0-3,6`.
use vstd::prelude::*;

use crate::number::{show_i64, signed_decimal};
use crate::text::{join, joined, texts};

verus! {

/// Whether some run reaches over `x`.
pub open spec fn covers(runs: Seq<(i64, i64)>, x: i64) -> bool {
    exists|k: int| 0 <= k < runs.len() && (#[trigger] runs[k]).0 <= x <= runs[k].1
}

/// Whether the runs, each from its first to its last number, are the longest ones in
/// `ids`, in rising order.
pub open spec fn is_runs(runs: Seq<(i64, i64)>, ids: Set<i64>) -> bool {
    &&& forall|k: int| 0 <= k < runs.len() ==> (#[trigger] runs[k]).0 <= runs[k].1
    &&& forall|j: int, k: int|
        0 <= j < k < runs.len() ==> (#[trigger] runs[j]).1 + 1 < (#[trigger] runs[k]).0
    &&& forall|x: i64| #[trigger] ids.contains(x) <==> covers(runs, x)
}

/// The longest runs in `ids`, in rising order.
pub open spec fn runs_of(ids: Set<i64>) -> Seq<(i64, i64)> {
    choose|runs: Seq<(i64, i64)>| is_runs(runs, ids)
}

/// A run as text: its first and its last number, or its only one.
pub open spec fn run_text(run: (i64, i64)) -> Seq<char> {
    if run.0 == run.1 {
        signed_decimal(run.0 as int)
    } else {
        signed_decimal(run.0 as int) + "-"@ + signed_decimal(run.1 as int)
    }
}

/// A set of numbers as text: its longest runs with commas between them.
pub open spec fn ids_text(ids: Set<i64>) -> Seq<char> {
    joined(runs_of(ids).map_values(|run: (i64, i64)| run_text(run)), ","@)
}

/// A set has only one list of longest runs.
pub proof fn law_runs_are_unique(a: Seq<(i64, i64)>, b: Seq<(i64, i64)>, ids: Set<i64>)
    requires
        is_runs(a, ids),
        is_runs(b, ids),
    ensures
        a == b,
    decreases a.len(),
{
    if a.len() == 0 || b.len() == 0 {
        if b.len() > 0 {
            assert(b[0].0 <= b[0].0 <= b[0].1);
            assert(covers(b, b[0].0));
            assert(ids.contains(b[0].0));
        }
        if a.len() > 0 {
            assert(a[0].0 <= a[0].0 <= a[0].1);
            assert(covers(a, a[0].0));
            assert(ids.contains(a[0].0));
        }
        assert(a =~= b);
    } else {
        let m = a.len() - 1;
        let n = b.len() - 1;
        let (x, y) = (a[m], b[n]);
        lemma_last_reach(a, b, ids);
        lemma_last_reach(b, a, ids);
        assert(x == y);
        let rest = Set::new(|i: i64| ids.contains(i) && i < x.0);
        lemma_without_last(a, ids);
        lemma_without_last(b, ids);
        law_runs_are_unique(a.drop_last(), b.drop_last(), rest);
        assert(a =~= a.drop_last().push(x));
        assert(b =~= b.drop_last().push(y));
    }
}

/// The last run of `b` reaches at least as high as that of `a`, and no lower than it
/// begins where it reaches as high.
proof fn lemma_last_reach(a: Seq<(i64, i64)>, b: Seq<(i64, i64)>, ids: Set<i64>)
    requires
        is_runs(a, ids),
        is_runs(b, ids),
        a.len() > 0,
        b.len() > 0,
    ensures
        a.last().1 <= b.last().1,
        a.last().1 == b.last().1 ==> b.last().0 <= a.last().0,
{
    let m = a.len() - 1;
    let n = b.len() - 1;
    assert(a[m].0 <= a[m].1 <= a[m].1);
    assert(covers(a, a[m].1));
    assert(ids.contains(a[m].1));
    let k = choose|k: int|
        0 <= k < b.len() && (#[trigger] b[k]).0 <= a[m].1 <= b[k].1;
    if k < n {
        assert(b[k].1 + 1 < b[n].0);
    }
    if a[m].1 == b[n].1 && a[m].0 < b[n].0 {
        let below = (b[n].0 - 1) as i64;
        assert(a[m].0 <= below <= a[m].1);
        assert(covers(a, below));
        assert(ids.contains(below));
        let j = choose|j: int| 0 <= j < b.len() && (#[trigger] b[j]).0 <= below <= b[j].1;
        if j < n {
            assert(b[j].1 + 1 < b[n].0);
        }
    }
}

/// Without the last run, the runs are those of the numbers below it.
proof fn lemma_without_last(runs: Seq<(i64, i64)>, ids: Set<i64>)
    requires
        is_runs(runs, ids),
        runs.len() > 0,
    ensures
        is_runs(runs.drop_last(), Set::new(|i: i64| ids.contains(i) && i < runs.last().0)),
{
    let n = runs.len() - 1;
    let rest = runs.drop_last();
    let below = Set::new(|i: i64| ids.contains(i) && i < runs.last().0);
    assert forall|k: int| 0 <= k < rest.len() implies (#[trigger] rest[k]).0 <= rest[k].1 by {
        assert(rest[k] == runs[k]);
    }
    assert forall|j: int, k: int| 0 <= j < k < rest.len() implies (#[trigger] rest[j]).1 + 1 < (
    #[trigger] rest[k]).0 by {
        assert(rest[j] == runs[j] && rest[k] == runs[k]);
    }
    assert forall|x: i64| #[trigger] below.contains(x) <==> covers(rest, x) by {
        if below.contains(x) {
            let k = choose|k: int| 0 <= k < runs.len() && (#[trigger] runs[k]).0 <= x <= runs[k].1;
            assert(k < n);
            assert(rest[k] == runs[k]);
        }
        if covers(rest, x) {
            let k = choose|k: int| 0 <= k < rest.len() && (#[trigger] rest[k]).0 <= x <= rest[k].1;
            assert(rest[k] == runs[k]);
            assert(runs[k].1 + 1 < runs[n].0);
            assert(covers(runs, x));
            assert(ids.contains(x));
        }
    }
}

/// The numbers in rising order, each once.
fn sorted_ids(ids: &Vec<i64>) -> (r: Vec<i64>)
    ensures
        r@.to_set() == ids@.to_set(),
        forall|i: int, j: int| 0 <= i < j < r.len() ==> r@[i] < r@[j],
{
    let mut out: Vec<i64> = Vec::new();
    let mut i: usize = 0;
    assert(out@.to_set() =~= ids@.take(0).to_set());
    while i < ids.len()
        invariant
            i <= ids.len(),
            out@.to_set() == ids@.take(i as int).to_set(),
            forall|j: int, k: int| 0 <= j < k < out.len() ==> out@[j] < out@[k],
        decreases ids.len() - i,
    {
        let x: i64 = ids[i];
        let mut at: usize = 0;
        while at < out.len() && out[at] < x
            invariant
                at <= out.len(),
                forall|j: int| 0 <= j < at ==> out@[j] < x,
            decreases out.len() - at,
        {
            at = at + 1;
        }
        let ghost before = out@;
        if at == out.len() || out[at] != x {
            out.insert(at, x);
            assert(forall|j: int|
                0 <= j < out.len() ==> out@[j] == if j < at {
                    before[j]
                } else if j == at {
                    x
                } else {
                    before[j - 1]
                });
        }
        proof {
            let now = ids@.take(i + 1);
            assert(now =~= ids@.take(i as int).push(x));
            assert forall|v: i64| #[trigger] out@.to_set().contains(v) <==> now.to_set().contains(
                v,
            ) by {
                if out@.contains(v) {
                    let j = choose|j: int| 0 <= j < out.len() && out@[j] == v;
                    if v != x {
                        if out@.len() == before.len() {
                            assert(before[j] == v);
                        } else if j < at {
                            assert(before[j] == v);
                        } else {
                            assert(before[j - 1] == v);
                        }
                        assert(before.to_set().contains(v));
                        assert(ids@.take(i as int).contains(v));
                        let k = choose|k: int|
                            0 <= k < ids@.take(i as int).len() && ids@.take(i as int)[k] == v;
                        assert(now[k] == v);
                    } else {
                        assert(now[i as int] == v);
                    }
                }
                if now.contains(v) {
                    if v == x {
                        assert(out@[at as int] == x);
                    } else {
                        let k = choose|k: int| 0 <= k < now.len() && now[k] == v;
                        assert(ids@.take(i as int)[k] == v);
                        assert(before.to_set().contains(v));
                        let j = choose|j: int| 0 <= j < before.len() && before[j] == v;
                        if out@.len() == before.len() || j < at {
                            assert(out@[j] == v);
                        } else {
                            assert(out@[j + 1] == v);
                        }
                    }
                }
            }
            assert(out@.to_set() =~= now.to_set());
        }
        i = i + 1;
    }
    assert(ids@.take(ids.len() as int) =~= ids@);
    out
}

/// One more number after the last run.
proof fn lemma_new_run(runs: Seq<(i64, i64)>, ids: Set<i64>, x: i64)
    requires
        is_runs(runs, ids),
        runs.len() > 0 ==> runs.last().1 + 1 < x,
    ensures
        is_runs(runs.push((x, x)), ids.insert(x)),
{
    let next = runs.push((x, x));
    let n = runs.len() as int;
    assert forall|j: int, k: int| 0 <= j < k < next.len() implies (#[trigger] next[j]).1 + 1 < (
    #[trigger] next[k]).0 by {
        if k == n {
            if j < n - 1 {
                assert(runs[j].1 + 1 < runs[n - 1].0);
            }
        }
    }
    assert forall|v: i64| #[trigger] ids.insert(x).contains(v) <==> covers(next, v) by {
        if v == x {
            assert(next[n].0 <= v <= next[n].1);
        } else {
            if ids.contains(v) {
                let k = choose|k: int|
                    0 <= k < runs.len() && (#[trigger] runs[k]).0 <= v <= runs[k].1;
                assert(next[k] == runs[k]);
            }
            if covers(next, v) {
                let k = choose|k: int|
                    0 <= k < next.len() && (#[trigger] next[k]).0 <= v <= next[k].1;
                assert(k < n);
                assert(runs[k] == next[k]);
                assert(covers(runs, v));
            }
        }
    }
}

/// One more number right after the last run.
proof fn lemma_longer_run(runs: Seq<(i64, i64)>, ids: Set<i64>, x: i64)
    requires
        is_runs(runs, ids),
        runs.len() > 0,
        runs.last().1 + 1 == x,
    ensures
        is_runs(runs.update(runs.len() - 1, (runs.last().0, x)), ids.insert(x)),
{
    let n = runs.len() - 1;
    let next = runs.update(n, (runs.last().0, x));
    assert(runs[n].0 <= runs[n].1);
    assert forall|j: int, k: int| 0 <= j < k < next.len() implies (#[trigger] next[j]).1 + 1 < (
    #[trigger] next[k]).0 by {
        assert(runs[j].1 + 1 < runs[k].0);
    }
    assert forall|v: i64| #[trigger] ids.insert(x).contains(v) <==> covers(next, v) by {
        if v == x {
            assert(next[n].0 <= v <= next[n].1);
        } else {
            if ids.contains(v) {
                let k = choose|k: int|
                    0 <= k < runs.len() && (#[trigger] runs[k]).0 <= v <= runs[k].1;
                assert(next[k].0 <= v <= next[k].1);
            }
            if covers(next, v) {
                let k = choose|k: int|
                    0 <= k < next.len() && (#[trigger] next[k]).0 <= v <= next[k].1;
                assert(runs[k].0 <= v <= runs[k].1);
                assert(covers(runs, v));
            }
        }
    }
}

fn find_runs(ids: &Vec<i64>) -> (r: Vec<(i64, i64)>)
    requires
        forall|i: int, j: int| 0 <= i < j < ids.len() ==> ids@[i] < ids@[j],
    ensures
        is_runs(r@, ids@.to_set()),
{
    let mut runs: Vec<(i64, i64)> = Vec::new();
    let mut i: usize = 0;
    assert(is_runs(runs@, ids@.take(0).to_set()));
    while i < ids.len()
        invariant
            i <= ids.len(),
            forall|i: int, j: int| 0 <= i < j < ids.len() ==> ids@[i] < ids@[j],
            is_runs(runs@, ids@.take(i as int).to_set()),
            i > 0 ==> runs.len() > 0 && runs@.last().1 == ids@[i - 1],
            i == 0 ==> runs.len() == 0,
        decreases ids.len() - i,
    {
        let x: i64 = ids[i];
        let n: usize = runs.len();
        let ghost before = runs@;
        let ghost seen = ids@.take(i as int).to_set();
        proof {
            let now = ids@.take(i + 1);
            assert(now =~= ids@.take(i as int).push(x));
            assert forall|v: i64| #[trigger] now.to_set().contains(v) <==> seen.insert(x).contains(
                v,
            ) by {
                if now.contains(v) && v != x {
                    let k = choose|k: int| 0 <= k < now.len() && now[k] == v;
                    assert(ids@.take(i as int)[k] == v);
                }
                if v == x {
                    assert(now[i as int] == v);
                } else if seen.contains(v) {
                    let k = choose|k: int|
                        0 <= k < ids@.take(i as int).len() && ids@.take(i as int)[k] == v;
                    assert(now[k] == v);
                }
            }
            assert(now.to_set() =~= seen.insert(x));
            if i > 0 {
                assert(ids@[i - 1] < ids@[i as int]);
            }
        }
        if n > 0 && runs[n - 1].1 == x - 1 {
            proof {
                lemma_longer_run(before, seen, x);
            }
            let first: i64 = runs[n - 1].0;
            runs.set(n - 1, (first, x));
        } else {
            proof {
                lemma_new_run(before, seen, x);
            }
            runs.push((x, x));
        }
        i = i + 1;
    }
    assert(ids@.take(ids.len() as int) =~= ids@);
    runs
}

/// Every finite set has its list of longest runs.
pub proof fn law_finite_sets_have_runs(ids: Set<i64>)
    requires
        ids.finite(),
    ensures
        is_runs(runs_of(ids), ids),
    decreases ids.len(),
{
    if ids.len() == 0 {
        assert(ids =~= Set::empty());
        assert(is_runs(Seq::empty(), ids));
    } else {
        let order = |a: i64, b: i64| a <= b;
        let x = ids.find_unique_maximal(order);
        let rest = ids.remove(x);
        assert(vstd::relations::total_ordering(order));
        ids.find_unique_maximal_ensures(order);
        law_finite_sets_have_runs(rest);
        let runs = runs_of(rest);
        assert(rest.insert(x) =~= ids);
        if runs.len() > 0 {
            let last = runs.last();
            assert(runs[runs.len() - 1] == last && last.0 <= last.1 <= last.1);
            assert(covers(runs, last.1));
            assert(ids.contains(last.1));
            assert(order(last.1, x) || order(x, last.1));
        }
        if runs.len() > 0 && runs.last().1 + 1 == x {
            lemma_longer_run(runs, rest, x);
        } else {
            lemma_new_run(runs, rest, x);
        }
    }
}

fn show_run(run: (i64, i64)) -> (r: String)
    ensures
        r@ == run_text(run),
{
    let mut out = show_i64(run.0);
    if run.0 != run.1 {
        out.append("-");
        out.append(show_i64(run.1).as_str());
    }
    out
}

/// A list of device numbers as compact text.
pub fn compress(ids: &Vec<i64>) -> (r: String)
    ensures
        r@ == ids_text(ids@.to_set()),
        is_runs(runs_of(ids@.to_set()), ids@.to_set()),
{
    let runs = find_runs(&sorted_ids(ids));
    proof {
        law_runs_are_unique(runs@, runs_of(ids@.to_set()), ids@.to_set());
    }
    let mut parts: Vec<String> = Vec::new();
    let ghost show = |run: (i64, i64)| run_text(run);
    let mut i: usize = 0;
    assert(texts(parts@) =~= runs@.take(0).map_values(show));
    while i < runs.len()
        invariant
            i <= runs.len(),
            show == (|run: (i64, i64)| run_text(run)),
            texts(parts@) == runs@.take(i as int).map_values(show),
        decreases runs.len() - i,
    {
        let ghost earlier = texts(parts@);
        parts.push(show_run(runs[i]));
        assert(texts(parts@) =~= earlier.push(run_text(runs@[i as int])));
        assert(texts(parts@) =~= runs@.take(i + 1).map_values(show));
        i = i + 1;
    }
    assert(runs@.take(runs.len() as int) =~= runs@);
    join(&parts, ",")
}

} // verus!
