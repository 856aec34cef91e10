//! Laws of cores taken together to chips.
use vstd::prelude::*;

use crate::rows::{
    all_memory, chip_of, chips_of, cores_of, first_pid, keys_of, law_most_is_largest,
    lemma_chip_push, lemma_chips_push, lemma_cores_belong, lemma_keys, most, used_memory, ChipView,
    DevView,
};

verus! {

/// Whether a chip is the one that a core belongs to.
pub open spec fn is_of(r: DevView, c: ChipView) -> bool {
    r.host == c.host && r.chip == c.chip
}

/// What a chip becomes when it takes in one more core: it keeps its place and its name, takes
/// the core's process if it had none, the larger memory figures if the core was measured,
/// and lists the core last.
pub open spec fn grows_by(before: ChipView, r: DevView, after: ChipView) -> bool {
    &&& after.host == before.host && after.chip == before.chip
    &&& before.pid != "-"@ ==> after.pid == before.pid
    &&& before.pid == "-"@ ==> after.pid == r.pid
    &&& !r.metrics_ok ==> after.used == before.used && after.total == before.total
    &&& r.metrics_ok ==> after.used == before.used.larger(r.used) && after.total
        == before.total.larger(r.total)
    &&& after.metrics_ok == (before.metrics_ok || r.metrics_ok)
    &&& after.cores == before.cores.push((r.dev, r.duty))
}

/// One more row changes the chip that it belongs to, or adds that chip as the last one, and
/// leaves all others as they are.
pub proof fn law_one_more_core(rows: Seq<DevView>, r: DevView, c: int)
    ensures
        ({
            let before = chips_of(rows);
            let after = chips_of(rows.push(r));
            &&& 0 <= c < before.len() && !is_of(r, before[c]) ==> after[c] == before[c]
            &&& 0 <= c < before.len() && is_of(r, before[c]) ==> after.len() == before.len()
                && grows_by(before[c], r, after[c])
            &&& (forall|k: int| 0 <= k < before.len() ==> !is_of(r, #[trigger] before[k]))
                ==> after.len() == before.len() + 1 && after.last() == (ChipView {
                host: r.host,
                chip: r.chip,
                pid: r.pid,
                used: r.used,
                total: r.total,
                metrics_ok: r.metrics_ok,
                cores: seq![(r.dev, r.duty)],
            })
            &&& chips_of(Seq::empty()).len() == 0
        }),
{
    let before = chips_of(rows);
    let after = chips_of(rows.push(r));
    let keys = keys_of(rows);
    lemma_chips_push(rows, r);
    lemma_keys(rows);
    assert forall|k: int| 0 <= k < before.len() implies (is_of(r, #[trigger] before[k]) <==> keys[k]
        == r.key()) by {
        let of = cores_of(rows, keys[k]);
        assert(of[0].key() == keys[k]);
    }
    if keys.contains(r.key()) {
        let at = choose|at: int| 0 <= at < keys.len() && keys[at] == r.key();
        assert(is_of(r, before[at]));
        let of = cores_of(rows, keys[at]);
        lemma_chip_push(of, r);
        if 0 <= c < before.len() && c != at {
            assert(keys[c] != keys[at]);
        }
    } else {
        assert forall|k: int| 0 <= k < before.len() implies !is_of(r, #[trigger] before[k]) by {
            assert(keys.contains(keys[k]));
        }
        let lone = seq![r];
        assert(lone.map_values(crate::rows::core_duty()) =~= seq![(r.dev, r.duty)]);
        assert(lone[0].metrics_ok == r.metrics_ok);
        assert(after.last() == chip_of(lone));
        assert(first_pid(lone) == r.pid);
    }
}

/// A chip's process is the first one that is known of its cores, and none where none is.
pub proof fn law_first_known_process(rows: Seq<DevView>, i: int)
    requires
        rows.len() > 0,
    ensures
        0 <= i < rows.len() && rows[i].pid != "-"@ && (forall|j: int|
            0 <= j < i ==> (#[trigger] rows[j]).pid == "-"@) ==> first_pid(rows) == rows[i].pid,
        (forall|j: int| 0 <= j < rows.len() ==> (#[trigger] rows[j]).pid == "-"@) ==> first_pid(rows)
            == "-"@,
    decreases rows.len(),
{
    let rest = rows.drop_first();
    assert forall|j: int| 0 <= j < rest.len() implies #[trigger] rest[j] == rows[j + 1] by {}
    if rows.len() > 1 {
        law_first_known_process(rest, i - 1);
        if 0 < i < rows.len() && (forall|j: int| 0 <= j < i ==> (#[trigger] rows[j]).pid == "-"@) {
            assert(rows[0].pid == "-"@);
            assert(rest[i - 1] == rows[i]);
        }
        if forall|j: int| 0 <= j < rows.len() ==> (#[trigger] rows[j]).pid == "-"@ {
            assert(rows[0].pid == "-"@);
        }
    } else if forall|j: int| 0 <= j < rows.len() ==> (#[trigger] rows[j]).pid == "-"@ {
        assert(rows[0].pid == "-"@);
    }
}

/// A chip shows the largest memory figures of its cores that were measured, used and total
/// apart from each other, and never those of another chip.
pub proof fn law_chips_show_their_memory(rows: Seq<DevView>, c: int, i: int)
    requires
        0 <= c < chips_of(rows).len(),
        0 <= i < rows.len(),
        is_of(rows[i], chips_of(rows)[c]),
        rows[i].metrics_ok,
    ensures
        chips_of(rows)[c].metrics_ok,
        !chips_of(rows)[c].used.is_below(rows[i].used),
        !chips_of(rows)[c].total.is_below(rows[i].total),
        exists|j: int|
            0 <= j < rows.len() && is_of(#[trigger] rows[j], chips_of(rows)[c]) && rows[j].used
                == chips_of(rows)[c].used,
        exists|j: int|
            0 <= j < rows.len() && is_of(#[trigger] rows[j], chips_of(rows)[c]) && rows[j].total
                == chips_of(rows)[c].total,
{
    lemma_keys(rows);
    let key = keys_of(rows)[c];
    let of = cores_of(rows, key);
    let chip = chips_of(rows)[c];
    assert(of[0].key() == key);
    assert(rows[i].key() == key);
    rows.lemma_filter_contains(crate::rows::belongs(key), i);
    let k = choose|k: int| 0 <= k < of.len() && of[k] == rows[i];
    law_most_is_largest(of, used_memory());
    law_most_is_largest(of, all_memory());
    assert(of[k].metrics_ok);
    let a = choose|a: int|
        0 <= a < of.len() && (a == 0 || of[a].metrics_ok) && most(of, used_memory()) == used_memory()(
            #[trigger] of[a],
        );
    let b = choose|b: int|
        0 <= b < of.len() && (b == 0 || of[b].metrics_ok) && most(of, all_memory()) == all_memory()(
            #[trigger] of[b],
        );
    lemma_cores_belong(rows, key);
    lemma_row_of(rows, key, a);
    lemma_row_of(rows, key, b);
}

proof fn lemma_row_of(rows: Seq<DevView>, key: (Seq<char>, i64), k: int)
    requires
        0 <= k < cores_of(rows, key).len(),
    ensures
        exists|j: int|
            0 <= j < rows.len() && #[trigger] rows[j] == cores_of(rows, key)[k] && rows[j].key() == key,
    decreases rows.len(),
{
    let of = cores_of(rows, key);
    lemma_cores_belong(rows, key);
    reveal(Seq::filter);
    if rows.len() > 0 {
        let rest = rows.drop_last();
        crate::rows::lemma_cores_push(rest, rows.last(), key);
        assert(rest.push(rows.last()) =~= rows);
        if k < cores_of(rest, key).len() {
            lemma_row_of(rest, key, k);
            let j = choose|j: int|
                0 <= j < rest.len() && #[trigger] rest[j] == cores_of(rest, key)[k];
            assert(rows[j] == of[k]);
        } else {
            assert(rows[rows.len() - 1] == of[k]);
        }
    }
}

/// Chips stand in the order in which their first cores do.
pub proof fn law_chips_keep_their_order(rows: Seq<DevView>, c: int, d: int, j: int)
    requires
        0 <= c < d < chips_of(rows).len(),
        0 <= j < rows.len(),
        is_of(rows[j], chips_of(rows)[d]),
    ensures
        exists|i: int| 0 <= i < j && is_of(#[trigger] rows[i], chips_of(rows)[c]),
    decreases rows.len(),
{
    let rest = rows.drop_last();
    let r = rows.last();
    let before = chips_of(rest);
    let after = chips_of(rows);
    assert(rest.push(r) =~= rows);
    law_one_more_core(rest, r, c);
    law_one_more_core(rest, r, d);
    lemma_keys(rest);
    lemma_keys(rows);
    if d < before.len() {
        assert(before[d].host == after[d].host && before[d].chip == after[d].chip);
        assert(before[c].host == after[c].host && before[c].chip == after[c].chip);
        if j < rest.len() {
            assert(rest[j] == rows[j]);
            law_chips_keep_their_order(rest, c, d, j);
            let i = choose|i: int| 0 <= i < j && is_of(#[trigger] rest[i], before[c]);
            assert(rows[i] == rest[i]);
        } else {
            let of = cores_of(rest, keys_of(rest)[c]);
            assert(of[0].key() == keys_of(rest)[c]);
            lemma_row_of(rest, keys_of(rest)[c], 0);
            let i = choose|i: int| 0 <= i < rest.len() && #[trigger] rest[i] == of[0];
            assert(rows[i] == rest[i]);
            assert(is_of(rows[i], after[c]));
        }
    } else {
        assert(c < before.len()) by {
            lemma_chips_push(rest, r);
            if keys_of(rest).contains(r.key()) {
                let at = choose|at: int| 0 <= at < keys_of(rest).len() && keys_of(rest)[at] == r.key();
                assert(after.len() == before.len());
            } else {
                assert(after.len() == before.len() + 1);
            }
        }
        assert(before[c].host == after[c].host && before[c].chip == after[c].chip);
        let of = cores_of(rest, keys_of(rest)[c]);
        assert(of[0].key() == keys_of(rest)[c]);
        lemma_row_of(rest, keys_of(rest)[c], 0);
        let i = choose|i: int| 0 <= i < rest.len() && #[trigger] rest[i] == of[0];
        assert(rows[i] == rest[i]);
        assert(is_of(rows[i], after[c]));
        if j < rest.len() {
            assert(rest[j] == rows[j]);
            assert(keys_of(rest).contains(rest[j].key()));
            let k = choose|k: int| 0 <= k < keys_of(rest).len() && keys_of(rest)[k] == rest[j].key();
            assert(cores_of(rest, keys_of(rest)[k])[0].key() == keys_of(rest)[k]);
            law_one_more_core(rest, r, k);
            crate::rows::law_chips_are_listed_once(rows, k, d);
        }
    }
}

} // verus!
