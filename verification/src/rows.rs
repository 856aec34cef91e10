//! The rows of the device table: one per core, and those of a chip taken together.
use vstd::prelude::*;

use crate::reading::Reading;
use crate::text::same;

verus! {

/// A core of some host.
pub struct DevRow {
    pub host: String,
    /// The core's number on its host.
    pub dev: i64,
    /// The number of its chip on that host.
    pub chip: i64,
    /// The process that holds it, `-` where none is known.
    pub pid: String,
    /// Memory in bytes.
    pub used: Reading,
    pub total: Reading,
    /// Its duty cycle in percent.
    pub duty: Reading,
    /// Whether the figures were measured.
    pub metrics_ok: bool,
}

/// The contents of a `DevRow`.
#[verifier::ext_equal]
pub struct DevView {
    pub host: Seq<char>,
    pub dev: i64,
    pub chip: i64,
    pub pid: Seq<char>,
    pub used: Reading,
    pub total: Reading,
    pub duty: Reading,
    pub metrics_ok: bool,
}

impl View for DevRow {
    type V = DevView;

    open spec fn view(&self) -> DevView {
        DevView {
            host: self.host@,
            dev: self.dev,
            chip: self.chip,
            pid: self.pid@,
            used: self.used,
            total: self.total,
            duty: self.duty,
            metrics_ok: self.metrics_ok,
        }
    }
}

/// The cores of a chip together: its memory once, the duty cycle of each core.
pub struct ChipRow {
    pub host: String,
    pub chip: i64,
    pub pid: String,
    pub used: Reading,
    pub total: Reading,
    pub metrics_ok: bool,
    /// The number and the duty cycle of each core.
    pub cores: Vec<(i64, Reading)>,
}

/// The contents of a `ChipRow`.
#[verifier::ext_equal]
pub struct ChipView {
    pub host: Seq<char>,
    pub chip: i64,
    pub pid: Seq<char>,
    pub used: Reading,
    pub total: Reading,
    pub metrics_ok: bool,
    pub cores: Seq<(i64, Reading)>,
}

impl View for ChipRow {
    type V = ChipView;

    open spec fn view(&self) -> ChipView {
        ChipView {
            host: self.host@,
            chip: self.chip,
            pid: self.pid@,
            used: self.used,
            total: self.total,
            metrics_ok: self.metrics_ok,
            cores: self.cores@,
        }
    }
}

/// The contents of a list of rows.
pub open spec fn row_views(rows: Seq<DevRow>) -> Seq<DevView> {
    rows.map_values(|r: DevRow| r@)
}

/// The contents of a list of chips.
pub open spec fn chip_views(chips: Seq<ChipRow>) -> Seq<ChipView> {
    chips.map_values(|c: ChipRow| c@)
}

impl DevView {
    /// The chip that a core belongs to: its host and its number there.
    pub open spec fn key(self) -> (Seq<char>, i64) {
        (self.host, self.chip)
    }
}

/// The chips that the rows belong to, in the order in which they first occur.
pub open spec fn keys_of(rows: Seq<DevView>) -> Seq<(Seq<char>, i64)>
    decreases rows.len(),
{
    if rows.len() == 0 {
        Seq::empty()
    } else {
        let before = keys_of(rows.drop_last());
        if before.contains(rows.last().key()) {
            before
        } else {
            before.push(rows.last().key())
        }
    }
}

/// The test for belonging to a chip.
pub open spec fn belongs(key: (Seq<char>, i64)) -> spec_fn(DevView) -> bool {
    |r: DevView| r.key() == key
}

/// The rows of a chip, in their order.
pub open spec fn cores_of(rows: Seq<DevView>, key: (Seq<char>, i64)) -> Seq<DevView> {
    rows.filter(belongs(key))
}

/// The process that holds a chip: the first one that is known to hold one of its cores.
pub open spec fn first_pid(rows: Seq<DevView>) -> Seq<char>
    recommends
        rows.len() > 0,
    decreases rows.len(),
{
    if rows.len() <= 1 || rows.first().pid != "-"@ {
        rows.first().pid
    } else {
        first_pid(rows.drop_first())
    }
}

/// The largest of the values that were measured. What the first row says counts in any
/// case.
pub open spec fn most(rows: Seq<DevView>, value: spec_fn(DevView) -> Reading) -> Reading
    recommends
        rows.len() > 0,
    decreases rows.len(),
{
    if rows.len() <= 1 {
        value(rows.first())
    } else {
        let before = most(rows.drop_last(), value);
        if rows.last().metrics_ok {
            before.larger(value(rows.last()))
        } else {
            before
        }
    }
}

/// The memory in use that a row shows.
pub open spec fn used_memory() -> spec_fn(DevView) -> Reading {
    |r: DevView| r.used
}

/// The memory that a row shows.
pub open spec fn all_memory() -> spec_fn(DevView) -> Reading {
    |r: DevView| r.total
}

/// The number and the duty cycle of a core.
pub open spec fn core_duty() -> spec_fn(DevView) -> (i64, Reading) {
    |r: DevView| (r.dev, r.duty)
}

/// The rows of one chip taken together.
pub open spec fn chip_of(rows: Seq<DevView>) -> ChipView
    recommends
        rows.len() > 0,
{
    ChipView {
        host: rows.first().host,
        chip: rows.first().chip,
        pid: first_pid(rows),
        used: most(rows, used_memory()),
        total: most(rows, all_memory()),
        metrics_ok: exists|i: int| 0 <= i < rows.len() && (#[trigger] rows[i]).metrics_ok,
        cores: rows.map_values(core_duty()),
    }
}

/// The chips of the rows, in the order in which they first occur.
pub open spec fn chips_of(rows: Seq<DevView>) -> Seq<ChipView> {
    Seq::new(keys_of(rows).len(), |i: int| chip_of(cores_of(rows, keys_of(rows)[i])))
}

pub proof fn lemma_keys(rows: Seq<DevView>)
    ensures
        keys_of(rows).no_duplicates(),
        forall|i: int|
            0 <= i < keys_of(rows).len() ==> {
                let of = cores_of(rows, #[trigger] keys_of(rows)[i]);
                of.len() > 0 && of[0].key() == keys_of(rows)[i]
            },
        forall|i: int| 0 <= i < rows.len() ==> keys_of(rows).contains((#[trigger] rows[i]).key()),
    decreases rows.len(),
{
    if rows.len() > 0 {
        let rest = rows.drop_last();
        let last = rows.last();
        let keys = keys_of(rows);
        lemma_keys(rest);
        assert forall|i: int| 0 <= i < keys.len() implies {
            let of = cores_of(rows, #[trigger] keys[i]);
            of.len() > 0 && of[0].key() == keys[i]
        } by {
            lemma_cores_push(rest, last, keys[i]);
            assert(rest.push(last) =~= rows);
            if i < keys_of(rest).len() {
                assert(keys[i] == keys_of(rest)[i]);
            } else {
                lemma_cores_belong(rest, keys[i]);
            }
        }
        assert forall|i: int| 0 <= i < rows.len() implies keys.contains((#[trigger] rows[i]).key()) by {
            if i < rest.len() {
                assert(rest[i] == rows[i]);
                let k = choose|k: int|
                    0 <= k < keys_of(rest).len() && keys_of(rest)[k] == rows[i].key();
                assert(keys[k] == rows[i].key());
            } else if !keys_of(rest).contains(last.key()) {
                assert(keys[keys.len() - 1] == last.key());
            }
        }
    }
}

pub proof fn lemma_cores_push(rows: Seq<DevView>, r: DevView, key: (Seq<char>, i64))
    ensures
        cores_of(rows.push(r), key) == if r.key() == key {
            cores_of(rows, key).push(r)
        } else {
            cores_of(rows, key)
        },
{
    reveal(Seq::filter);
    assert(rows.push(r).drop_last() =~= rows);
}

pub proof fn lemma_cores_belong(rows: Seq<DevView>, key: (Seq<char>, i64))
    ensures
        forall|i: int|
            0 <= i < cores_of(rows, key).len() ==> (#[trigger] cores_of(rows, key)[i]).key() == key,
    decreases rows.len(),
{
    if rows.len() > 0 {
        lemma_cores_belong(rows.drop_last(), key);
        lemma_cores_push(rows.drop_last(), rows.last(), key);
        assert(rows.drop_last().push(rows.last()) =~= rows);
    } else {
        reveal(Seq::filter);
    }
}

proof fn lemma_first_pid_push(rows: Seq<DevView>, r: DevView)
    requires
        rows.len() > 0,
    ensures
        first_pid(rows.push(r)) == if first_pid(rows) == "-"@ {
            r.pid
        } else {
            first_pid(rows)
        },
    decreases rows.len(),
{
    let all = rows.push(r);
    assert(all.first() == rows.first());
    if rows.first().pid == "-"@ {
        if rows.len() == 1 {
            assert(all.drop_first() =~= seq![r]);
            assert(first_pid(seq![r]) == r.pid);
        } else {
            lemma_first_pid_push(rows.drop_first(), r);
            assert(all.drop_first() =~= rows.drop_first().push(r));
        }
    }
}

pub proof fn lemma_chip_push(rows: Seq<DevView>, r: DevView)
    requires
        rows.len() > 0,
    ensures
        ({
            let before = chip_of(rows);
            chip_of(rows.push(r)) == (ChipView {
                host: before.host,
                chip: before.chip,
                pid: if before.pid == "-"@ {
                    r.pid
                } else {
                    before.pid
                },
                used: if r.metrics_ok {
                    before.used.larger(r.used)
                } else {
                    before.used
                },
                total: if r.metrics_ok {
                    before.total.larger(r.total)
                } else {
                    before.total
                },
                metrics_ok: before.metrics_ok || r.metrics_ok,
                cores: before.cores.push((r.dev, r.duty)),
            })
        }),
{
    let all = rows.push(r);
    lemma_first_pid_push(rows, r);
    assert(all.drop_last() =~= rows);
    assert(all.map_values(core_duty()) =~= rows.map_values(core_duty()).push((r.dev, r.duty)));
    if r.metrics_ok {
        assert(all[rows.len() as int].metrics_ok);
    }
    if chip_of(rows).metrics_ok {
        let i = choose|i: int| 0 <= i < rows.len() && (#[trigger] rows[i]).metrics_ok;
        assert(all[i].metrics_ok);
    }
    if chip_of(all).metrics_ok {
        let i = choose|i: int| 0 <= i < all.len() && (#[trigger] all[i]).metrics_ok;
        if i < rows.len() {
            assert(rows[i].metrics_ok);
        }
    }
}

proof fn lemma_no_cores(rows: Seq<DevView>, key: (Seq<char>, i64))
    requires
        !keys_of(rows).contains(key),
    ensures
        cores_of(rows, key).len() == 0,
    decreases rows.len(),
{
    reveal(Seq::filter);
    if rows.len() > 0 {
        let rest = rows.drop_last();
        let keys = keys_of(rest);
        assert(!keys.contains(key)) by {
            if keys.contains(key) {
                let k = choose|k: int| 0 <= k < keys.len() && keys[k] == key;
                assert(keys_of(rows)[k] == key);
            }
        }
        if rows.last().key() == key {
            assert(keys_of(rows)[keys.len() as int] == key);
        }
        lemma_no_cores(rest, key);
    }
}

/// What one more row does to the list of chips.
pub proof fn lemma_chips_push(rows: Seq<DevView>, r: DevView)
    ensures
        forall|at: int|
            0 <= at < keys_of(rows).len() && #[trigger] keys_of(rows)[at] == r.key() ==> chips_of(
                rows.push(r),
            ) == chips_of(rows).update(at, chip_of(cores_of(rows, r.key()).push(r))),
        !keys_of(rows).contains(r.key()) ==> chips_of(rows.push(r)) == chips_of(rows).push(
            chip_of(seq![r]),
        ),
{
    let all = rows.push(r);
    let keys = keys_of(rows);
    assert(all.drop_last() =~= rows);
    lemma_keys(rows);
    assert forall|at: int| 0 <= at < keys.len() && #[trigger] keys[at] == r.key() implies chips_of(
        all,
    ) == chips_of(rows).update(at, chip_of(cores_of(rows, r.key()).push(r))) by {
        assert forall|k: int| 0 <= k < keys.len() implies #[trigger] chips_of(all)[k] == chips_of(
            rows,
        ).update(at, chip_of(cores_of(rows, r.key()).push(r)))[k] by {
            lemma_cores_push(rows, r, keys[k]);
        }
        assert(chips_of(all) =~= chips_of(rows).update(
            at,
            chip_of(cores_of(rows, r.key()).push(r)),
        ));
    }
    if !keys.contains(r.key()) {
        assert(keys_of(all) == keys.push(r.key()));
        lemma_no_cores(rows, r.key());
        assert(cores_of(rows, r.key()).push(r) =~= seq![r]);
        assert forall|k: int| 0 <= k <= keys.len() implies #[trigger] chips_of(all)[k] == chips_of(
            rows,
        ).push(chip_of(seq![r]))[k] by {
            lemma_cores_push(rows, r, keys_of(all)[k]);
            if k < keys.len() {
                assert(keys_of(all)[k] == keys[k]);
                assert(keys.contains(keys[k]));
            }
        }
        assert(chips_of(all) =~= chips_of(rows).push(chip_of(seq![r])));
    }
}

/// The number of cores of the chips.
pub open spec fn core_count(chips: Seq<ChipView>) -> nat
    decreases chips.len(),
{
    if chips.len() == 0 {
        0
    } else {
        core_count(chips.drop_last()) + chips.last().cores.len()
    }
}

proof fn lemma_core_count_update(chips: Seq<ChipView>, at: int, chip: ChipView)
    requires
        0 <= at < chips.len(),
    ensures
        core_count(chips.update(at, chip)) + chips[at].cores.len() == core_count(chips)
            + chip.cores.len(),
    decreases chips.len(),
{
    let changed = chips.update(at, chip);
    if at == chips.len() - 1 {
        assert(changed.drop_last() =~= chips.drop_last());
    } else {
        assert(changed.drop_last() =~= chips.drop_last().update(at, chip));
        lemma_core_count_update(chips.drop_last(), at, chip);
    }
}

/// No chip is listed twice: two of them differ in their host or in their number.
pub proof fn law_chips_are_listed_once(rows: Seq<DevView>, i: int, j: int)
    requires
        0 <= i < j < chips_of(rows).len(),
    ensures
        (chips_of(rows)[i].host, chips_of(rows)[i].chip) != (
            chips_of(rows)[j].host,
            chips_of(rows)[j].chip,
        ),
{
    lemma_keys(rows);
    let keys = keys_of(rows);
    assert(keys[i] != keys[j]);
    assert(cores_of(rows, keys[i])[0].key() == keys[i]);
    assert(cores_of(rows, keys[j])[0].key() == keys[j]);
}

/// No core is lost and none is listed twice: the chips have as many as there are rows.
pub proof fn law_chips_hold_every_core(rows: Seq<DevView>)
    ensures
        core_count(chips_of(rows)) == rows.len(),
    decreases rows.len(),
{
    if rows.len() > 0 {
        let rest = rows.drop_last();
        let r = rows.last();
        let keys = keys_of(rest);
        law_chips_hold_every_core(rest);
        lemma_chips_push(rest, r);
        lemma_keys(rest);
        assert(rest.push(r) =~= rows);
        if keys.contains(r.key()) {
            let at = choose|at: int| 0 <= at < keys.len() && keys[at] == r.key();
            let chip = chip_of(cores_of(rest, r.key()).push(r));
            lemma_core_count_update(chips_of(rest), at, chip);
        } else {
            let chip = chip_of(seq![r]);
            assert(chips_of(rest).push(chip).drop_last() =~= chips_of(rest));
        }
    }
}

/// Each row's core stands among those of its chip, with its own duty cycle.
pub proof fn law_core_stands_with_its_chip(rows: Seq<DevView>, i: int)
    requires
        0 <= i < rows.len(),
    ensures
        exists|c: int|
            0 <= c < chips_of(rows).len() && (#[trigger] chips_of(rows)[c]).host == rows[i].host
                && chips_of(rows)[c].chip == rows[i].chip && chips_of(rows)[c].cores.contains(
                (rows[i].dev, rows[i].duty),
            ),
{
    lemma_keys(rows);
    let key = rows[i].key();
    let keys = keys_of(rows);
    assert(keys.contains(key));
    let c = choose|c: int| 0 <= c < keys.len() && keys[c] == key;
    let of = cores_of(rows, key);
    rows.lemma_filter_contains(belongs(key), i);
    let k = choose|k: int| 0 <= k < of.len() && of[k] == rows[i];
    assert(chips_of(rows)[c].cores[k] == (rows[i].dev, rows[i].duty));
}

/// A chip shows one of the values of its cores, and none that counts lies above it: the
/// first row's and those that were measured. It shows no number only if none of them is
/// one.
pub proof fn law_most_is_largest(
    rows: Seq<DevView>,
    value: spec_fn(DevView) -> Reading,
)
    requires
        rows.len() > 0,
    ensures
        forall|i: int|
            0 <= i < rows.len() && (i == 0 || (#[trigger] rows[i]).metrics_ok) ==> !most(
                rows,
                value,
            ).is_below(value(rows[i])) && (most(rows, value).is_nan() ==> value(rows[i]).is_nan()),
        exists|i: int|
            0 <= i < rows.len() && (i == 0 || rows[i].metrics_ok) && most(rows, value) == value(
                #[trigger] rows[i],
            ),
    decreases rows.len(),
{
    if rows.len() > 1 {
        let rest = rows.drop_last();
        law_most_is_largest(rest, value);
        assert forall|i: int|
            0 <= i < rows.len() && (i == 0 || (#[trigger] rows[i]).metrics_ok) implies !most(
            rows,
            value,
        ).is_below(value(rows[i])) && (most(rows, value).is_nan() ==> value(rows[i]).is_nan()) by {
            if i < rest.len() {
                assert(rest[i] == rows[i]);
            }
        }
        let i = choose|i: int|
            0 <= i < rest.len() && (i == 0 || rest[i].metrics_ok) && most(rest, value) == value(
                #[trigger] rest[i],
            );
        assert(rows[i] == rest[i]);
        if most(rows, value) != most(rest, value) {
            assert(most(rows, value) == value(rows[rows.len() - 1]));
        }
    } else {
        assert(most(rows, value) == value(rows[0]));
    }
}

impl ChipRow {
    /// A chip with one core.
    fn start(r: &DevRow) -> (c: ChipRow)
        ensures
            c@ == chip_of(seq![r@]),
    {
        let mut cores: Vec<(i64, Reading)> = Vec::new();
        cores.push((r.dev, r.duty));
        proof {
            let rows = seq![r@];
            assert(rows.map_values(core_duty()) =~= seq![(r.dev, r.duty)]);
            assert(rows[0].metrics_ok == r.metrics_ok);
        }
        ChipRow {
            host: r.host.clone(),
            chip: r.chip,
            pid: r.pid.clone(),
            used: r.used,
            total: r.total,
            metrics_ok: r.metrics_ok,
            cores,
        }
    }

    /// Takes in one more core.
    fn absorb(&mut self, r: &DevRow)
        ensures
            forall|rows: Seq<DevView>|
                rows.len() > 0 && old(self)@ == chip_of(rows) ==> final(self)@ == #[trigger] chip_of(
                    rows.push(r@),
                ),
    {
        if same(self.pid.as_str(), "-") {
            self.pid = r.pid.clone();
        }
        if r.metrics_ok {
            self.metrics_ok = true;
            self.used = self.used.max(r.used);
            self.total = self.total.max(r.total);
        }
        self.cores.push((r.dev, r.duty));
        proof {
            assert forall|rows: Seq<DevView>|
                rows.len() > 0 && old(self)@ == chip_of(rows) implies self@ == #[trigger] chip_of(
                rows.push(r@),
            ) by {
                lemma_chip_push(rows, r@);
                assert(self@.cores =~= old(self)@.cores.push((r.dev, r.duty)));
            }
        }
    }
}

/// Takes the rows of each chip together, in the order in which the chips first occur.
pub fn group_by_chip(rows: &[DevRow]) -> (r: Vec<ChipRow>)
    ensures
        chip_views(r@) == chips_of(row_views(rows@)),
{
    let ghost all = row_views(rows@);
    let mut out: Vec<ChipRow> = Vec::new();
    let mut i: usize = 0;
    assert(chip_views(out@) =~= chips_of(all.take(0)));
    while i < rows.len()
        invariant
            i <= rows.len(),
            all == row_views(rows@),
            chip_views(out@) == chips_of(all.take(i as int)),
        decreases rows.len() - i,
    {
        let row = &rows[i];
        let ghost before = all.take(i as int);
        let ghost after = all.take(i + 1);
        let ghost earlier = out@;
        proof {
            assert(after =~= before.push(row@));
            assert(after.drop_last() =~= before);
            lemma_keys(before);
            assert(chip_views(out@).len() == out.len());
            assert forall|k: int| 0 <= k < out.len() implies (#[trigger] earlier[k])@
                == chip_of(cores_of(before, keys_of(before)[k])) && (
                earlier[k].host@,
                earlier[k].chip,
            ) == keys_of(before)[k] by {
                assert(chip_views(out@)[k] == chips_of(before)[k]);
            }
        }
        let mut at: usize = 0;
        while at < out.len() && !(out[at].chip == row.chip && same(
            out[at].host.as_str(),
            row.host.as_str(),
        ))
            invariant
                at <= out.len(),
                out@ == earlier,
                forall|k: int|
                    0 <= k < at ==> ((#[trigger] out@[k]).host@, out@[k].chip) != row@.key(),
            decreases out.len() - at,
        {
            at = at + 1;
        }
        if at < out.len() {
            out[at].absorb(row);
        } else {
            out.push(ChipRow::start(row));
        }
        proof {
            let keys = keys_of(before);
            let key = row@.key();
            lemma_chips_push(before, row@);
            if at < earlier.len() {
                assert(keys[at as int] == key);
                let chip = chip_of(cores_of(before, key).push(row@));
                assert(chip_views(out@) =~= chips_of(before).update(at as int, chip));
            } else {
                assert(!keys.contains(key)) by {
                    if keys.contains(key) {
                        let k = choose|k: int| 0 <= k < keys.len() && keys[k] == key;
                        assert((earlier[k].host@, earlier[k].chip) == keys[k]);
                    }
                }
                assert(chip_views(out@) =~= chips_of(before).push(chip_of(seq![row@])));
            }
        }
        i = i + 1;
    }
    assert(all.take(rows.len() as int) =~= all);
    out
}

} // verus!
