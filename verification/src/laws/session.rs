//! Laws of what the live view keeps from round to round.
use vstd::prelude::*;

use crate::reading::{law_small_counts_are_exact, whole_reading, Reading};
use crate::session::{
    after_rounds, latest, law_history_holds_latest_rounds, quits, whole_percent, HistoryView, Key,
};

verus! {

/// The latest items are the last ones, in their order, as many as asked for or all there are.
pub proof fn law_latest_items(s: Seq<u64>, n: nat)
    ensures
        latest(s, n).len() <= n,
        latest(s, n).len() == n || latest(s, n) == s,
        latest(s, n).is_suffix_of(s),
{
    assert(latest(s, n) =~= s.skip(s.len() - latest(s, n).len()));
}

/// An average is shown without its fraction, and as zero where there is none.
pub proof fn law_averages_are_whole(v: Reading, n: u64)
    ensures
        whole_percent(Some(v)) == v.truncated(),
        n <= 0x20_0000_0000_0000 ==> whole_percent(Some(whole_reading(n as int))) == n,
        whole_percent(None) == 0,
{
    if n <= 0x20_0000_0000_0000 {
        law_small_counts_are_exact(n);
    }
}

/// One more round stands last in each series, its duty cycle in one and its memory in the
/// other; of the rounds before, only the oldest is lost, and only once there are more than
/// are kept.
pub proof fn law_one_more_round(history: HistoryView, duty: u64, hbm: u64)
    requires
        history.well_formed(),
    ensures
        ({
            let after = history.with_round(duty, hbm);
            let n = history.duty.len();
            &&& history.duty.len() == history.hbm.len() && n <= 240
            &&& after.well_formed()
            &&& n < 240 ==> after.duty =~= history.duty.push(duty) && after.hbm
                =~= history.hbm.push(hbm)
            &&& n == 240 ==> after.duty =~= history.duty.drop_first().push(duty) && after.hbm
                =~= history.hbm.drop_first().push(hbm)
        }),
{
}

/// After any number of rounds the last 240 of them can be read off, oldest first.
pub proof fn law_rounds_can_be_read_off(rounds: Seq<(u64, u64)>, back: int)
    requires
        0 <= back < rounds.len(),
        back < 240,
    ensures
        ({
            let history = after_rounds(rounds);
            let n = history.duty.len();
            &&& n == history.hbm.len()
            &&& n == if rounds.len() < 240 {
                rounds.len()
            } else {
                240
            }
            &&& history.duty[n - 1 - back] == rounds[rounds.len() - 1 - back].0
            &&& history.hbm[n - 1 - back] == rounds[rounds.len() - 1 - back].1
        }),
{
    law_history_holds_latest_rounds(rounds);
}

/// The live view ends on `q`, on escape, and on `c` while the control key is held, and on
/// nothing else.
pub proof fn law_keys_that_end_the_view(key: Key, control: bool, r: bool)
    requires
        call_ensures(quits, (key, control), r),
    ensures
        key == Key::Esc ==> r,
        key == Key::Other ==> !r,
        key == Key::Char('q') ==> r,
        key == Key::Char('c') ==> r == control,
        forall|c: char| key == Key::Char(c) && c != 'q' && c != 'c' ==> !r,
{
}

} // verus!
