//! How quantities are shown: durations, sizes, bars and colours.
use vstd::prelude::*;

use crate::number::{decimal, show, show_two, two_digits};
use crate::reading::{
    count_bits, lemma_zero, nearest, nearest_whole, round_ratio, rounded, significand, top, two_to,
    whole_reading, Reading, EXPONENT_UNIT,
};

verus! {

/// Kibibytes in a gibibyte.
pub const KIB_PER_GIB: u64 = 0x10_0000;

/// Bytes in a gibibyte.
pub const GIB: u64 = 0x4000_0000;

/// The colour of a piece of text or of its background.
#[derive(Clone, Copy, PartialEq, Eq, Structural, Debug)]
pub enum Tint {
    /// What stands out.
    Accent,
    /// What stays in the background.
    Dim,
    /// Low load, and health.
    Green,
    /// Medium load.
    Yellow,
    /// High load, and faults.
    Red,
    /// The background of every second table row and of gauges.
    Stripe,
    /// The terminal's gray.
    Gray,
    /// The terminal's white.
    White,
    /// The terminal's own colour.
    Plain,
}

impl Tint {
    /// Red, green and blue of the colours that the terminal does not define.
    pub open spec fn mix(self) -> Option<(u8, u8, u8)> {
        match self {
            Tint::Accent => Some((0x7a, 0xa2, 0xf7)),
            Tint::Dim => Some((0x56, 0x5f, 0x89)),
            Tint::Green => Some((0x9e, 0xce, 0x6a)),
            Tint::Yellow => Some((0xe0, 0xaf, 0x68)),
            Tint::Red => Some((0xf7, 0x76, 0x8e)),
            Tint::Stripe => Some((0x1b, 0x1d, 0x2b)),
            Tint::Gray | Tint::White | Tint::Plain => None,
        }
    }

    /// Red, green and blue of the colours that the terminal does not define.
    pub fn rgb(self) -> (r: Option<(u8, u8, u8)>)
        ensures
            r == self.mix(),
    {
        match self {
            Tint::Accent => Some((0x7a, 0xa2, 0xf7)),
            Tint::Dim => Some((0x56, 0x5f, 0x89)),
            Tint::Green => Some((0x9e, 0xce, 0x6a)),
            Tint::Yellow => Some((0xe0, 0xaf, 0x68)),
            Tint::Red => Some((0xf7, 0x76, 0x8e)),
            Tint::Stripe => Some((0x1b, 0x1d, 0x2b)),
            Tint::Gray | Tint::White | Tint::Plain => None,
        }
    }
}

/// Hours and minutes, or minutes and seconds for less than an hour.
pub open spec fn uptime_text(secs: nat) -> Seq<char> {
    let h = secs / 3600;
    let m = (secs % 3600) / 60;
    if h > 0 {
        decimal(h) + "h"@ + decimal(m) + "m"@
    } else {
        decimal(m) + "m"@ + decimal(secs % 60) + "s"@
    }
}

/// Hours and minutes, or minutes alone for less than an hour.
pub open spec fn short_uptime_text(secs: nat) -> Seq<char> {
    if secs >= 3600 {
        decimal(secs / 3600) + "h"@ + decimal((secs % 3600) / 60) + "m"@
    } else {
        decimal(secs / 60) + "m"@
    }
}

/// Hours, minutes and seconds, or minutes and seconds for less than an hour.
pub open spec fn clock_text(secs: nat) -> Seq<char> {
    let h = secs / 3600;
    let m = (secs % 3600) / 60;
    let s = secs % 60;
    if h > 0 {
        decimal(h) + ":"@ + two_digits(m) + ":"@ + two_digits(s)
    } else {
        decimal(m) + ":"@ + two_digits(s)
    }
}

/// Minutes and seconds.
pub open spec fn minutes_text(secs: nat) -> Seq<char> {
    decimal(secs / 60) + ":"@ + two_digits(secs % 60)
}

/// Gibibytes with one decimal, or whole mebibytes for less than a gibibyte; `kb` is
/// first taken to the nearest double, and both roundings go to the nearest, to the
/// even one of two that are equally near.
pub open spec fn mem_text(kb: nat) -> Seq<char> {
    let v = nearest(kb);
    if v >= KIB_PER_GIB {
        let tenths = rounded(v * 10, KIB_PER_GIB as nat);
        decimal(tenths / 10) + "."@ + decimal(tenths % 10) + "G"@
    } else {
        decimal(rounded(v, 1024)) + "M"@
    }
}

/// Whole gibibytes; `bytes` is first taken to the nearest double, and both roundings go
/// to the nearest, to the even one of two that are equally near.
pub open spec fn gib_text(bytes: nat) -> Seq<char> {
    decimal(rounded(nearest(bytes), GIB as nat))
}

/// A bar of `width` blocks, the first `filled` of them full.
pub open spec fn bar_text(filled: nat, width: nat) -> Seq<char> {
    Seq::new(
        width,
        |i: int|
            if i < filled {
                '█'
            } else {
                '░'
            },
    )
}

/// Blocks in the bar of a chip's memory.
pub const BAR_WIDTH: usize = 8;

/// The percentage from which the first `k` blocks of eight are full, which is half a block
/// before they are reached: 6.25, 18.75, 31.25, 43.75, 56.25, 68.75, 81.25 and 93.75.
pub open spec fn block_mark(k: nat) -> Reading {
    Reading {
        bits: if k <= 1 {
            0x4019_0000_0000_0000
        } else if k == 2 {
            0x4032_c000_0000_0000
        } else if k == 3 {
            0x403f_4000_0000_0000
        } else if k == 4 {
            0x4045_e000_0000_0000
        } else if k == 5 {
            0x404c_2000_0000_0000
        } else if k == 6 {
            0x4051_3000_0000_0000
        } else if k == 7 {
            0x4054_5000_0000_0000
        } else {
            0x4057_7000_0000_0000
        },
    }
}

/// How many of the first `n` blocks of eight are full.
pub open spec fn blocks_full(pct: Reading, n: nat) -> nat
    decreases n,
{
    if n == 0 {
        0
    } else if pct.is_nan() || pct.is_below(block_mark(n)) {
        blocks_full(pct, (n - 1) as nat)
    } else {
        n
    }
}

/// How many of the eight blocks of a bar a percentage fills, to the nearest block.
pub open spec fn full_blocks(pct: Reading) -> nat {
    blocks_full(pct, BAR_WIDTH as nat)
}

/// A bar has its width, with the full blocks before the empty ones. It does not shrink as
/// the percentage grows, is empty for what is not a number or not above zero, and full from
/// a hundred percent on.
pub proof fn law_bars_grow(p: Reading, q: Reading)
    ensures
        bar_text(full_blocks(p), 8).len() == 8,
        full_blocks(p) <= 8,
        forall|i: int|
            0 <= i < 8 ==> #[trigger] bar_text(full_blocks(p), 8)[i] == if i < full_blocks(p) {
                '█'
            } else {
                '░'
            },
        !p.is_nan() && !q.is_nan() && !q.is_below(p) ==> full_blocks(p) <= full_blocks(q),
        p.is_nan() ==> full_blocks(p) == 0,
        !whole_reading(0).is_below(p) ==> full_blocks(p) == 0,
        !p.is_nan() && !p.is_below(whole_reading(100)) ==> full_blocks(p) == 8,
{
    lemma_zero();
    reveal_with_fuel(blocks_full, 9);
    assert(whole_reading(100).bits == 0x4059_0000_0000_0000) by {
        reveal_with_fuel(top, 8);
        reveal_with_fuel(two_to, 8);
        assert(top(100) == 6 && two_to(6) == 64);
        assert(significand(100) == 100 * (EXPONENT_UNIT as nat / 64));
        assert(count_bits(100) == 1028 * EXPONENT_UNIT as nat + significand(100));
    }
}

/// The bit pattern of the smallest double whose hundredfold, in double precision, is not
/// below 40; it lies one step below two fifths.
pub const GREEN_LIMIT: u64 = 0x3fd9_9999_9999_9999;

/// The bit pattern of the smallest double whose hundredfold, in double precision, is not
/// below 75: three quarters.
pub const YELLOW_LIMIT: u64 = 0x3fe8_0000_0000_0000;

/// The colour of a load from zero to one: that of its hundredfold as a percentage.
pub open spec fn ratio_tint(ratio: Reading) -> Tint {
    if ratio.is_below((Reading { bits: GREEN_LIMIT })) {
        Tint::Green
    } else if ratio.is_below((Reading { bits: YELLOW_LIMIT })) {
        Tint::Yellow
    } else {
        Tint::Red
    }
}

/// The colour of a load in percent: green below 40, yellow below 75, red otherwise.
pub open spec fn load_tint(pct: Reading) -> Tint {
    if pct.is_below(whole_reading(40)) {
        Tint::Green
    } else if pct.is_below(whole_reading(75)) {
        Tint::Yellow
    } else {
        Tint::Red
    }
}

/// How long the runtime has been up, for the live view.
pub fn fmt_uptime(secs: Reading) -> (r: String)
    ensures
        r@ == uptime_text(secs.truncated() as nat),
{
    let s: u64 = secs.trunc();
    let h: u64 = s / 3600;
    let m: u64 = (s % 3600) / 60;
    if h > 0 {
        let mut out = show(h);
        out.append("h");
        out.append(show(m).as_str());
        out.append("m");
        out
    } else {
        let mut out = show(m);
        out.append("m");
        out.append(show(s % 60).as_str());
        out.append("s");
        out
    }
}

/// How long the runtime has been up, for the snapshot.
pub fn fmt_short_uptime(secs: Reading) -> (r: String)
    ensures
        r@ == short_uptime_text(secs.truncated() as nat),
{
    let s: u64 = secs.trunc();
    if s >= 3600 {
        let mut out = show(s / 3600);
        out.append("h");
        out.append(show((s % 3600) / 60).as_str());
        out.append("m");
        out
    } else {
        let mut out = show(s / 60);
        out.append("m");
        out
    }
}

/// A process's CPU time, for the live view.
pub fn fmt_time(secs: u64) -> (r: String)
    ensures
        r@ == clock_text(secs as nat),
{
    let h: u64 = secs / 3600;
    let m: u64 = (secs % 3600) / 60;
    let s: u64 = secs % 60;
    if h > 0 {
        let mut out = show(h);
        out.append(":");
        out.append(show_two(m).as_str());
        out.append(":");
        out.append(show_two(s).as_str());
        out
    } else {
        let mut out = show(m);
        out.append(":");
        out.append(show_two(s).as_str());
        out
    }
}

/// A process's CPU time, for the snapshot.
pub fn fmt_minutes(secs: u64) -> (r: String)
    ensures
        r@ == minutes_text(secs as nat),
{
    let mut out = show(secs / 60);
    out.append(":");
    out.append(show_two(secs % 60).as_str());
    out
}

/// An amount of memory given in kibibytes.
pub fn fmt_mem(kb: u64) -> (r: String)
    ensures
        r@ == mem_text(kb as nat),
{
    let v: u128 = nearest_whole(kb);
    if v >= KIB_PER_GIB as u128 {
        let tenths: u128 = round_ratio(v * 10, KIB_PER_GIB as u128);
        assert(tenths <= u64::MAX);
        let mut out = show((tenths / 10) as u64);
        out.append(".");
        out.append(show((tenths % 10) as u64).as_str());
        out.append("G");
        out
    } else {
        let mut out = show(round_ratio(v, 1024) as u64);
        out.append("M");
        out
    }
}

/// An amount of memory given in bytes, in whole gibibytes.
pub fn fmt_gib(bytes: u64) -> (r: String)
    ensures
        r@ == gib_text(bytes as nat),
{
    show(round_ratio(nearest_whole(bytes), GIB as u128) as u64)
}

/// A bar of `width` blocks, at most `filled` of them full.
pub fn bar(filled: usize, width: usize) -> (r: String)
    ensures
        r@ == bar_text(filled as nat, width as nat),
{
    let mut out = String::new();
    let mut i: usize = 0;
    while i < width
        invariant
            i <= width,
            out@ == bar_text(filled as nat, i as nat),
        decreases width - i,
    {
        if i < filled {
            out.push('█');
        } else {
            out.push('░');
        }
        i = i + 1;
        assert(out@ =~= bar_text(filled as nat, i as nat));
    }
    out
}

fn mark(k: usize) -> (r: Reading)
    ensures
        r == block_mark(k as nat),
{
    Reading {
        bits: if k <= 1 {
            0x4019_0000_0000_0000
        } else if k == 2 {
            0x4032_c000_0000_0000
        } else if k == 3 {
            0x403f_4000_0000_0000
        } else if k == 4 {
            0x4045_e000_0000_0000
        } else if k == 5 {
            0x404c_2000_0000_0000
        } else if k == 6 {
            0x4051_3000_0000_0000
        } else if k == 7 {
            0x4054_5000_0000_0000
        } else {
            0x4057_7000_0000_0000
        },
    }
}

/// How many of the eight blocks of a bar a percentage fills, to the nearest block.
pub fn bar_blocks(pct: Reading) -> (r: usize)
    ensures
        r == full_blocks(pct),
        r <= BAR_WIDTH,
{
    let mut n: usize = BAR_WIDTH;
    while n > 0 && (pct.not_a_number() || pct.below(mark(n)))
        invariant
            n <= BAR_WIDTH,
            full_blocks(pct) == blocks_full(pct, n as nat),
        decreases n,
    {
        n = n - 1;
    }
    n
}

/// The colour of a load from zero to one.
pub fn ratio_color(ratio: Reading) -> (r: Tint)
    ensures
        r == ratio_tint(ratio),
{
    if ratio.below(Reading { bits: GREEN_LIMIT }) {
        Tint::Green
    } else if ratio.below(Reading { bits: YELLOW_LIMIT }) {
        Tint::Yellow
    } else {
        Tint::Red
    }
}

/// The colour of a load in percent.
pub fn util_color(pct: Reading) -> (r: Tint)
    ensures
        r == load_tint(pct),
{
    if pct.below(Reading::from_count(40)) {
        Tint::Green
    } else if pct.below(Reading::from_count(75)) {
        Tint::Yellow
    } else {
        Tint::Red
    }
}

} // verus!
