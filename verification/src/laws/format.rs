//! Laws of how quantities are shown.
use vstd::prelude::*;

use crate::format::{
    blocks_full, clock_text, full_blocks, gib_text, load_tint, mem_text, minutes_text, ratio_tint,
    short_uptime_text, uptime_text, Tint,
};
use crate::laws::reading::{law_rounding, law_whole_readings_are_ordered};
use crate::number::{decimal, two_digits};
use crate::reading::{
    law_small_counts_are_exact, lemma_count_bits, lemma_top_unique, lemma_two_to, nearest, rounded,
    two_to, whole_reading, Reading, EXPONENT_UNIT,
};

verus! {

/// Hours, minutes and seconds are shown as such: an uptime in its two largest units, in the
/// snapshot without seconds, and CPU time as a clock.
pub proof fn law_durations_show_their_parts(h: nat, m: nat, s: nat)
    requires
        m < 60,
        s < 60,
    ensures
        ({
            let secs = h * 3600 + m * 60 + s;
            &&& h > 0 ==> uptime_text(secs) == decimal(h) + "h"@ + decimal(m) + "m"@
            &&& h == 0 ==> uptime_text(secs) == decimal(m) + "m"@ + decimal(s) + "s"@
            &&& h > 0 ==> short_uptime_text(secs) == decimal(h) + "h"@ + decimal(m) + "m"@
            &&& h == 0 ==> short_uptime_text(secs) == decimal(m) + "m"@
            &&& h > 0 ==> clock_text(secs) == decimal(h) + ":"@ + two_digits(m) + ":"@ + two_digits(
                s,
            )
            &&& h == 0 ==> clock_text(secs) == decimal(m) + ":"@ + two_digits(s)
            &&& minutes_text(secs) == decimal((h * 60 + m) as nat) + ":"@ + two_digits(s)
        }),
{
    let secs = h * 3600 + m * 60 + s;
    assert(secs / 3600 == h && (secs % 3600) / 60 == m && secs % 60 == s && secs / 60 == h * 60 + m);
}

/// Memory below a gibibyte is shown in mebibytes, to the nearest whole one, and more of it in
/// gibibytes, to the nearest tenth; of two that are equally near, the even one.
pub proof fn law_memory_is_shown_to_the_nearest(kb: u64) -> (shown: nat)
    requires
        kb <= 0x20_0000_0000_0000,
    ensures
        kb < 0x10_0000 ==> mem_text(kb as nat) == decimal(shown) + "M"@ && is_nearest(
            shown,
            kb as nat,
            1024,
        ),
        kb >= 0x10_0000 ==> mem_text(kb as nat) == decimal(shown / 10) + "."@ + decimal(shown % 10)
            + "G"@ && is_nearest(shown, 10 * kb as nat, 0x10_0000),
{
    law_small_counts_are_exact(kb);
    if kb < 0x10_0000 {
        law_rounding(kb as nat, 1024);
        rounded(kb as nat, 1024)
    } else {
        law_rounding((kb * 10) as nat, 0x10_0000);
        rounded((kb * 10) as nat, 0x10_0000)
    }
}

/// Whether `r` is a whole number nearest to `n / d`, and the even one of two.
pub open spec fn is_nearest(r: nat, n: nat, d: nat) -> bool {
    &&& 2 * (d * r) <= 2 * n + d
    &&& 2 * n <= 2 * (d * r) + d
    &&& 2 * (d * r) == 2 * n + d || 2 * n == 2 * (d * r) + d ==> r % 2 == 0
}

/// Bytes are shown in gibibytes, to the nearest whole one; of two that are equally near, the
/// even one.
pub proof fn law_gibibytes_are_shown_to_the_nearest(bytes: u64) -> (shown: nat)
    requires
        bytes <= 0x20_0000_0000_0000,
    ensures
        gib_text(bytes as nat) == decimal(shown),
        is_nearest(shown, bytes as nat, 0x4000_0000),
{
    law_small_counts_are_exact(bytes);
    law_rounding(bytes as nat, 0x4000_0000);
    rounded(bytes as nat, 0x4000_0000)
}

/// Amounts that a double cannot hold are shown as the nearest double is.
pub proof fn law_large_amounts_are_taken_to_doubles(n: u64) -> (shown: (nat, nat))
    ensures
        gib_text(n as nat) == decimal(shown.0),
        is_nearest(shown.0, nearest(n as nat), 0x4000_0000),
        nearest(n as nat) >= 0x10_0000 ==> mem_text(n as nat) == decimal(shown.1 / 10) + "."@
            + decimal(shown.1 % 10) + "G"@ && is_nearest(
            shown.1,
            10 * nearest(n as nat),
            0x10_0000,
        ),
{
    let v = nearest(n as nat);
    law_rounding(v, 0x4000_0000);
    law_rounding(v * 10, 0x10_0000);
    (rounded(v, 0x4000_0000), rounded(v * 10, 0x10_0000))
}

/// The blocks fill up one by one, at a sixteenth of a hundred percent and then after every
/// eighth, each from exactly there on.
pub proof fn law_blocks_fill_up_in_turn(pct: Reading)
    ensures
        full_blocks(pct) >= 1 <==> !pct.is_nan() && !pct.is_below(
            (Reading { bits: 0x4019_0000_0000_0000 }),
        ),
        full_blocks(pct) >= 2 <==> !pct.is_nan() && !pct.is_below(
            (Reading { bits: 0x4032_c000_0000_0000 }),
        ),
        full_blocks(pct) >= 3 <==> !pct.is_nan() && !pct.is_below(
            (Reading { bits: 0x403f_4000_0000_0000 }),
        ),
        full_blocks(pct) >= 4 <==> !pct.is_nan() && !pct.is_below(
            (Reading { bits: 0x4045_e000_0000_0000 }),
        ),
        full_blocks(pct) >= 5 <==> !pct.is_nan() && !pct.is_below(
            (Reading { bits: 0x404c_2000_0000_0000 }),
        ),
        full_blocks(pct) >= 6 <==> !pct.is_nan() && !pct.is_below(
            (Reading { bits: 0x4051_3000_0000_0000 }),
        ),
        full_blocks(pct) >= 7 <==> !pct.is_nan() && !pct.is_below(
            (Reading { bits: 0x4054_5000_0000_0000 }),
        ),
        full_blocks(pct) >= 8 <==> !pct.is_nan() && !pct.is_below(
            (Reading { bits: 0x4057_7000_0000_0000 }),
        ),
        full_blocks(pct) <= 8,
{
    reveal_with_fuel(blocks_full, 9);
}

/// A load in percent is green below 40, yellow from there to below 75, and red from there on;
/// red too where it is not a number.
pub proof fn law_loads_are_coloured(r: Reading)
    ensures
        load_tint(r) == Tint::Green <==> r.is_below(whole_reading(40)),
        load_tint(r) == Tint::Yellow <==> !r.is_nan() && !r.is_below(whole_reading(40))
            && r.is_below(whole_reading(75)),
        load_tint(r) == Tint::Red <==> r.is_nan() || !r.is_below(whole_reading(75)),
        ratio_tint(r) == Tint::Green <==> r.is_below((Reading { bits: 0x3fd9_9999_9999_9999 })),
        ratio_tint(r) == Tint::Red <==> !r.is_below((Reading { bits: 0x3fe8_0000_0000_0000 })),
        ratio_tint(r) == Tint::Green || ratio_tint(r) == Tint::Yellow || ratio_tint(r) == Tint::Red,
{
    law_whole_readings_are_ordered(40, 75);
    law_whole_readings_are_ordered(0, 40);
}

/// The colours that the terminal does not define are those of the palette, and no two of
/// them are the same.
pub proof fn law_colours(t: Tint, other: Tint)
    ensures
        t.mix() == match t {
            Tint::Accent => Some((0x7au8, 0xa2u8, 0xf7u8)),
            Tint::Dim => Some((0x56u8, 0x5fu8, 0x89u8)),
            Tint::Green => Some((0x9eu8, 0xceu8, 0x6au8)),
            Tint::Yellow => Some((0xe0u8, 0xafu8, 0x68u8)),
            Tint::Red => Some((0xf7u8, 0x76u8, 0x8eu8)),
            Tint::Stripe => Some((0x1bu8, 0x1du8, 0x2bu8)),
            _ => None,
        },
        t != other && t.mix() is Some ==> t.mix() != other.mix(),
{
}

proof fn lemma_small_bits(n: nat, t: nat)
    requires
        t <= 6,
        two_to(t) <= n < 2 * two_to(t),
    ensures
        whole_reading(n as int).bits == (t + 1022) * EXPONENT_UNIT + n * (EXPONENT_UNIT as nat
            / two_to(t)),
{
    lemma_top_unique(n, t);
    reveal_with_fuel(two_to, 8);
    lemma_two_to(t, 6);
    lemma_count_bits(n);
}

/// A whole percentage fills the nearest number of eight blocks, the larger of two.
pub proof fn law_blocks_of_whole_percentages(n: nat)
    requires
        n <= 100,
    ensures
        full_blocks(whole_reading(n as int)) == (16 * n + 100) / 200,
{
    assert(two_to(2) == 4 && two_to(3) == 8 && two_to(4) == 16 && two_to(5) == 32 && two_to(6)
        == 64) by {
        reveal_with_fuel(two_to, 8);
    }
    lemma_small_bits(6, 2);
    lemma_small_bits(7, 2);
    lemma_small_bits(18, 4);
    lemma_small_bits(19, 4);
    lemma_small_bits(31, 4);
    lemma_small_bits(32, 5);
    lemma_small_bits(43, 5);
    lemma_small_bits(44, 5);
    lemma_small_bits(56, 5);
    lemma_small_bits(57, 5);
    lemma_small_bits(68, 6);
    lemma_small_bits(69, 6);
    lemma_small_bits(81, 6);
    lemma_small_bits(82, 6);
    lemma_small_bits(93, 6);
    lemma_small_bits(94, 6);
    reveal_with_fuel(blocks_full, 9);
    lemma_between(n, 6);
    lemma_between(n, 18);
    lemma_between(n, 31);
    lemma_between(n, 43);
    lemma_between(n, 56);
    lemma_between(n, 68);
    lemma_between(n, 81);
    lemma_between(n, 93);
}

proof fn lemma_between(n: nat, k: nat)
    requires
        n <= 100,
        k <= 100,
    ensures
        !whole_reading(n as int).is_nan(),
        n <= k ==> whole_reading(n as int).place() <= whole_reading(k as int).place(),
        n > k ==> whole_reading(n as int).place() >= whole_reading(k as int + 1).place(),
{
    lemma_count_bits(n);
    if n < k {
        law_whole_readings_are_ordered(n as int, k as int);
    } else if n > k + 1 {
        law_whole_readings_are_ordered(k as int + 1, n as int);
    }
    if n < 100 {
        law_whole_readings_are_ordered(n as int, 100);
    } else {
        law_whole_readings_are_ordered(0, 100);
    }
}

} // verus!
