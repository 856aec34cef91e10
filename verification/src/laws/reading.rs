//! Laws of readings, which are doubles held by their bit pattern.
use vstd::prelude::*;

use crate::reading::{
    law_small_counts_are_exact, lemma_count_bits, lemma_fields, lemma_top, lemma_top_unique,
    lemma_two_to, lemma_two_to_52, lemma_two_to_adds, nearest, rounded, top, two_to,
    whole_quotient, whole_reading, Reading, BLOW_UP, EXPONENT_UNIT,
};

verus! {

/// What is not a number, and what is a zero, shows in the bits.
pub proof fn law_special_readings(r: Reading)
    ensures
        r.is_zero() <==> r.bits == 0 || r.bits == 0x8000_0000_0000_0000,
        r.is_nan() <==> 0x7ff0_0000_0000_0000 < r.bits < 0x8000_0000_0000_0000
            || 0xfff0_0000_0000_0000 < r.bits,
        whole_reading(0).bits == 0,
{
}

/// Of two numbers without a sign the one with the larger bits is larger, of two with a sign
/// the other one; with a sign comes before without, but for the two zeros. What is not a
/// number is not ordered.
pub proof fn law_order_of_readings(a: Reading, b: Reading)
    ensures
        a.is_nan() || b.is_nan() ==> !a.is_below(b),
        !a.is_nan() && !b.is_nan() ==> (a.is_below(b) <==> if a.bits < 0x8000_0000_0000_0000 {
            b.bits < 0x8000_0000_0000_0000 && a.bits < b.bits
        } else if b.bits < 0x8000_0000_0000_0000 {
            a.bits > 0x8000_0000_0000_0000 || b.bits > 0
        } else {
            a.bits > b.bits
        }),
{
}

/// The larger of two readings is one of them and below neither; the smaller likewise. One
/// that is not a number gives way to one that is.
pub proof fn law_larger_and_smaller(a: Reading, b: Reading)
    ensures
        a.larger(b) == a || a.larger(b) == b,
        a.smaller(b) == a || a.smaller(b) == b,
        !a.larger(b).is_below(a) && !a.larger(b).is_below(b),
        !a.is_below(a.smaller(b)) && !b.is_below(a.smaller(b)),
        a.larger(b).is_nan() ==> a.is_nan() && b.is_nan(),
        a.smaller(b).is_nan() ==> a.is_nan() && b.is_nan(),
{
}

/// A reading stays as it is between two bounds and otherwise becomes the bound that it lies
/// beyond.
pub proof fn law_within_bounds(r: Reading, low: Reading, high: Reading)
    requires
        !low.is_nan(),
        !high.is_nan(),
        !high.is_below(low),
    ensures
        !r.within(low, high).is_below(low),
        !high.is_below(r.within(low, high)),
        !r.is_below(low) && !high.is_below(r) ==> r.within(low, high) == r,
        r.is_below(low) ==> r.within(low, high) == low,
        high.is_below(r) ==> r.within(low, high) == high,
{
}

/// Rounding goes to a nearest whole number, to the even one of two.
pub proof fn law_rounding(n: nat, d: nat)
    requires
        d > 0,
    ensures
        2 * (d * rounded(n, d)) <= 2 * n + d,
        2 * n <= 2 * (d * rounded(n, d)) + d,
        2 * (d * rounded(n, d)) == 2 * n + d || 2 * n == 2 * (d * rounded(n, d)) + d ==> rounded(
            n,
            d,
        ) % 2 == 0,
{
    let q = n / d;
    let r = n % d;
    vstd::arithmetic::div_mod::lemma_fundamental_div_mod(n as int, d as int);
    vstd::arithmetic::div_mod::lemma_mod_bound(n as int, d as int);
    assert(d * (q + 1) == d * q + d) by (nonlinear_arith);
    if rounded(n, d) == q + 1 {
        assert(2 * r >= d);
    } else {
        assert(rounded(n, d) == q);
        assert(2 * r <= d);
    }
}

/// A whole number becomes a double that misses it by no more than one part in two to the
/// power of 53.
pub proof fn law_nearest_double(n: nat)
    ensures
        (nearest(n) - n) * 0x20_0000_0000_0000 <= n,
        (n - nearest(n)) * 0x20_0000_0000_0000 <= n,
{
    let unit = EXPONENT_UNIT as nat;
    let scale = two_to(top(n));
    if n > 0 && scale > unit {
        lemma_top(n);
        let step = scale / unit;
        let r = rounded(n, step);
        let t = top(n);
        lemma_two_to_52();
        assert(t >= 52) by {
            if t < 52 {
                lemma_two_to(t, 52);
            }
        }
        lemma_two_to_adds((t - 52) as nat, 52);
        assert(step == two_to((t - 52) as nat)) by (nonlinear_arith)
            requires
                step == scale / unit,
                scale == two_to((t - 52) as nat) * unit,
                unit > 0,
        ;
        lemma_two_to(0, (t - 52) as nat);
        law_rounding(n, step);
        assert(step * r == r * step) by (nonlinear_arith);
        assert(step * unit <= n);
    }
}

/// A quotient in double precision without its fraction is that of the nearest double, but for
/// one part in two to the power of 53, however large the number is.
pub proof fn law_quotients_are_close(n: u64, d: u64)
    requires
        4 <= d <= 100,
    ensures
        ({
            let v = nearest(n as nat);
            let w = whole_quotient(n as nat, d as nat);
            &&& w * d * 0x20_0000_0000_0000 <= v * 0x20_0000_0000_0001
            &&& v * 0x1f_ffff_ffff_ffff <= (w + 1) * d * 0x20_0000_0000_0000
        }),
{
    let v = nearest(n as nat);
    let d = d as nat;
    let w = whole_quotient(n as nat, d);
    if v > 0 {
        let b = BLOW_UP as nat;
        let unit = EXPONENT_UNIT as nat;
        let x = v * b;
        let q = x / d;
        let t = top(q);
        let step = two_to(t) / unit;
        let r = rounded(x, d * step);
        let whole = r * step;
        assert(x >= b && q * d <= x && q >= 2 * unit) by (nonlinear_arith)
            requires
                v >= 1,
                b == 0x1000_0000_0000_0000,
                unit == 0x10_0000_0000_0000,
                x == v * b,
                q == x / d,
                4 <= d <= 100,
        ;
        lemma_top(q);
        lemma_two_to_52();
        assert(t >= 53) by {
            if t < 53 {
                lemma_two_to(t, 52);
            }
        }
        lemma_two_to_adds((t - 52) as nat, 52);
        assert(step == two_to((t - 52) as nat)) by (nonlinear_arith)
            requires
                step == two_to(t) / unit,
                two_to(t) == two_to((t - 52) as nat) * unit,
                unit > 0,
        ;
        lemma_two_to(0, (t - 52) as nat);
        assert(step >= 1);
        assert(d * step > 0) by (nonlinear_arith)
            requires
                d >= 4,
                step >= 1,
        ;
        law_rounding(x, d * step);
        assert((d * step) * r == d * whole) by (nonlinear_arith)
            requires
                whole == r * step,
        ;
        assert((d * step) * unit <= x) by (nonlinear_arith)
            requires
                step * unit <= q,
                q * d <= x,
        ;
        assert(w == whole / b);
        assert(w * b <= whole < (w + 1) * b) by (nonlinear_arith)
            requires
                w == whole / b,
                b > 0,
        ;
        let e = d * step;
        let y = d * whole;
        assert(2 * y <= 2 * x + e && 2 * x <= 2 * y + e && e * unit <= x);
        assert(y * (2 * unit) <= x * (2 * unit + 1) && x * (2 * unit - 1) <= y * (2 * unit))
            by (nonlinear_arith)
            requires
                2 * y <= 2 * x + e,
                2 * x <= 2 * y + e,
                e * unit <= x,
        ;
        assert(d * (w * b) <= y && y <= d * ((w + 1) * b)) by (nonlinear_arith)
            requires
                y == d * whole,
                w * b <= whole < (w + 1) * b,
        ;
        assert((w * d * (2 * unit)) * b <= (v * (2 * unit + 1)) * b) by (nonlinear_arith)
            requires
                d * (w * b) <= y,
                y * (2 * unit) <= x * (2 * unit + 1),
                x == v * b,
        ;
        assert((v * (2 * unit - 1)) * b <= ((w + 1) * d * (2 * unit)) * b) by (nonlinear_arith)
            requires
                y <= d * ((w + 1) * b),
                x * (2 * unit - 1) <= y * (2 * unit),
                x == v * b,
        ;
        let (p1, p2) = (w * d * (2 * unit), v * (2 * unit + 1));
        let (p3, p4) = (v * (2 * unit - 1), (w + 1) * d * (2 * unit));
        assert(p1 <= p2 && p3 <= p4) by (nonlinear_arith)
            requires
                p1 * b <= p2 * b,
                p3 * b <= p4 * b,
                b > 0,
        ;
    }
}

/// A negative whole number has the bits of the positive one, and the sign.
pub proof fn law_negative_readings(n: nat)
    requires
        0 < n <= 0x8000_0000_0000_0000,
    ensures
        whole_reading(-n).bits == whole_reading(n as int).bits + 0x8000_0000_0000_0000,
        whole_reading(-n).truncated() == 0,
{
    lemma_count_bits(n);
}

/// From the 53rd power of two on doubles stand ever further apart, and a whole number becomes
/// the one next to it, the even one of two that are equally near.
pub proof fn law_doubles_are_tied_to_even(n: nat, t: nat) -> (k: nat)
    requires
        t >= 53,
        two_to(t) <= n < 2 * two_to(t),
    ensures
        ({
            let step = two_to((t - 52) as nat);
            &&& nearest(n) == k * step
            &&& 2 * (step * k) <= 2 * n + step
            &&& 2 * n <= 2 * (step * k) + step
            &&& 2 * (step * k) == 2 * n + step || 2 * n == 2 * (step * k) + step ==> k % 2 == 0
        }),
{
    let unit = EXPONENT_UNIT as nat;
    let step = two_to((t - 52) as nat);
    lemma_top_unique(n, t);
    lemma_two_to_52();
    lemma_two_to(53, t);
    assert(two_to(53) == 2 * two_to(52));
    lemma_two_to_adds((t - 52) as nat, 52);
    assert(two_to(t) / unit == step) by (nonlinear_arith)
        requires
            two_to(t) == step * unit,
            unit > 0,
    ;
    lemma_two_to(0, (t - 52) as nat);
    law_rounding(n, step);
    rounded(n, step)
}

spec fn scaled(r: Reading) -> nat {
    (EXPONENT_UNIT + r.fraction()) as nat * two_to((r.exponent() - 1023) as nat)
}

proof fn lemma_scaled_order(a: Reading, b: Reading)
    requires
        a.bits <= b.bits < 0x7ff0_0000_0000_0000,
        a.exponent() >= 1023,
        b.exponent() >= 1023,
    ensures
        scaled(a) <= scaled(b),
        a.bits < b.bits ==> scaled(a) < scaled(b),
{
    let unit = EXPONENT_UNIT as nat;
    let (ea, eb) = (a.exponent(), b.exponent());
    assert(a.bits == ea * unit + a.fraction() && b.bits == eb * unit + b.fraction());
    let pa = two_to((ea - 1023) as nat);
    let pb = two_to((eb - 1023) as nat);
    lemma_two_to(0, (ea - 1023) as nat);
    if ea == eb {
        assert((unit + a.fraction()) * pa <= (unit + b.fraction()) * pa && (a.fraction()
            < b.fraction() ==> (unit + a.fraction()) * pa < (unit + b.fraction()) * pa))
            by (nonlinear_arith)
            requires
                a.fraction() <= b.fraction(),
                pa >= 1,
        ;
    } else {
        lemma_two_to((ea - 1023 + 1) as nat, (eb - 1023) as nat);
        assert(two_to((ea - 1023 + 1) as nat) == 2 * pa);
        assert((unit + a.fraction()) * pa < unit * pb) by (nonlinear_arith)
            requires
                a.fraction() < unit,
                2 * pa <= pb,
                pa >= 1,
        ;
        assert(unit * pb <= (unit + b.fraction()) * pb) by (nonlinear_arith)
            requires
                b.fraction() >= 0,
                pb >= 1,
        ;
    }
}

/// A reading that lies from a whole number on, but below the next, comes to that number when
/// its fraction is dropped; one below zero comes to zero.
pub proof fn law_fractions_are_dropped(r: Reading, n: u64)
    requires
        n < 0x20_0000_0000_0000,
    ensures
        !r.is_nan() && !r.is_below(whole_reading(n as int)) && r.is_below(
            whole_reading(n + 1),
        ) ==> r.truncated() == n,
        r.is_below(whole_reading(0)) || r.is_nan() ==> r.truncated() == 0,
{
    let unit = EXPONENT_UNIT as nat;
    let next = whole_reading(n + 1);
    law_small_counts_are_exact(n);
    law_small_counts_are_exact((n + 1) as u64);
    lemma_fields((n + 1) as nat);
    lemma_count_bits((n + 1) as nat);
    if !r.is_nan() && !r.is_below(whole_reading(n as int)) && r.is_below(next) {
        if n > 0 {
            lemma_fields(n as nat);
        }
        let here = whole_reading(n as int);
        if r.negative() {
            assert(n == 0);
            assert(r.truncated() == 0);
        } else {
            assert(here.bits <= r.bits < next.bits);
            assert(next.bits < 0x7ff0_0000_0000_0000);
            if r.exponent() >= 1023 {
                lemma_scaled_order(r, next);
                assert(scaled(next) == (n + 1) * unit);
                if n > 0 {
                    lemma_scaled_order(here, r);
                    assert(scaled(here) == n * unit);
                }
                let v = scaled(r);
                assert(v / unit == n) by (nonlinear_arith)
                    requires
                        n * unit <= v < (n + 1) * unit,
                        unit > 0,
                ;
            } else if n > 0 {
                assert(here.exponent() >= 1023);
                assert(r.bits < 1023 * unit);
            }
        }
    }
}

/// Whole numbers up to two to the power of 53 keep their order and their sign.
pub proof fn law_whole_readings_are_ordered(m: int, n: int)
    requires
        -0x20_0000_0000_0000 <= m < n <= 0x20_0000_0000_0000,
    ensures
        whole_reading(m).is_below(whole_reading(n)),
{
    lemma_whole_bits(if m < 0 {
        -m
    } else {
        m
    } as nat);
    lemma_whole_bits(if n < 0 {
        -n
    } else {
        n
    } as nat);
    if 0 <= m {
        lemma_whole_order(m as nat, n as nat);
    } else if n <= 0 {
        lemma_whole_order((-n) as nat, (-m) as nat);
    }
}

proof fn lemma_whole_bits(n: nat)
    requires
        n <= 0x20_0000_0000_0000,
    ensures
        whole_reading(n as int).bits < 0x7ff0_0000_0000_0000,
        n > 0 ==> whole_reading(n as int).bits > 0,
        whole_reading(-(n as int)).bits == if n == 0 {
            0
        } else {
            whole_reading(n as int).bits + 0x8000_0000_0000_0000
        },
{
    lemma_count_bits(n);
    if n > 0 {
        lemma_fields(n);
    }
}

proof fn lemma_whole_order(m: nat, n: nat)
    requires
        m < n <= 0x20_0000_0000_0000,
    ensures
        whole_reading(m as int).bits < whole_reading(n as int).bits,
{
    let unit = EXPONENT_UNIT as nat;
    let (a, b) = (whole_reading(m as int), whole_reading(n as int));
    lemma_fields(n);
    lemma_whole_bits(n);
    lemma_whole_bits(m);
    if m > 0 {
        lemma_fields(m);
        law_small_counts_are_exact(m as u64);
        law_small_counts_are_exact(n as u64);
        assert(scaled(a) == m * unit && scaled(b) == n * unit);
        assert(m * unit < n * unit) by (nonlinear_arith)
            requires
                m < n,
                unit > 0,
        ;
        if b.bits <= a.bits {
            lemma_scaled_order(b, a);
        }
    }
}

} // verus!
