//! Sensor readings: IEEE 754 double-precision numbers, held by their bit pattern.
//!
//! The library orders readings, picks the largest, converts whole numbers to and from
//! them, and leaves their arithmetic to its users.
use vstd::prelude::*;

verus! {

/// The weight of the lowest exponent bit in a bit pattern.
pub const EXPONENT_UNIT: u64 = 0x10_0000_0000_0000;

/// The weight of the sign bit in a bit pattern.
pub const SIGN_UNIT: u64 = 0x8000_0000_0000_0000;

/// A double-precision number.
#[derive(Clone, Copy, PartialEq, Eq, Structural, Debug)]
pub struct Reading {
    /// The IEEE 754 bit pattern: sign, 11 exponent bits, 52 fraction bits.
    pub bits: u64,
}

/// Two to the power of `n`.
pub open spec fn two_to(n: nat) -> nat
    decreases n,
{
    if n == 0 {
        1
    } else {
        2 * two_to((n - 1) as nat)
    }
}

/// The exponent of the largest power of two up to `n`.
pub open spec fn top(n: nat) -> nat
    decreases n,
{
    if n < 2 {
        0
    } else {
        1 + top(n / 2)
    }
}

/// The whole number nearest to `n / d`; the even one of two that are equally near.
pub open spec fn rounded(n: nat, d: nat) -> nat {
    let q = n / d;
    let r = n % d;
    if 2 * r > d || (2 * r == d && q % 2 == 1) {
        q + 1
    } else {
        q
    }
}

/// The 53-bit significand of the double nearest to `n`, for a positive `n`; it is
/// the 54-bit power of two where rounding carries.
pub open spec fn significand(n: nat) -> nat {
    let scale = two_to(top(n));
    if scale <= EXPONENT_UNIT {
        n * (EXPONENT_UNIT as nat / scale)
    } else {
        rounded(n, scale / EXPONENT_UNIT as nat)
    }
}

/// The double nearest to `n`, as a whole number.
pub open spec fn nearest(n: nat) -> nat {
    let scale = two_to(top(n));
    if scale <= EXPONENT_UNIT {
        n
    } else {
        let step = scale / EXPONENT_UNIT as nat;
        rounded(n, step) * step
    }
}

/// The bit pattern of the double nearest to `n`.
pub open spec fn count_bits(n: nat) -> nat {
    if n == 0 {
        0
    } else {
        (top(n) + 1022) * EXPONENT_UNIT as nat + significand(n)
    }
}

/// The reading nearest to the whole number `n`.
pub open spec fn whole_reading(n: int) -> Reading {
    if n < 0 {
        Reading { bits: (count_bits((-n) as nat) + SIGN_UNIT) as u64 }
    } else {
        Reading { bits: count_bits(n as nat) as u64 }
    }
}

/// The factor by which quotients are blown up before they are rounded.
pub const BLOW_UP: u64 = 0x1000_0000_0000_0000;

/// The whole part of `n / d` in double precision: `n` is taken to the nearest double,
/// and so is the quotient, before its fraction is dropped.
pub open spec fn whole_quotient(n: nat, d: nat) -> nat {
    let v = nearest(n);
    if v == 0 {
        0
    } else {
        // the spacing of doubles around the quotient, both blown up by the same power of two
        let step = two_to(top(v * BLOW_UP as nat / d)) / EXPONENT_UNIT as nat;
        rounded(v * BLOW_UP as nat, d * step) * step / BLOW_UP as nat
    }
}

impl Reading {
    /// The biased exponent.
    pub open spec fn exponent(self) -> nat {
        (self.bits as nat / EXPONENT_UNIT as nat) % 2048
    }

    /// The fraction bits.
    pub open spec fn fraction(self) -> nat {
        self.bits as nat % EXPONENT_UNIT as nat
    }

    /// Whether the sign bit is set.
    pub open spec fn negative(self) -> bool {
        self.bits >= SIGN_UNIT
    }

    /// Whether this is not a number.
    pub open spec fn is_nan(self) -> bool {
        self.exponent() == 2047 && self.fraction() != 0
    }

    /// A whole number that orders readings that are numbers as their values do; both
    /// zeros have place zero.
    pub open spec fn place(self) -> int {
        if self.negative() {
            SIGN_UNIT - self.bits
        } else {
            self.bits as int
        }
    }

    /// Whether both are numbers and `self` is the smaller.
    pub open spec fn is_below(self, other: Reading) -> bool {
        !self.is_nan() && !other.is_nan() && self.place() < other.place()
    }

    /// Whether this is a zero, of either sign.
    pub open spec fn is_zero(self) -> bool {
        self.place() == 0
    }

    /// The larger of two readings; the other one where one is not a number.
    pub open spec fn larger(self, other: Reading) -> Reading {
        if self.is_nan() || self.is_below(other) {
            other
        } else {
            self
        }
    }

    /// The smaller of two readings; the other one where one is not a number.
    pub open spec fn smaller(self, other: Reading) -> Reading {
        if self.is_nan() || other.is_below(self) {
            other
        } else {
            self
        }
    }

    /// This reading, or the bound that it lies beyond.
    pub open spec fn within(self, low: Reading, high: Reading) -> Reading {
        if self.is_below(low) {
            low
        } else if high.is_below(self) {
            high
        } else {
            self
        }
    }

    /// The whole number of 64 bits nearest towards zero; zero for what is not a number.
    pub open spec fn truncated(self) -> u64 {
        if self.is_nan() || self.negative() || self.exponent() < 1023 {
            0
        } else {
            let whole = (EXPONENT_UNIT + self.fraction()) as nat * two_to(
                (self.exponent() - 1023) as nat,
            ) / EXPONENT_UNIT as nat;
            if whole > u64::MAX {
                u64::MAX
            } else {
                whole as u64
            }
        }
    }
}

/// `two_to` is positive and grows.
pub proof fn lemma_two_to(n: nat, m: nat)
    requires
        n <= m,
    ensures
        1 <= two_to(n) <= two_to(m),
    decreases m,
{
    if m > 0 {
        if n == m {
            lemma_two_to((n - 1) as nat, (m - 1) as nat);
        } else {
            lemma_two_to(n, (m - 1) as nat);
        }
    }
}

/// A positive number lies between the power of two of its top and the next one.
pub proof fn lemma_top(n: nat)
    requires
        n > 0,
    ensures
        two_to(top(n)) <= n < 2 * two_to(top(n)),
    decreases n,
{
    if n >= 2 {
        lemma_top(n / 2);
    }
}

/// No other power of two lies so.
pub proof fn lemma_top_unique(n: nat, t: nat)
    requires
        two_to(t) <= n < 2 * two_to(t),
    ensures
        top(n) == t,
{
    if n == 0 {
        lemma_two_to(0, t);
    } else {
        lemma_top(n);
        if top(n) < t {
            lemma_two_to(top(n) + 1, t);
        } else if t < top(n) {
            lemma_two_to(t + 1, top(n));
        }
    }
}

pub proof fn lemma_two_to_52()
    ensures
        two_to(52) == EXPONENT_UNIT,
        two_to(64) == 0x1_0000_0000_0000_0000nat,
{
    reveal_with_fuel(two_to, 65);
}

/// The product of powers of two is a power of two.
pub proof fn lemma_two_to_adds(n: nat, m: nat)
    ensures
        two_to(n + m) == two_to(n) * two_to(m),
    decreases n,
{
    if n > 0 {
        lemma_two_to_adds((n - 1) as nat, m);
        let a = two_to((n - 1) as nat);
        let b = two_to(m);
        assert(2 * (a * b) == (2 * a) * b) by (nonlinear_arith);
        assert((n + m - 1) as nat == (n - 1) as nat + m);
    } else {
        assert(two_to(0) * two_to(m) == two_to(m)) by (nonlinear_arith)
            requires
                two_to(0) == 1,
        ;
    }
}

/// The whole number nearest to `n / d`; the even one of two that are equally near.
pub fn round_ratio(n: u128, d: u128) -> (r: u128)
    requires
        0 < d <= 0x8000_0000_0000_0000_0000_0000_0000_0000 - 1,
        n < u128::MAX,
    ensures
        r == rounded(n as nat, d as nat),
{
    let q: u128 = n / d;
    let r: u128 = n % d;
    if 2 * r > d || (2 * r == d && q % 2 == 1) {
        assert(q <= n) by (nonlinear_arith)
            requires
                q == n / d,
                d > 0,
        ;
        q + 1
    } else {
        q
    }
}

/// The largest power of two up to `n`, and its exponent.
fn scale_of(n: u64) -> (r: (u64, u64))
    requires
        n > 0,
    ensures
        r.0 == top(n as nat),
        r.1 == two_to(top(n as nat)),
        r.0 <= 63,
        r.1 <= n,
{
    let mut t: u64 = 0;
    let mut p: u64 = 1;
    while p <= n / 2
        invariant
            n > 0,
            p == two_to(t as nat),
            1 <= p <= n,
            t <= 63,
        decreases n - p,
    {
        proof {
            lemma_two_to_52();
            if t + 1 >= 64 {
                lemma_two_to(64, (t + 1) as nat);
            }
        }
        t = t + 1;
        p = p * 2;
    }
    proof {
        lemma_top_unique(n as nat, t as nat);
    }
    (t, p)
}

/// The largest power of two up to `n`.
fn wide_scale_of(n: u128) -> (r: u128)
    requires
        n > 0,
    ensures
        r == two_to(top(n as nat)),
        1 <= r <= n,
{
    let mut p: u128 = 1;
    let ghost mut t: nat = 0;
    while p <= n / 2
        invariant
            n > 0,
            p == two_to(t),
            1 <= p <= n,
        decreases n - p,
    {
        proof {
            t = t + 1;
        }
        p = p * 2;
    }
    proof {
        lemma_top_unique(n as nat, t);
    }
    p
}

/// The whole part of `n / d` in double precision.
pub fn quotient(n: u64, d: u64) -> (r: u64)
    requires
        4 <= d <= 100,
    ensures
        r == whole_quotient(n as nat, d as nat),
{
    let v: u128 = nearest_whole(n);
    if v == 0 {
        return 0;
    }
    let big: u128 = v * BLOW_UP as u128;
    let q: u128 = big / d as u128;
    assert(q >= 2 * EXPONENT_UNIT && q <= big) by (nonlinear_arith)
        requires
            q == big / d as u128,
            big >= BLOW_UP,
            0 < d <= 100,
            BLOW_UP == 0x1000_0000_0000_0000,
            EXPONENT_UNIT == 0x10_0000_0000_0000,
    ;
    let scale: u128 = wide_scale_of(q);
    let step: u128 = scale / EXPONENT_UNIT as u128;
    proof {
        lemma_top(q as nat);
    }
    assert(0 < step && step <= q) by (nonlinear_arith)
        requires
            step == scale / EXPONENT_UNIT as u128,
            scale <= q < 2 * scale,
            q >= 2 * EXPONENT_UNIT,
            EXPONENT_UNIT > 0,
    ;
    assert(d * step <= big) by (nonlinear_arith)
        requires
            step <= q,
            q == big / d as u128,
            0 < d,
    ;
    let unit: u128 = d as u128 * step;
    assert(unit > 0) by (nonlinear_arith)
        requires
            unit == d * step,
            d > 0,
            step > 0,
    ;
    let count: u128 = round_ratio(big, unit);
    assert(2 * (count * step) <= big) by (nonlinear_arith)
        requires
            count <= big / unit + 1,
            unit == d * step,
            unit <= big,
            unit > 0,
            d >= 4,
    {
        assert((big / unit) * unit <= big);
        assert(count * unit <= (big / unit + 1) * unit);
        assert((big / unit + 1) * unit == (big / unit) * unit + unit);
        assert(count * unit == d * (count * step));
        assert(4 * (count * step) <= d * (count * step));
    }
    assert((count * step) / BLOW_UP as int <= v / 2) by (nonlinear_arith)
        requires
            2 * (count * step) <= v * BLOW_UP,
            BLOW_UP > 0,
    ;
    let whole: u128 = count * step / BLOW_UP as u128;
    whole as u64
}

/// The double nearest to `n`, as a whole number.
pub fn nearest_whole(n: u64) -> (r: u128)
    ensures
        r == nearest(n as nat),
        r <= 0x1_0000_0000_0000_0000,
{
    if n == 0 {
        assert(two_to(0) == 1);
        return 0;
    }
    let (t, p) = scale_of(n);
    if p <= EXPONENT_UNIT {
        n as u128
    } else {
        let step: u64 = p / EXPONENT_UNIT;
        let q: u128 = round_ratio(n as u128, step as u128);
        proof {
            lemma_two_to_52();
            if t <= 52 {
                lemma_two_to(t as nat, 52);
            }
            lemma_round_up_bound(n as nat, t as nat);
        }
        q * step as u128
    }
}

/// Rounding to 53 bits stays within the next power of two.
proof fn lemma_round_up_bound(n: nat, t: nat)
    requires
        0 < n < 0x1_0000_0000_0000_0000,
        t == top(n),
        t > 52,
    ensures
        ({
            let step = two_to(t) / EXPONENT_UNIT as nat;
            &&& step == two_to((t - 52) as nat)
            &&& step > 0
            &&& two_to(t) == step * EXPONENT_UNIT
            &&& EXPONENT_UNIT <= rounded(n, step) <= 2 * EXPONENT_UNIT
            &&& rounded(n, step) * step <= 2 * two_to(t) <= 0x1_0000_0000_0000_0000
        }),
{
    lemma_two_to_52();
    lemma_top(n);
    if t >= 64 {
        lemma_two_to(64, t);
    }
    lemma_two_to((t + 1) as nat, 64);
    let step = two_to((t - 52) as nat);
    lemma_two_to(0, (t - 52) as nat);
    lemma_two_to_adds((t - 52) as nat, 52);
    assert((t - 52) as nat + 52 == t);
    let unit = EXPONENT_UNIT as nat;
    assert(two_to(t) == step * unit);
    assert((step * unit) / unit == step) by (nonlinear_arith)
        requires
            unit > 0,
    ;
    let q = n / step;
    let r = n % step;
    assert(n == q * step + r && 0 <= r < step) by (nonlinear_arith)
        requires
            q == n / step,
            r == n % step,
            step > 0,
    ;
    assert(unit <= q < 2 * unit) by (nonlinear_arith)
        requires
            n == q * step + r,
            0 <= r < step,
            step * unit <= n < 2 * (step * unit),
            step > 0,
    ;
    let v = rounded(n, step);
    assert(v * step <= 2 * (step * unit)) by (nonlinear_arith)
        requires
            v <= 2 * unit,
            step > 0,
    ;
}

impl Reading {
    /// The reading with the given bit pattern.
    pub fn from_bits(bits: u64) -> (r: Reading)
        ensures
            r.bits == bits,
    {
        Reading { bits }
    }

    /// The reading nearest to `n`.
    pub fn from_count(n: u64) -> (r: Reading)
        ensures
            r == whole_reading(n as int),
    {
        if n == 0 {
            return Reading { bits: 0 };
        }
        let (t, p) = scale_of(n);
        proof {
            lemma_two_to_52();
            lemma_top(n as nat);
            if t <= 52 {
                lemma_two_to(t as nat, 52);
            } else {
                lemma_two_to(53, t as nat);
                assert(two_to(53) == 2 * two_to(52));
                lemma_round_up_bound(n as nat, t as nat);
            }
        }
        let q: u64 = if p <= EXPONENT_UNIT {
            let factor: u64 = EXPONENT_UNIT / p;
            assert(n * factor < 2 * EXPONENT_UNIT) by (nonlinear_arith)
                requires
                    factor == EXPONENT_UNIT / p,
                    p > 0,
                    n < 2 * p,
                    n > 0,
                    p <= EXPONENT_UNIT,
            ;
            n * factor
        } else {
            round_ratio(n as u128, (p / EXPONENT_UNIT) as u128) as u64
        };
        assert(q == significand(n as nat));
        Reading { bits: (t + 1022) * EXPONENT_UNIT + q }
    }

    /// The reading nearest to `n`.
    pub fn from_int(n: i64) -> (r: Reading)
        ensures
            r == whole_reading(n as int),
    {
        if n >= 0 {
            Reading::from_count(n as u64)
        } else {
            let size: u64 = if n == i64::MIN {
                SIGN_UNIT
            } else {
                (-n) as u64
            };
            let plain = Reading::from_count(size);
            proof {
                lemma_count_bits(size as nat);
            }
            Reading { bits: plain.bits + SIGN_UNIT }
        }
    }

    /// Whether this is not a number.
    pub fn not_a_number(self) -> (r: bool)
        ensures
            r == self.is_nan(),
    {
        (self.bits / EXPONENT_UNIT) % 2048 == 2047 && self.bits % EXPONENT_UNIT != 0
    }

    fn rank(self) -> (r: i64)
        ensures
            r == self.place(),
    {
        if self.bits >= SIGN_UNIT {
            -((self.bits - SIGN_UNIT) as i64)
        } else {
            self.bits as i64
        }
    }

    /// Whether both are numbers and this one is the smaller.
    pub fn below(self, other: Reading) -> (r: bool)
        ensures
            r == self.is_below(other),
    {
        !self.not_a_number() && !other.not_a_number() && self.rank() < other.rank()
    }

    /// Whether this is a zero, of either sign.
    pub fn zero(self) -> (r: bool)
        ensures
            r == self.is_zero(),
    {
        self.rank() == 0
    }

    /// The larger of two readings; the other one where one is not a number.
    pub fn max(self, other: Reading) -> (r: Reading)
        ensures
            r == self.larger(other),
    {
        if self.not_a_number() || self.below(other) {
            other
        } else {
            self
        }
    }

    /// The smaller of two readings; the other one where one is not a number.
    pub fn min(self, other: Reading) -> (r: Reading)
        ensures
            r == self.smaller(other),
    {
        if self.not_a_number() || other.below(self) {
            other
        } else {
            self
        }
    }

    /// This reading, or the bound that it lies beyond.
    pub fn clamp(self, low: Reading, high: Reading) -> (r: Reading)
        ensures
            r == self.within(low, high),
    {
        if self.below(low) {
            low
        } else if high.below(self) {
            high
        } else {
            self
        }
    }

    /// The whole number of 64 bits nearest towards zero; zero for what is not a number.
    pub fn trunc(self) -> (r: u64)
        ensures
            r == self.truncated(),
    {
        let exponent: u64 = (self.bits / EXPONENT_UNIT) % 2048;
        if self.not_a_number() || self.bits >= SIGN_UNIT || exponent < 1023 {
            return 0;
        }
        let fraction: u64 = self.bits % EXPONENT_UNIT;
        let e: u64 = exponent - 1023;
        let ghost m = (EXPONENT_UNIT + self.fraction()) as nat;
        if e >= 64 {
            proof {
                lemma_two_to_52();
                lemma_two_to(64, e as nat);
                let p = two_to(e as nat);
                assert(m * p / EXPONENT_UNIT as nat >= p) by (nonlinear_arith)
                    requires
                        m >= EXPONENT_UNIT,
                        EXPONENT_UNIT > 0,
                ;
            }
            return u64::MAX;
        }
        let mut p: u128 = 1;
        let mut i: u64 = 0;
        proof {
            lemma_two_to_52();
        }
        while i < e
            invariant
                i <= e < 64,
                p == two_to(i as nat),
                1 <= p <= 0x1_0000_0000_0000_0000,
                two_to(64) == 0x1_0000_0000_0000_0000nat,
            decreases e - i,
        {
            proof {
                lemma_two_to((i + 1) as nat, 64);
            }
            p = p * 2;
            i = i + 1;
        }
        let size: u128 = EXPONENT_UNIT as u128 + fraction as u128;
        assert(size * p <= 0x20_0000_0000_0000 * 0x1_0000_0000_0000_0000) by (nonlinear_arith)
            requires
                size <= 0x20_0000_0000_0000,
                p <= 0x1_0000_0000_0000_0000,
        ;
        let whole: u128 = size * p / EXPONENT_UNIT as u128;
        if whole > u64::MAX as u128 {
            u64::MAX
        } else {
            whole as u64
        }
    }
}

/// The bit pattern of a 64-bit whole number has no sign bit.
pub proof fn lemma_count_bits(n: nat)
    requires
        n <= u64::MAX,
    ensures
        count_bits(n) < 0x4400_0000_0000_0000,
        n > 0 ==> EXPONENT_UNIT <= significand(n) <= 2 * EXPONENT_UNIT,
        n > 0 ==> top(n) <= 63,
{
    if n > 0 {
        lemma_two_to_52();
        lemma_top(n);
        let t = top(n);
        if t >= 64 {
            lemma_two_to(64, t);
        }
        if t <= 52 {
            lemma_two_to(t, 52);
            lemma_two_to(0, t);
            let unit = EXPONENT_UNIT as nat;
            let p = two_to(t);
            lemma_two_to_adds(t, (52 - t) as nat);
            assert(t + (52 - t) as nat == 52);
            let f = two_to((52 - t) as nat);
            assert(unit / p == f) by (nonlinear_arith)
                requires
                    unit == p * f,
                    p > 0,
            ;
            assert(unit <= n * f <= 2 * unit) by (nonlinear_arith)
                requires
                    unit == p * f,
                    p <= n < 2 * p,
            ;
        } else {
            lemma_two_to(53, t);
            assert(two_to(53) == 2 * two_to(52));
            lemma_round_up_bound(n, t);
        }
    }
}

/// The fields of the bit pattern of a positive whole number, in terms of its nearest
/// double: with the exponent `e + 1023` and the fraction `f`, the double is
/// `(2^52 + f) * 2^e / 2^52`.
pub proof fn lemma_fields(n: nat)
    requires
        0 < n <= u64::MAX,
    ensures
        ({
            let r = whole_reading(n as int);
            let unit = EXPONENT_UNIT as nat;
            &&& !r.is_nan()
            &&& !r.negative()
            &&& r.exponent() >= 1023
            &&& (unit + r.fraction()) * two_to((r.exponent() - 1023) as nat) == nearest(n) * unit
        }),
{
    lemma_count_bits(n);
    let r = whole_reading(n as int);
    let unit = EXPONENT_UNIT as nat;
    let t = top(n);
    let s = significand(n);
    let p = two_to(t);
    lemma_two_to_52();
    lemma_top(n);
    assert(r.bits == (t + 1022) * unit + s);
    // the significand times the scale is the nearest double
    assert(s * p == nearest(n) * unit) by {
        if t <= 52 {
            lemma_two_to(t, 52);
            lemma_two_to(0, t);
            lemma_two_to_adds(t, (52 - t) as nat);
            assert(t + (52 - t) as nat == 52);
            let f = two_to((52 - t) as nat);
            assert(unit / p == f) by (nonlinear_arith)
                requires
                    unit == p * f,
                    p > 0,
            ;
            assert((n * f) * p == n * unit) by (nonlinear_arith)
                requires
                    unit == p * f,
            ;
        } else {
            lemma_two_to(53, t);
            assert(two_to(53) == 2 * two_to(52));
            lemma_round_up_bound(n, t);
            let step = p / unit;
            assert(s * (step * unit) == (s * step) * unit) by (nonlinear_arith);
        }
    }
    if s < 2 * unit {
        let f = (s - unit) as nat;
        assert(r.bits == (t + 1023) * unit + f) by (nonlinear_arith)
            requires
                r.bits == (t + 1022) * unit + s,
                f == s - unit,
        ;
        lemma_split_bits(r.bits as nat, t + 1023, f);
        assert((unit + r.fraction()) == s);
        assert((r.exponent() - 1023) as nat == t);
    } else {
        assert(r.bits == (t + 1024) * unit + 0) by (nonlinear_arith)
            requires
                r.bits == (t + 1022) * unit + s,
                s == 2 * unit,
        ;
        lemma_split_bits(r.bits as nat, t + 1024, 0);
        assert((r.exponent() - 1023) as nat == t + 1);
        assert(two_to(t + 1) == 2 * p);
        assert(unit * (2 * p) == s * p) by (nonlinear_arith)
            requires
                s == 2 * unit,
        ;
    }
}

proof fn lemma_split_bits(bits: nat, e: nat, f: nat)
    requires
        bits == e * EXPONENT_UNIT + f,
        f < EXPONENT_UNIT,
        e < 2047,
    ensures
        bits / EXPONENT_UNIT as nat == e,
        (bits / EXPONENT_UNIT as nat) % 2048 == e,
        bits % EXPONENT_UNIT as nat == f,
        bits < SIGN_UNIT,
{
}

/// Truncating the reading of a whole number gives the nearest double, or the largest
/// 64-bit number where that double is larger still.
pub proof fn law_whole_reading_truncates(n: u64)
    ensures
        whole_reading(n as int).truncated() == if nearest(n as nat) > u64::MAX {
            u64::MAX as nat
        } else {
            nearest(n as nat)
        },
{
    let unit = EXPONENT_UNIT as nat;
    if n == 0 {
        assert(two_to(0) == 1);
    } else {
        lemma_fields(n as nat);
        let v = nearest(n as nat);
        assert(v * unit / unit == v) by (nonlinear_arith)
            requires
                unit > 0,
        ;
    }
}

/// Whole numbers up to two to the power of 53 become readings and come back unchanged.
pub proof fn law_small_counts_are_exact(n: u64)
    requires
        n <= 0x20_0000_0000_0000,
    ensures
        nearest(n as nat) == n,
        whole_reading(n as int).truncated() == n,
{
    law_whole_reading_truncates(n);
    lemma_two_to_52();
    if n > 0 {
        let t = top(n as nat);
        lemma_top(n as nat);
        if t > 52 {
            lemma_two_to(53, t);
            assert(two_to(53) == 2 * two_to(52));
            if t > 53 {
                lemma_two_to(54, t);
                assert(two_to(54) == 2 * two_to(53));
            }
            assert(two_to(t) / EXPONENT_UNIT as nat == 2);
        } else {
            lemma_two_to(t, 52);
        }
    } else {
        assert(two_to(0) == 1);
    }
}

proof fn lemma_two_to_60()
    ensures
        two_to(60) == BLOW_UP,
{
    reveal_with_fuel(two_to, 61);
}

/// Up to two to the power of 52, dividing in double precision and dropping the fraction
/// gives what dividing whole numbers gives.
pub proof fn law_small_quotients_are_exact(n: u64, d: u64)
    requires
        n <= EXPONENT_UNIT,
        4 <= d <= 100,
    ensures
        whole_quotient(n as nat, d as nat) == n / d,
{
    law_small_counts_are_exact(n);
    if n > 0 {
        let b = BLOW_UP as int;
        let unit = EXPONENT_UNIT as int;
        let x = n * b;
        let q = x / d as int;
        let scale = two_to(top(q as nat)) as int;
        let step = scale / unit;
        let k = n as int / d as int;
        assert(q >= 2 * unit && q * d <= x) by (nonlinear_arith)
            requires
                q == x / d as int,
                x >= b,
                0 < d <= 100,
                b == 0x1000_0000_0000_0000,
                unit == 0x10_0000_0000_0000,
        ;
        assert(x >= b) by (nonlinear_arith)
            requires
                x == n * b,
                n > 0,
                b > 0,
        ;
        lemma_top(q as nat);
        let t = top(q as nat);
        lemma_two_to_52();
        lemma_two_to_60();
        assert(t >= 53) by {
            if t < 53 {
                lemma_two_to(t, 52);
            }
        }
        lemma_two_to_adds((t - 52) as nat, 52);
        assert(step == two_to((t - 52) as nat)) by (nonlinear_arith)
            requires
                step == scale / unit,
                scale == two_to((t - 52) as nat) * unit,
                unit > 0,
        ;
        assert(d * step <= b) by (nonlinear_arith)
            requires
                step * unit == scale,
                scale <= q,
                q * d <= x,
                x == n * b,
                n <= unit,
                unit > 0,
                d > 0,
                b > 0,
        {
            assert(d * (step * unit) <= n * b);
            assert(n * b <= unit * b);
            assert((d * step) * unit == d * (step * unit));
        }
        assert(step * unit == scale) by (nonlinear_arith)
            requires
                step == two_to((t - 52) as nat),
                scale == two_to((t - 52) as nat) * unit,
        ;
        assert(0 < step && step <= b) by (nonlinear_arith)
            requires
                d * step <= b,
                d >= 4,
                step * unit == scale,
                scale > 0,
                unit > 0,
        ;
        // the step is a power of two no larger than the blow-up, so it divides it
        assert(t - 52 <= 60) by {
            if t - 52 > 60 {
                lemma_two_to(60, (t - 52) as nat);
                lemma_two_to(61, (t - 52) as nat);
            }
        }
        let m = two_to((112 - t) as nat) as int;
        lemma_two_to_adds((112 - t) as nat, (t - 52) as nat);
        assert(b == m * step);
        let c = rounded(x as nat, (d * step) as nat) as int;
        let u = d * step;
        assert(u > 0) by (nonlinear_arith)
            requires
                u == d * step,
                d >= 4,
                step > 0,
        ;
        assert(2 * (c * u) <= 2 * x + u && c >= x / u) by (nonlinear_arith)
            requires
                u > 0,
                c == x / u && 2 * (x % u) <= u || c == x / u + 1 && 2 * (x % u) >= u,
        {
            assert(x == u * (x / u) + x % u);
        }
        assert(d * k <= n && n < d * (k + 1)) by (nonlinear_arith)
            requires
                k == n as int / d as int,
                d > 0,
        ;
        assert(c * step < (k + 1) * b) by (nonlinear_arith)
            requires
                2 * (c * u) <= 2 * x + u,
                u == d * step,
                u <= b,
                x == n * b,
                n + 1 <= d * (k + 1),
                d > 0,
                b > 0,
        {
            assert(c * u == d * (c * step));
            assert((n + 1) * b <= (d * (k + 1)) * b);
            assert((d * (k + 1)) * b == d * ((k + 1) * b));
            assert((n + 1) * b == n * b + b);
            assert(2 * (d * (c * step)) < 2 * (d * ((k + 1) * b)));
            assert(d * (c * step) < d * ((k + 1) * b));
        }
        assert(k * b <= c * step) by (nonlinear_arith)
            requires
                c >= x / u,
                x == n * b,
                d * k <= n,
                b == m * step,
                u == d * step,
                u > 0,
                step > 0,
                k >= 0,
                m >= 0,
        {
            assert((d * k) * b <= n * b);
            assert((d * k) * (m * step) == (k * m) * (d * step));
            assert((k * m) * u <= x);
            assert(x / u >= k * m);
            assert(c * step >= (k * m) * step);
            assert((k * m) * step == k * (m * step));
        }
        assert((c * step) / b == k) by (nonlinear_arith)
            requires
                k * b <= c * step < (k + 1) * b,
                b > 0,
        ;
    }
}

/// Zero is a number and stands at the middle of the order.
pub proof fn lemma_zero()
    ensures
        !whole_reading(0).is_nan(),
        whole_reading(0).place() == 0,
{
}

/// One is a number above zero.
pub proof fn lemma_one()
    ensures
        !whole_reading(1).is_nan(),
        whole_reading(1).place() > 0,
        whole_reading(1).bits == 0x3ff0_0000_0000_0000,
{
    assert(two_to(0) == 1);
    assert(top(1) == 0);
}

} // verus!
