//! Whole numbers in decimal: printing, padding and reading.
use vstd::prelude::*;

use crate::text::chars_of;

verus! {

/// The character of a decimal digit.
pub open spec fn digit(d: nat) -> char {
    (48 + d) as char
}

/// `n` in decimal, without leading zeros.
pub open spec fn decimal(n: nat) -> Seq<char>
    decreases n,
{
    if n < 10 {
        seq![digit(n)]
    } else {
        decimal(n / 10).push(digit(n % 10))
    }
}

/// `n` in decimal, with a minus sign where it is negative.
pub open spec fn signed_decimal(n: int) -> Seq<char> {
    if n < 0 {
        seq!['-'] + decimal((-n) as nat)
    } else {
        decimal(n as nat)
    }
}

/// `n` in decimal with at least two digits.
pub open spec fn two_digits(n: nat) -> Seq<char> {
    if n < 10 {
        seq!['0'] + decimal(n)
    } else {
        decimal(n)
    }
}

/// `n` spaces.
pub open spec fn spaces(n: int) -> Seq<char> {
    Seq::new(if n > 0 { n as nat } else { 0 }, |i: int| ' ')
}

/// `s` filled up with spaces behind it to `width` characters.
pub open spec fn padded_right(s: Seq<char>, width: nat) -> Seq<char> {
    s + spaces(width - s.len())
}

/// `s` filled up with spaces before it to `width` characters.
pub open spec fn padded_left(s: Seq<char>, width: nat) -> Seq<char> {
    spaces(width - s.len()) + s
}

/// Whether `c` is one of the ten ASCII digits.
pub open spec fn is_digit(c: char) -> bool {
    '0' <= c <= '9'
}

/// Whether `s` holds at least one character and only digits.
pub open spec fn all_digits(s: Seq<char>) -> bool {
    s.len() > 0 && forall|i: int| 0 <= i < s.len() ==> is_digit(#[trigger] s[i])
}

/// The number that a row of digits stands for.
pub open spec fn value_of(s: Seq<char>) -> nat
    decreases s.len(),
{
    if s.len() == 0 {
        0
    } else {
        10 * value_of(s.drop_last()) + (s.last() as nat - 48) as nat
    }
}

/// The number up to `max` that `s` spells: digits, after at most one plus sign.
pub open spec fn parsed_up_to(s: Seq<char>, max: nat) -> Option<nat> {
    let digits = if s.len() > 0 && s[0] == '+' {
        s.drop_first()
    } else {
        s
    };
    if all_digits(digits) && value_of(digits) <= max {
        Some(value_of(digits))
    } else {
        None
    }
}

/// The 32-bit number that `s` spells: digits, after at most one plus or minus sign.
pub open spec fn parsed_i32(s: Seq<char>) -> Option<i32> {
    if s.len() > 0 && s[0] == '-' {
        let digits = s.drop_first();
        if all_digits(digits) && value_of(digits) <= 0x8000_0000 {
            Some((-value_of(digits)) as i32)
        } else {
            None
        }
    } else {
        match parsed_up_to(s, 0x7fff_ffff) {
            Some(v) => Some(v as i32),
            None => None,
        }
    }
}

/// The 64-bit number that `s` spells.
pub open spec fn parsed_u64(s: Seq<char>) -> Option<u64> {
    match parsed_up_to(s, u64::MAX as nat) {
        Some(v) => Some(v as u64),
        None => None,
    }
}

/// The unsigned 32-bit number that `s` spells.
pub open spec fn parsed_u32(s: Seq<char>) -> Option<u32> {
    match parsed_up_to(s, u32::MAX as nat) {
        Some(v) => Some(v as u32),
        None => None,
    }
}

/// The first digits of a row stand for no more than the whole row.
proof fn lemma_value_grows(s: Seq<char>, n: int)
    requires
        all_digits(s),
        0 <= n <= s.len(),
    ensures
        value_of(s.take(n)) <= value_of(s),
    decreases s.len(),
{
    if n == s.len() {
        assert(s.take(n) =~= s);
    } else {
        let rest = s.drop_last();
        if rest.len() > 0 {
            assert(all_digits(rest)) by {
                assert forall|i: int| 0 <= i < rest.len() implies is_digit(#[trigger] rest[i]) by {
                    assert(rest[i] == s[i]);
                }
            }
            lemma_value_grows(rest, n);
            assert(rest.take(n) =~= s.take(n));
        } else {
            assert(s.take(n) =~= rest);
        }
    }
}

/// `n` in decimal.
pub fn show(n: u64) -> (r: String)
    ensures
        r@ == decimal(n as nat),
    decreases n,
{
    let mut s = if n < 10 {
        String::new()
    } else {
        show(n / 10)
    };
    s.push((48u8 + (n % 10) as u8) as char);
    assert(n < 10 ==> s@ =~= seq![digit(n as nat)]);
    s
}

/// `n` in decimal.
pub fn show_i64(n: i64) -> (r: String)
    ensures
        r@ == signed_decimal(n as int),
{
    if n < 0 {
        let mut s = String::new();
        s.push('-');
        let size: u64 = if n == i64::MIN {
            0x8000_0000_0000_0000
        } else {
            (-n) as u64
        };
        let digits = show(size);
        s.append(digits.as_str());
        assert(s@ =~= seq!['-'] + decimal(size as nat));
        s
    } else {
        show(n as u64)
    }
}

/// `n` in decimal with at least two digits.
pub fn show_two(n: u64) -> (r: String)
    ensures
        r@ == two_digits(n as nat),
{
    let digits = show(n);
    if n < 10 {
        let mut s = String::new();
        s.push('0');
        s.append(digits.as_str());
        assert(s@ =~= seq!['0'] + decimal(n as nat));
        s
    } else {
        digits
    }
}

fn blanks(n: usize) -> (r: String)
    ensures
        r@ == spaces(n as int),
{
    let mut s = String::new();
    let mut i: usize = 0;
    while i < n
        invariant
            i <= n,
            s@ == spaces(i as int),
        decreases n - i,
    {
        s.push(' ');
        i = i + 1;
        assert(s@ =~= spaces(i as int));
    }
    s
}

/// `s` filled up with spaces behind it to `width` characters.
pub fn pad_right(s: &str, width: usize) -> (r: String)
    ensures
        r@ == padded_right(s@, width as nat),
{
    let n: usize = chars_of(s).len();
    let mut out = s.to_owned();
    if n < width {
        let fill = blanks(width - n);
        out.append(fill.as_str());
    }
    assert(out@ =~= padded_right(s@, width as nat));
    out
}

/// `s` filled up with spaces before it to `width` characters.
pub fn pad_left(s: &str, width: usize) -> (r: String)
    ensures
        r@ == padded_left(s@, width as nat),
{
    let n: usize = chars_of(s).len();
    let mut out = if n < width {
        blanks(width - n)
    } else {
        String::new()
    };
    out.append(s);
    assert(out@ =~= padded_left(s@, width as nat));
    out
}

/// The number up to `max` whose digits stand in `cs` from `from` on.
fn read_digits(cs: &Vec<char>, from: usize, max: u64) -> (r: Option<u64>)
    requires
        from <= cs.len(),
    ensures
        ({
            let digits = cs@.skip(from as int);
            match r {
                Some(v) => all_digits(digits) && v == value_of(digits) && v <= max,
                None => !(all_digits(digits) && value_of(digits) <= max),
            }
        }),
{
    let ghost digits = cs@.skip(from as int);
    if from == cs.len() {
        return None;
    }
    let mut v: u64 = 0;
    let mut i: usize = from;
    while i < cs.len()
        invariant
            from <= i <= cs.len(),
            digits == cs@.skip(from as int),
            v == value_of(digits.take(i - from)),
            v <= max,
            forall|j: int| 0 <= j < i - from ==> is_digit(#[trigger] digits[j]),
        decreases cs.len() - i,
    {
        let c = cs[i];
        assert(digits[i - from] == c);
        if !('0' <= c && c <= '9') {
            assert(!is_digit(digits[i - from]));
            return None;
        }
        let d: u64 = (c as u32 - 48) as u64;
        let next: u128 = v as u128 * 10 + d as u128;
        assert(digits.take(i - from + 1).drop_last() =~= digits.take(i - from));
        assert(next == value_of(digits.take(i - from + 1)));
        if next > max as u128 {
            proof {
                if all_digits(digits) {
                    lemma_value_grows(digits, i - from + 1);
                }
            }
            return None;
        }
        v = next as u64;
        i = i + 1;
    }
    assert(digits.take(digits.len() as int) =~= digits);
    Some(v)
}

fn read_up_to(s: &str, max: u64) -> (r: Option<u64>)
    ensures
        match r {
            Some(v) => parsed_up_to(s@, max as nat) == Some(v as nat),
            None => parsed_up_to(s@, max as nat) is None,
        },
{
    let cs = chars_of(s);
    assert(s@.skip(0) =~= s@);
    if cs.len() > 0 && cs[0] == '+' {
        assert(s@.skip(1) =~= s@.drop_first());
        read_digits(&cs, 1, max)
    } else {
        read_digits(&cs, 0, max)
    }
}

/// The 64-bit number that `s` spells.
pub fn read_u64(s: &str) -> (r: Option<u64>)
    ensures
        r == parsed_u64(s@),
{
    read_up_to(s, u64::MAX)
}

/// The unsigned 32-bit number that `s` spells.
pub fn read_u32(s: &str) -> (r: Option<u32>)
    ensures
        r == parsed_u32(s@),
{
    match read_up_to(s, u32::MAX as u64) {
        Some(v) => Some(v as u32),
        None => None,
    }
}

/// The signed 32-bit number that `s` spells.
pub fn read_i32(s: &str) -> (r: Option<i32>)
    ensures
        r == parsed_i32(s@),
{
    let cs = chars_of(s);
    if cs.len() > 0 && cs[0] == '-' {
        assert(s@.skip(1) =~= s@.drop_first());
        match read_digits(&cs, 1, 0x8000_0000) {
            Some(v) => Some((-(v as i64)) as i32),
            None => None,
        }
    } else {
        match read_up_to(s, 0x7fff_ffff) {
            Some(v) => Some(v as i32),
            None => None,
        }
    }
}

} // verus!
