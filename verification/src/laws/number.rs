//! Laws of numbers in decimal.
use vstd::prelude::*;

use crate::number::{
    all_digits, decimal, is_digit, padded_left, padded_right, parsed_i32, parsed_u32, parsed_u64,
    signed_decimal, two_digits, value_of,
};

verus! {

/// A further digit makes ten times the number and the digit; what is no digit from `0` to
/// `9` is none.
pub proof fn law_digits_have_their_weight(s: Seq<char>, c: char)
    ensures
        value_of(Seq::empty()) == 0,
        is_digit(c) <==> 48 <= c as int <= 57,
        is_digit(c) ==> value_of(s.push(c)) == 10 * value_of(s) + (c as int - 48),
        all_digits(s) <==> s.len() > 0 && forall|i: int|
            0 <= i < s.len() ==> 48 <= (#[trigger] s[i]) as int <= 57,
{
    assert(s.push(c).drop_last() =~= s);
    assert(forall|i: int| 0 <= i < s.len() ==> (is_digit(#[trigger] s[i]) <==> 48 <= s[i] as int <= 57));
}

/// A number in decimal reads as itself and has no leading zero.
pub proof fn law_decimal_reads_back(n: nat)
    ensures
        value_of(decimal(n)) == n,
        all_digits(decimal(n)),
        n > 0 ==> decimal(n)[0] != '0',
        n == 0 ==> decimal(n) == seq!['0'],
    decreases n,
{
    if n < 10 {
        law_digits_have_their_weight(Seq::empty(), decimal(n)[0]);
        assert(Seq::<char>::empty().push(decimal(n)[0]) =~= decimal(n));
    } else {
        let rest = decimal(n / 10);
        let last = decimal(n).last();
        law_decimal_reads_back(n / 10);
        law_digits_have_their_weight(rest, last);
        assert(decimal(n) == rest.push(last));
        assert(all_digits(decimal(n))) by {
            assert forall|i: int| 0 <= i < decimal(n).len() implies is_digit(
                #[trigger] decimal(n)[i],
            ) by {
                if i < rest.len() {
                    assert(decimal(n)[i] == rest[i]);
                }
            }
        }
    }
}

/// Digits that read as a number and have no leading zero are that number in decimal.
pub proof fn law_decimal_is_the_only_spelling(s: Seq<char>)
    requires
        all_digits(s),
        s.len() == 1 || s[0] != '0',
    ensures
        s == decimal(value_of(s)),
        s[0] == '0' <==> value_of(s) == 0,
    decreases s.len(),
{
    let rest = s.drop_last();
    let c = s.last();
    law_digits_have_their_weight(rest, c);
    assert(rest.push(c) =~= s);
    assert(is_digit(c));
    if s.len() == 1 {
        assert(rest =~= Seq::empty());
        assert(s =~= decimal(value_of(s)));
    } else {
        assert(all_digits(rest)) by {
            assert forall|i: int| 0 <= i < rest.len() implies is_digit(#[trigger] rest[i]) by {
                assert(rest[i] == s[i]);
            }
        }
        law_decimal_is_the_only_spelling(rest);
        assert(value_of(rest) > 0);
        assert(value_of(s) / 10 == value_of(rest));
    }
}

/// A minus sign stands before negative numbers and before no others.
pub proof fn law_signed_decimal(n: int)
    ensures
        n >= 0 ==> signed_decimal(n) == decimal(n as nat),
        n < 0 ==> signed_decimal(n) == seq!['-'] + decimal((-n) as nat),
{
}

/// Different numbers are spelled differently.
pub proof fn law_spellings_differ(m: int, n: int)
    requires
        signed_decimal(m) == signed_decimal(n),
    ensures
        m == n,
{
    let a = decimal(if m < 0 {
        -m
    } else {
        m
    } as nat);
    let b = decimal(if n < 0 {
        -n
    } else {
        n
    } as nat);
    law_decimal_reads_back(if m < 0 {
        -m
    } else {
        m
    } as nat);
    law_decimal_reads_back(if n < 0 {
        -n
    } else {
        n
    } as nat);
    assert(is_digit(a[0]) && is_digit(b[0]));
    if m < 0 && n < 0 {
        assert(signed_decimal(m).drop_first() =~= a);
        assert(signed_decimal(n).drop_first() =~= b);
    } else if m < 0 || n < 0 {
        assert(signed_decimal(m)[0] == '-' || signed_decimal(n)[0] == '-');
    }
}

/// Numbers of one digit get a zero before it, and others stay as they are.
pub proof fn law_two_digits(n: nat)
    ensures
        n < 10 ==> two_digits(n) == seq!['0', (48 + n) as char],
        n >= 10 ==> two_digits(n) == decimal(n),
        value_of(two_digits(n)) == n,
{
    law_decimal_reads_back(n);
    if n < 10 {
        assert(two_digits(n) =~= seq!['0', (48 + n) as char]);
        reveal_with_fuel(value_of, 3);
        assert(two_digits(n).drop_last() =~= seq!['0']);
        assert(seq!['0'].drop_last() =~= Seq::empty());
    }
}

/// Filling up keeps the text at its side, puts spaces at the other, and stops at the width.
pub proof fn law_padding(s: Seq<char>, width: nat, i: int)
    ensures
        padded_right(s, width).len() == if s.len() < width {
            width
        } else {
            s.len()
        },
        padded_left(s, width).len() == padded_right(s, width).len(),
        0 <= i < s.len() ==> padded_right(s, width)[i] == s[i],
        s.len() <= i < width ==> padded_right(s, width)[i] == ' ',
        0 <= i < s.len() ==> padded_left(s, width)[padded_left(s, width).len() - s.len() + i] == s[i],
        0 <= i < width - s.len() ==> padded_left(s, width)[i] == ' ',
{
}

/// Digits, after at most one plus sign, are read as the number that they spell, if it fits in
/// 64 bits; nothing else is.
pub proof fn law_reading_u64(s: Seq<char>, v: u64)
    ensures
        parsed_u64(s) == Some(v) <==> (all_digits(s) && value_of(s) == v) || (s.len() > 0 && s[0]
            == '+' && all_digits(s.drop_first()) && value_of(s.drop_first()) == v),
        parsed_u64(decimal(v as nat)) == Some(v),
{
    if s.len() > 0 && s[0] == '+' {
        assert(!is_digit(s[0]));
        assert(!all_digits(s));
    }
    law_decimal_reads_back(v as nat);
    assert(is_digit(decimal(v as nat)[0]));
}

/// The same for 32 bits.
pub proof fn law_reading_u32(s: Seq<char>, v: u32)
    ensures
        parsed_u32(s) == Some(v) <==> (all_digits(s) && value_of(s) == v) || (s.len() > 0 && s[0]
            == '+' && all_digits(s.drop_first()) && value_of(s.drop_first()) == v),
        parsed_u32(decimal(v as nat)) == Some(v),
{
    if s.len() > 0 && s[0] == '+' {
        assert(!is_digit(s[0]));
        assert(!all_digits(s));
    }
    law_decimal_reads_back(v as nat);
    assert(is_digit(decimal(v as nat)[0]));
}

/// The same for signed numbers of 32 bits, which may have a minus sign instead.
pub proof fn law_reading_i32(s: Seq<char>, v: i32)
    ensures
        parsed_i32(s) == Some(v) <==> (all_digits(s) && value_of(s) == v) || (s.len() > 0
            && all_digits(s.drop_first()) && ((s[0] == '+' && value_of(s.drop_first()) == v) || (
        s[0] == '-' && value_of(s.drop_first()) == -v))),
        parsed_i32(signed_decimal(v as int)) == Some(v),
{
    if s.len() > 0 && (s[0] == '+' || s[0] == '-') {
        assert(!is_digit(s[0]));
        assert(!all_digits(s));
    }
    let n = if v < 0 {
        -v
    } else {
        v as int
    } as nat;
    law_decimal_reads_back(n);
    assert(is_digit(decimal(n)[0]));
    if v < 0 {
        assert(signed_decimal(v as int).drop_first() =~= decimal(n));
    }
}

} // verus!
