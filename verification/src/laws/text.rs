//! Laws of cutting, trimming, joining and comparing.
use vstd::prelude::*;

use crate::text::{
    at_most, cut, cut_at, filled, in_code_order, is_white, joined, law_order_keeps_strings,
    lemma_filled_push, lines_of, no_later, only, trimmed, trimmed_end, trimmed_start, without_cr,
    without_prefixes, words_of,
};

verus! {

/// A list that is cut at an item is cut on both sides of it.
pub proof fn law_cut_on_both_sides<T>(a: Seq<T>, x: T, b: Seq<T>, sep: spec_fn(T) -> bool)
    requires
        sep(x),
    ensures
        cut(a + seq![x] + b, sep) == cut(a, sep) + cut(b, sep),
        cut(b, sep).len() > 0,
    decreases b.len(),
{
    let all = a + seq![x] + b;
    lemma_cut_len(a, sep);
    if b.len() == 0 {
        assert(all.drop_last() =~= a);
        assert(cut(all, sep) =~= cut(a, sep) + cut(b, sep));
    } else {
        let rest = b.drop_last();
        law_cut_on_both_sides(a, x, rest, sep);
        assert(all.drop_last() =~= a + seq![x] + rest);
        let before = cut(a, sep) + cut(rest, sep);
        assert(before.last() == cut(rest, sep).last());
        assert(before.drop_last() =~= cut(a, sep) + cut(rest, sep).drop_last());
        assert(cut(all, sep) =~= cut(a, sep) + cut(b, sep));
    }
}

/// A list without an item to cut at is one piece.
pub proof fn law_cut_nowhere<T>(s: Seq<T>, sep: spec_fn(T) -> bool)
    requires
        forall|i: int| 0 <= i < s.len() ==> !sep(#[trigger] s[i]),
    ensures
        cut(s, sep) == seq![s],
    decreases s.len(),
{
    if s.len() > 0 {
        law_cut_nowhere(s.drop_last(), sep);
        assert(s.drop_last().push(s.last()) =~= s);
        assert(cut(s, sep) =~= seq![s]);
    } else {
        assert(s =~= Seq::empty());
    }
}

proof fn lemma_cut_len<T>(s: Seq<T>, sep: spec_fn(T) -> bool)
    ensures
        cut(s, sep).len() > 0,
    decreases s.len(),
{
    if s.len() > 0 {
        lemma_cut_len(s.drop_last(), sep);
    }
}

/// Text is cut at each occurrence of a character and nowhere else.
pub proof fn law_text_is_cut_at_a_character(a: Seq<char>, c: char, b: Seq<char>)
    ensures
        cut_at(a + seq![c] + b, c) == cut_at(a, c) + cut_at(b, c),
        !a.contains(c) ==> cut_at(a, c) == seq![a],
        !a.contains(c) ==> cut_at(a + seq![c] + b, c)[0] == a,
{
    law_cut_on_both_sides(a, c, b, only(c));
    if !a.contains(c) {
        law_cut_nowhere(a, only(c));
    }
}

proof fn lemma_filled_adds<T>(p: Seq<Seq<T>>, q: Seq<Seq<T>>)
    ensures
        filled(p + q) == filled(p) + filled(q),
{
    Seq::filter_distributes_over_add(p, q, |x: Seq<T>| x.len() > 0);
}

/// What is left of a list of pieces are those that are not empty, in their order.
pub proof fn law_empty_pieces_are_left_out<T>(p: Seq<Seq<T>>, x: Seq<T>, q: Seq<Seq<T>>)
    ensures
        filled(p + q) == filled(p) + filled(q),
        filled(seq![x]) == if x.len() > 0 {
            seq![x]
        } else {
            Seq::empty()
        },
{
    lemma_filled_adds(p, q);
    let none = Seq::<Seq<T>>::empty();
    lemma_filled_push(none, x);
    assert(none.push(x) =~= seq![x]);
    assert(filled(none) =~= none) by {
        reveal(Seq::filter);
    }
}

/// White space are the 25 characters to which Unicode gives that property.
pub proof fn law_white_space(c: char)
    ensures
        is_white(c) <==> seq![
            9int, 10, 11, 12, 13, 32, 0x85, 0xa0, 0x1680, 0x2000, 0x2001, 0x2002, 0x2003, 0x2004, 0x2005,
            0x2006, 0x2007, 0x2008, 0x2009, 0x200a, 0x2028, 0x2029, 0x202f, 0x205f, 0x3000,
        ].contains(c as int),
{
    let list = seq![
        9int, 10, 11, 12, 13, 32, 0x85, 0xa0, 0x1680, 0x2000, 0x2001, 0x2002, 0x2003, 0x2004, 0x2005,
        0x2006, 0x2007, 0x2008, 0x2009, 0x200a, 0x2028, 0x2029, 0x202f, 0x205f, 0x3000,
    ];
    let u = c as int;
    if is_white(c) {
        let k = if u <= 13 {
            u - 9
        } else if u == 32 {
            5
        } else if u == 0x85 {
            6
        } else if u == 0xa0 {
            7
        } else if u == 0x1680 {
            8
        } else if u <= 0x200a {
            u - 0x2000 + 9
        } else if u == 0x2028 {
            20
        } else if u == 0x2029 {
            21
        } else if u == 0x202f {
            22
        } else if u == 0x205f {
            23
        } else {
            24
        };
        assert(list[k] == u);
    }
}

/// White space parts words, and text without any is one word; so the words are the longest
/// runs without white space, in their order.
pub proof fn law_words_are_parted_by_white_space(a: Seq<char>, w: char, b: Seq<char>)
    ensures
        is_white(w) ==> words_of(a + seq![w] + b) == words_of(a) + words_of(b),
        a.len() > 0 && (forall|i: int| 0 <= i < a.len() ==> !is_white(#[trigger] a[i])) ==> words_of(
            a,
        ) == seq![a],
        words_of(Seq::empty()) == Seq::<Seq<char>>::empty(),
{
    let sep = |c: char| is_white(c);
    if is_white(w) {
        law_cut_on_both_sides(a, w, b, sep);
        lemma_filled_adds(cut(a, sep), cut(b, sep));
    }
    if forall|i: int| 0 <= i < a.len() ==> !is_white(#[trigger] a[i]) {
        law_cut_nowhere(a, sep);
        law_empty_pieces_are_left_out(seq![a], a, seq![a]);
    }
    law_cut_nowhere(Seq::<char>::empty(), sep);
    law_empty_pieces_are_left_out::<char>(seq![], Seq::empty(), seq![]);
}

/// A line feed ends a line, together with a carriage return before it; what follows the last
/// one is a line if it is not empty, and keeps what it has.
pub proof fn law_lines_are_ended_by_line_feeds(a: Seq<char>, b: Seq<char>)
    requires
        !a.contains('\n'),
    ensures
        a.len() == 0 || a.last() != '\r' ==> lines_of(a + seq!['\n'] + b) == seq![a] + lines_of(b),
        lines_of(a + seq!['\r', '\n'] + b) == seq![a] + lines_of(b),
        lines_of(a) == if a.len() > 0 {
            seq![a]
        } else {
            Seq::empty()
        },
{
    lemma_line(a, b);
    let with_cr = a.push('\r');
    assert(!with_cr.contains('\n')) by {
        if with_cr.contains('\n') {
            let k = choose|k: int| 0 <= k < with_cr.len() && with_cr[k] == '\n';
            assert(a[k] == '\n');
        }
    }
    lemma_line(with_cr, b);
    assert(with_cr.drop_last() =~= a);
    assert(a + seq!['\r', '\n'] + b =~= with_cr + seq!['\n'] + b);
    law_text_is_cut_at_a_character(a, '\n', b);
    let pieces = cut_at(a, '\n');
    assert(pieces.drop_last().map_values(|p: Seq<char>| without_cr(p)) =~= Seq::empty());
    assert(lines_of(a) =~= if a.len() > 0 {
        seq![a]
    } else {
        Seq::empty()
    });
}

proof fn lemma_line(a: Seq<char>, b: Seq<char>)
    requires
        !a.contains('\n'),
    ensures
        lines_of(a + seq!['\n'] + b) == seq![without_cr(a)] + lines_of(b),
{
    law_text_is_cut_at_a_character(a, '\n', b);
    lemma_cut_len(b, only('\n'));
    let f = |p: Seq<char>| without_cr(p);
    let pieces = seq![a] + cut_at(b, '\n');
    assert(cut_at(a + seq!['\n'] + b, '\n') == pieces);
    assert(pieces.drop_last() =~= seq![a] + cut_at(b, '\n').drop_last());
    assert(pieces.drop_last().map_values(f) =~= seq![without_cr(a)] + cut_at(
        b,
        '\n',
    ).drop_last().map_values(f));
    assert(pieces.last() == cut_at(b, '\n').last());
    assert(lines_of(a + seq!['\n'] + b) =~= seq![without_cr(a)] + lines_of(b));
}

/// White space at either end comes off, and nothing else does.
pub proof fn law_white_space_comes_off(s: Seq<char>, w: char)
    requires
        is_white(w),
    ensures
        trimmed(seq![w] + s) == trimmed(s),
        trimmed(s + seq![w]) == trimmed(s),
        s.len() > 0 && !is_white(s.first()) && !is_white(s.last()) ==> trimmed(s) == s,
        trimmed(Seq::empty()) == Seq::<char>::empty(),
{
    assert((seq![w] + s).drop_first() =~= s);
    lemma_trimmed_start_push(s, w);
}

proof fn lemma_trimmed_start_push(s: Seq<char>, w: char)
    requires
        is_white(w),
    ensures
        trimmed_end(trimmed_start(s.push(w))) == trimmed_end(trimmed_start(s)),
        s.push(w) == s + seq![w],
    decreases s.len(),
{
    assert(s.push(w) =~= s + seq![w]);
    if s.len() == 0 {
        assert(s.push(w).drop_first() =~= s);
        assert(s =~= Seq::empty());
    } else if is_white(s.first()) {
        lemma_trimmed_start_push(s.drop_first(), w);
        assert(s.push(w).drop_first() =~= s.drop_first().push(w));
    } else {
        assert(s.push(w).drop_last() =~= s);
    }
}

/// A prefix comes off as often as it stands there, and nothing else does.
pub proof fn law_prefixes_come_off(s: Seq<char>, prefix: Seq<char>)
    requires
        prefix.len() > 0,
    ensures
        without_prefixes(prefix + s, prefix) == without_prefixes(s, prefix),
        !prefix.is_prefix_of(s) ==> without_prefixes(s, prefix) == s,
{
    assert((prefix + s).subrange(0, prefix.len() as int) =~= prefix);
    assert((prefix + s).skip(prefix.len() as int) =~= s);
}

/// Joining puts the separator between neighbours and nowhere else.
pub proof fn law_joining_parts(p: Seq<Seq<char>>, q: Seq<Seq<char>>, sep: Seq<char>)
    ensures
        p.len() > 0 && q.len() > 0 ==> joined(p + q, sep) == joined(p, sep) + sep + joined(q, sep),
        p.len() == 1 ==> joined(p, sep) == p[0],
        p.len() == 0 ==> joined(p, sep) == Seq::<char>::empty(),
    decreases q.len(),
{
    if p.len() > 0 && q.len() > 0 {
        assert((p + q).drop_last() =~= p + q.drop_last());
        if q.len() > 1 {
            law_joining_parts(p, q.drop_last(), sep);
            assert(joined(p + q, sep) =~= joined(p, sep) + sep + joined(q, sep));
        } else {
            assert(q.drop_last() =~= Seq::empty());
            assert(p + q.drop_last() =~= p);
        }
    }
}

/// A text that is cut short is a beginning of it, as long as it may be.
pub proof fn law_beginning_of_text(s: Seq<char>, n: nat)
    ensures
        at_most(s, n).is_prefix_of(s),
        at_most(s, n).len() == if s.len() < n {
            s.len()
        } else {
            n
        },
{
}

/// Texts are ordered by the first character in which they differ; one that ends before
/// comes first.
pub proof fn law_order_of_texts(p: Seq<char>, a: char, x: Seq<char>, b: char, y: Seq<char>)
    ensures
        a < b ==> no_later(p + seq![a] + x, p + seq![b] + y) && !no_later(
            p + seq![b] + y,
            p + seq![a] + x,
        ),
        no_later(p, p + x),
        x.len() > 0 ==> !no_later(p + x, p),
    decreases p.len(),
{
    if p.len() > 0 {
        let r = p.drop_first();
        law_order_of_texts(r, a, x, b, y);
        assert((p + seq![a] + x).drop_first() =~= r + seq![a] + x);
        assert((p + seq![b] + y).drop_first() =~= r + seq![b] + y);
        assert((p + x).drop_first() =~= r + x);
        assert(p + x =~= p + x);
    }
}

/// A list in order holds the same texts, none of them before an earlier one.
pub proof fn law_lists_in_order(list: Seq<Seq<char>>, s: Seq<char>, i: int, j: int)
    ensures
        ({
            let sorted = in_code_order(list);
            &&& sorted.len() == list.len()
            &&& sorted.contains(s) <==> list.contains(s)
            &&& sorted.to_multiset() == list.to_multiset()
            &&& 0 <= i < j < sorted.len() ==> no_later(sorted[i], sorted[j])
        }),
{
    broadcast use vstd::seq_lib::group_to_multiset_ensures;

    law_order_keeps_strings(list);
    let sorted = in_code_order(list);
    assert(sorted.to_multiset().len() == sorted.len() && list.to_multiset().len() == list.len());
    if 0 <= i < j < sorted.len() {
        assert(crate::text::code_order()(sorted[i], sorted[j]));
    }
}

} // verus!
