//! Strings as sequences of characters: cutting, trimming, joining and comparing.
use vstd::prelude::*;
use vstd::relations::{
    antisymmetric, reflexive, sorted_by, strongly_connected, total_ordering, transitive,
};

verus! {

/// `String::push` appends one character to the end of the string.
pub assume_specification[ String::push ](s: &mut String, ch: char)
    ensures
        final(s)@ == old(s)@.push(ch),
;

/// The contents of a list of strings.
pub open spec fn texts(list: Seq<String>) -> Seq<Seq<char>> {
    list.map_values(|s: String| s@)
}

/// The pieces of `s` between the items that `sep` picks, empty pieces included.
/// There is always at least one piece.
pub open spec fn cut<T>(s: Seq<T>, sep: spec_fn(T) -> bool) -> Seq<Seq<T>>
    decreases s.len(),
{
    if s.len() == 0 {
        seq![Seq::empty()]
    } else {
        let before = cut(s.drop_last(), sep);
        if sep(s.last()) {
            before.push(Seq::empty())
        } else {
            before.drop_last().push(before.last().push(s.last()))
        }
    }
}

/// The test for being `c`.
pub open spec fn only(c: char) -> spec_fn(char) -> bool {
    |x: char| x == c
}

/// The pieces of `s` between the occurrences of `c`.
pub open spec fn cut_at(s: Seq<char>, c: char) -> Seq<Seq<char>> {
    cut(s, only(c))
}

/// The non-empty pieces of a list.
pub open spec fn filled<T>(pieces: Seq<Seq<T>>) -> Seq<Seq<T>> {
    pieces.filter(|p: Seq<T>| p.len() > 0)
}

/// The characters with the Unicode property White_Space.
pub open spec fn is_white(c: char) -> bool {
    let u = c as int;
    ||| 0x9 <= u <= 0xd
    ||| u == 0x20
    ||| u == 0x85
    ||| u == 0xa0
    ||| u == 0x1680
    ||| 0x2000 <= u <= 0x200a
    ||| u == 0x2028
    ||| u == 0x2029
    ||| u == 0x202f
    ||| u == 0x205f
    ||| u == 0x3000
}

/// The words of `s`: its longest runs without white space.
pub open spec fn words_of(s: Seq<char>) -> Seq<Seq<char>> {
    filled(cut(s, |c: char| is_white(c)))
}

/// `s` without one carriage return at its end.
pub open spec fn without_cr(s: Seq<char>) -> Seq<char> {
    if s.len() > 0 && s.last() == '\r' {
        s.drop_last()
    } else {
        s
    }
}

/// The lines of `s`, each ended by a line feed or by a carriage return and a line
/// feed; the end of the last line may be missing, and then it keeps a carriage return.
pub open spec fn lines_of(s: Seq<char>) -> Seq<Seq<char>> {
    let pieces = cut_at(s, '\n');
    let ended = pieces.drop_last().map_values(|p: Seq<char>| without_cr(p));
    if pieces.last().len() == 0 {
        ended
    } else {
        ended.push(pieces.last())
    }
}

/// `s` without its leading white space.
pub open spec fn trimmed_start(s: Seq<char>) -> Seq<char>
    decreases s.len(),
{
    if s.len() > 0 && is_white(s.first()) {
        trimmed_start(s.drop_first())
    } else {
        s
    }
}

/// `s` without its trailing white space.
pub open spec fn trimmed_end(s: Seq<char>) -> Seq<char>
    decreases s.len(),
{
    if s.len() > 0 && is_white(s.last()) {
        trimmed_end(s.drop_last())
    } else {
        s
    }
}

/// `s` without the white space around it.
pub open spec fn trimmed(s: Seq<char>) -> Seq<char> {
    trimmed_end(trimmed_start(s))
}

/// `s` with `prefix` taken off its front as often as it stands there.
pub open spec fn without_prefixes(s: Seq<char>, prefix: Seq<char>) -> Seq<char>
    decreases s.len(),
{
    if prefix.len() > 0 && prefix.is_prefix_of(s) {
        without_prefixes(s.skip(prefix.len() as int), prefix)
    } else {
        s
    }
}

/// The parts one after another with `sep` between neighbours.
pub open spec fn joined(parts: Seq<Seq<char>>, sep: Seq<char>) -> Seq<char>
    decreases parts.len(),
{
    if parts.len() == 0 {
        Seq::empty()
    } else if parts.len() == 1 {
        parts[0]
    } else {
        joined(parts.drop_last(), sep) + sep + parts.last()
    }
}

/// The first `n` characters of `s`, or all of them.
pub open spec fn at_most(s: Seq<char>, n: nat) -> Seq<char> {
    if s.len() <= n {
        s
    } else {
        s.take(n as int)
    }
}

/// Whether `a` comes no later than `b` when characters are compared by code point.
pub open spec fn no_later(a: Seq<char>, b: Seq<char>) -> bool
    decreases a.len(),
{
    if a.len() == 0 {
        true
    } else if b.len() == 0 {
        false
    } else if a[0] != b[0] {
        a[0] < b[0]
    } else {
        no_later(a.drop_first(), b.drop_first())
    }
}

/// The order of strings by code point.
pub open spec fn code_order() -> spec_fn(Seq<char>, Seq<char>) -> bool {
    |a: Seq<char>, b: Seq<char>| no_later(a, b)
}

/// Whether `t` holds the strings of `list` in the order of their code points.
pub open spec fn is_sorted_copy(t: Seq<Seq<char>>, list: Seq<Seq<char>>) -> bool {
    &&& sorted_by(t, code_order())
    &&& t.to_multiset() == list.to_multiset()
}

/// The strings of `list` in the order of their code points.
pub open spec fn in_code_order(list: Seq<Seq<char>>) -> Seq<Seq<char>> {
    choose|t: Seq<Seq<char>>| is_sorted_copy(t, list)
}

proof fn lemma_no_later_reflexive(a: Seq<char>)
    ensures
        no_later(a, a),
    decreases a.len(),
{
    if a.len() > 0 {
        lemma_no_later_reflexive(a.drop_first());
    }
}

proof fn lemma_no_later_antisymmetric(a: Seq<char>, b: Seq<char>)
    requires
        no_later(a, b),
        no_later(b, a),
    ensures
        a == b,
    decreases a.len(),
{
    if a.len() > 0 && b.len() > 0 {
        lemma_no_later_antisymmetric(a.drop_first(), b.drop_first());
        assert(a =~= seq![a[0]] + a.drop_first());
        assert(b =~= seq![b[0]] + b.drop_first());
    } else {
        assert(a =~= b);
    }
}

proof fn lemma_no_later_transitive(a: Seq<char>, b: Seq<char>, c: Seq<char>)
    requires
        no_later(a, b),
        no_later(b, c),
    ensures
        no_later(a, c),
    decreases a.len(),
{
    if a.len() > 0 && b.len() > 0 && c.len() > 0 && a[0] == b[0] && b[0] == c[0] {
        lemma_no_later_transitive(a.drop_first(), b.drop_first(), c.drop_first());
    }
}

proof fn lemma_no_later_connected(a: Seq<char>, b: Seq<char>)
    ensures
        no_later(a, b) || no_later(b, a),
    decreases a.len(),
{
    if a.len() > 0 && b.len() > 0 {
        lemma_no_later_connected(a.drop_first(), b.drop_first());
    }
}

/// The order by code point is total.
pub proof fn lemma_code_order_total()
    ensures
        total_ordering(code_order()),
{
    let r = code_order();
    assert(reflexive(r)) by {
        assert forall|a: Seq<char>| #[trigger] r(a, a) by {
            lemma_no_later_reflexive(a);
        }
    }
    assert(antisymmetric(r)) by {
        assert forall|a: Seq<char>, b: Seq<char>| #[trigger] r(a, b) && #[trigger] r(b, a) implies a
            == b by {
            lemma_no_later_antisymmetric(a, b);
        }
    }
    assert(transitive(r)) by {
        assert forall|a: Seq<char>, b: Seq<char>, c: Seq<char>| #[trigger]
            r(a, b) && #[trigger] r(b, c) implies r(a, c) by {
            lemma_no_later_transitive(a, b, c);
        }
    }
    assert(strongly_connected(r)) by {
        assert forall|a: Seq<char>, b: Seq<char>| #[trigger] r(a, b) || #[trigger] r(b, a) by {
            lemma_no_later_connected(a, b);
        }
    }
}

/// There is only one way to put strings in order.
pub proof fn lemma_in_code_order(t: Seq<Seq<char>>, list: Seq<Seq<char>>)
    requires
        is_sorted_copy(t, list),
    ensures
        in_code_order(list) == t,
{
    lemma_code_order_total();
    let c = in_code_order(list);
    assert(is_sorted_copy(c, list));
    vstd::seq_lib::lemma_sorted_unique(c, t, code_order());
}

/// Any list of strings can be put in order, with the same strings in it.
pub proof fn law_order_keeps_strings(list: Seq<Seq<char>>)
    ensures
        is_sorted_copy(in_code_order(list), list),
        forall|s: Seq<char>| #[trigger] in_code_order(list).contains(s) <==> list.contains(s),
{
    broadcast use vstd::seq_lib::group_to_multiset_ensures;

    lemma_code_order_total();
    list.lemma_sort_by_ensures(code_order());
    let t = list.sort_by(code_order());
    assert(is_sorted_copy(t, list));
    assert forall|s: Seq<char>| #[trigger] in_code_order(list).contains(s) <==> list.contains(s) by {
        assert(in_code_order(list).contains(s) <==> in_code_order(list).to_multiset().count(s) > 0);
        assert(list.contains(s) <==> list.to_multiset().count(s) > 0);
    }
}

/// The characters of `s`.
pub fn chars_of(s: &str) -> (v: Vec<char>)
    ensures
        v@ == s@,
{
    let mut v: Vec<char> = Vec::new();
    for c in it: s.chars()
        invariant
            v@ == it.seq().take(it.index() as int),
            it.seq() == s@,
    {
        v.push(c);
    }
    v
}

/// The characters of `v` from `from` up to `to`, as a string.
pub fn part(v: &Vec<char>, from: usize, to: usize) -> (s: String)
    requires
        from <= to <= v.len(),
    ensures
        s@ == v@.subrange(from as int, to as int),
{
    let mut s = String::new();
    let mut i: usize = from;
    while i < to
        invariant
            from <= i <= to <= v.len(),
            s@ == v@.subrange(from as int, i as int),
        decreases to - i,
    {
        s.push(v[i]);
        i = i + 1;
    }
    s
}

/// Whether two strings hold the same characters.
pub fn same(a: &str, b: &str) -> (r: bool)
    ensures
        r == (a@ == b@),
{
    a.to_owned() == b.to_owned()
}

/// Whether `c` is white space.
pub fn white(c: char) -> (r: bool)
    ensures
        r == is_white(c),
{
    let u: u32 = c as u32;
    (0x9 <= u && u <= 0xd) || u == 0x20 || u == 0x85 || u == 0xa0 || u == 0x1680 || (0x2000 <= u
        && u <= 0x200a) || u == 0x2028 || u == 0x2029 || u == 0x202f || u == 0x205f || u == 0x3000
}

/// The pieces of `s` between the occurrences of `c`.
pub fn split(s: &str, c: char) -> (r: Vec<String>)
    ensures
        texts(r@) == cut_at(s@, c),
        r.len() > 0,
{
    let mut out: Vec<String> = Vec::new();
    let mut piece = String::new();
    let ghost sep = only(c);
    for ch in it: s.chars()
        invariant
            it.seq() == s@,
            sep == only(c),
            texts(out@).push(piece@) == cut(s@.take(it.index() as int), sep),
    {
        let ghost seen = s@.take(it.index() as int + 1);
        assert(seen.drop_last() =~= s@.take(it.index() as int));
        let ghost before = texts(out@).push(piece@);
        assert(before.drop_last() =~= texts(out@));
        if ch == c {
            let ghost done = piece@;
            out.push(piece);
            assert(texts(out@) =~= before);
            piece = String::new();
        } else {
            piece.push(ch);
        }
    }
    assert(s@.take(s@.len() as int) =~= s@);
    let ghost all = texts(out@).push(piece@);
    out.push(piece);
    assert(texts(out@) =~= all);
    out
}

/// What one more piece adds to the non-empty ones.
pub proof fn lemma_filled_push<T>(pieces: Seq<Seq<T>>, p: Seq<T>)
    ensures
        filled(pieces.push(p)) == if p.len() > 0 {
            filled(pieces).push(p)
        } else {
            filled(pieces)
        },
{
    reveal(Seq::filter);
    assert(pieces.push(p).drop_last() =~= pieces);
}

/// The words of `s`.
pub fn words(s: &str) -> (r: Vec<String>)
    ensures
        texts(r@) == words_of(s@),
{
    let mut out: Vec<String> = Vec::new();
    let mut piece = String::new();
    let ghost sep = |x: char| is_white(x);
    let ghost mut pieces: Seq<Seq<char>> = Seq::empty();
    proof {
        reveal(Seq::filter);
        assert(texts(out@) =~= filled(pieces));
    }
    for ch in it: s.chars()
        invariant
            it.seq() == s@,
            sep == (|x: char| is_white(x)),
            texts(out@) == filled(pieces),
            pieces.push(piece@) == cut(s@.take(it.index() as int), sep),
    {
        let ghost seen = s@.take(it.index() as int + 1);
        assert(seen.drop_last() =~= s@.take(it.index() as int));
        assert(pieces.push(piece@).drop_last() =~= pieces);
        if white(ch) {
            proof {
                lemma_filled_push(pieces, piece@);
                pieces = pieces.push(piece@);
            }
            if !piece.as_str().is_empty() {
                let ghost earlier = texts(out@);
                let ghost done = piece@;
                out.push(piece);
                assert(texts(out@) =~= earlier.push(done));
            }
            piece = String::new();
        } else {
            piece.push(ch);
        }
    }
    assert(s@.take(s@.len() as int) =~= s@);
    proof {
        lemma_filled_push(pieces, piece@);
    }
    if !piece.as_str().is_empty() {
        let ghost earlier = texts(out@);
        let ghost done = piece@;
        out.push(piece);
        assert(texts(out@) =~= earlier.push(done));
    }
    out
}

/// The lines of `s`.
pub fn lines(s: &str) -> (r: Vec<String>)
    ensures
        texts(r@) == lines_of(s@),
{
    let mut pieces: Vec<String> = split(s, '\n');
    let ghost all = texts(pieces@);
    let mut out: Vec<String> = Vec::new();
    let ended: usize = pieces.len() - 1;
    let mut i: usize = 0;
    while i < ended
        invariant
            i <= ended,
            ended == pieces.len() - 1,
            all == texts(pieces@),
            texts(out@) == all.take(i as int).map_values(|p: Seq<char>| without_cr(p)),
        decreases ended - i,
    {
        let cs = chars_of(pieces[i].as_str());
        let n: usize = cs.len();
        let line = if n > 0 && cs[n - 1] == '\r' {
            part(&cs, 0, n - 1)
        } else {
            part(&cs, 0, n)
        };
        assert(all[i as int] == cs@);
        assert(line@ =~= without_cr(all[i as int]));
        let ghost earlier = texts(out@);
        let ghost done = line@;
        out.push(line);
        assert(texts(out@) =~= earlier.push(done));
        assert(all.take(i + 1) =~= all.take(i as int).push(all[i as int]));
        assert(texts(out@) =~= all.take(i + 1).map_values(|p: Seq<char>| without_cr(p)));
        i = i + 1;
    }
    assert(all.take(ended as int) =~= all.drop_last());
    if !pieces[ended].as_str().is_empty() {
        let ghost earlier = texts(out@);
        let last = pieces[ended].clone();
        assert(all.last() == last@);
        out.push(last);
        assert(texts(out@) =~= earlier.push(all.last()));
    } else {
        assert(all.last() == pieces[ended as int]@);
    }
    out
}

/// `s` without the white space around it.
pub fn trim(s: &str) -> (r: String)
    ensures
        r@ == trimmed(s@),
{
    let cs = chars_of(s);
    let n: usize = cs.len();
    let mut from: usize = 0;
    assert(s@.subrange(0, n as int) =~= s@);
    while from < n && white(cs[from])
        invariant
            from <= n,
            n == cs.len(),
            cs@ == s@,
            trimmed_start(s@) == trimmed_start(s@.subrange(from as int, n as int)),
        decreases n - from,
    {
        assert(s@.subrange(from as int, n as int).drop_first() =~= s@.subrange(
            from + 1,
            n as int,
        ));
        from = from + 1;
    }
    let ghost rest = s@.subrange(from as int, n as int);
    let mut to: usize = n;
    while from < to && white(cs[to - 1])
        invariant
            from <= to <= n,
            n == cs.len(),
            cs@ == s@,
            trimmed_end(rest) == trimmed_end(s@.subrange(from as int, to as int)),
        decreases to,
    {
        assert(s@.subrange(from as int, to as int).drop_last() =~= s@.subrange(
            from as int,
            to - 1,
        ));
        to = to - 1;
    }
    part(&cs, from, to)
}

/// Whether `s` begins with `prefix`.
pub fn begins(s: &str, prefix: &str) -> (r: bool)
    ensures
        r == prefix@.is_prefix_of(s@),
{
    let cs = chars_of(s);
    let ps = chars_of(prefix);
    if cs.len() < ps.len() {
        return false;
    }
    let mut i: usize = 0;
    while i < ps.len()
        invariant
            i <= ps.len() <= cs.len(),
            cs@ == s@,
            ps@ == prefix@,
            forall|j: int| 0 <= j < i ==> cs@[j] == ps@[j],
        decreases ps.len() - i,
    {
        if cs[i] != ps[i] {
            assert(s@.subrange(0, prefix@.len() as int)[i as int] != prefix@[i as int]);
            return false;
        }
        i = i + 1;
    }
    assert(prefix@ =~= s@.subrange(0, prefix@.len() as int));
    true
}

/// What follows `prefix` in `s`, or nothing where `s` does not begin with it.
pub fn after_prefix(s: &str, prefix: &str) -> (r: Option<String>)
    ensures
        match r {
            Some(rest) => prefix@.is_prefix_of(s@) && rest@ == s@.skip(prefix@.len() as int),
            None => !prefix@.is_prefix_of(s@),
        },
{
    if begins(s, prefix) {
        let cs = chars_of(s);
        let ps = chars_of(prefix);
        Some(part(&cs, ps.len(), cs.len()))
    } else {
        None
    }
}

/// `s` with `prefix` taken off its front as often as it stands there.
pub fn strip_prefixes(s: &str, prefix: &str) -> (r: String)
    ensures
        r@ == without_prefixes(s@, prefix@),
{
    let mut rest = s.to_owned();
    if prefix.is_empty() {
        return rest;
    }
    while begins(rest.as_str(), prefix)
        invariant
            prefix@.len() > 0,
            without_prefixes(s@, prefix@) == without_prefixes(rest@, prefix@),
        decreases rest@.len(),
    {
        let cs = chars_of(rest.as_str());
        let ps = chars_of(prefix);
        rest = part(&cs, ps.len(), cs.len());
    }
    rest
}

/// The parts one after another with `sep` between neighbours.
pub fn join(parts: &Vec<String>, sep: &str) -> (r: String)
    ensures
        r@ == joined(texts(parts@), sep@),
{
    let mut out = String::new();
    let ghost all = texts(parts@);
    let mut i: usize = 0;
    while i < parts.len()
        invariant
            i <= parts.len(),
            all == texts(parts@),
            out@ == joined(all.take(i as int), sep@),
        decreases parts.len() - i,
    {
        assert(all.take(i + 1).drop_last() =~= all.take(i as int));
        if i > 0 {
            out.append(sep);
        }
        out.append(parts[i].as_str());
        assert(out@ =~= joined(all.take(i + 1), sep@));
        i = i + 1;
    }
    assert(all.take(parts.len() as int) =~= all);
    out
}

/// The first `n` characters of `s`, or all of them.
pub fn head(s: &str, n: usize) -> (r: String)
    ensures
        r@ == at_most(s@, n as nat),
{
    let cs = chars_of(s);
    if cs.len() <= n {
        s.to_owned()
    } else {
        part(&cs, 0, n)
    }
}

/// Whether `a` comes no later than `b` when characters are compared by code point.
pub fn in_order(a: &str, b: &str) -> (r: bool)
    ensures
        r == no_later(a@, b@),
{
    let x = chars_of(a);
    let y = chars_of(b);
    let mut i: usize = 0;
    assert(a@.skip(0) =~= a@);
    assert(b@.skip(0) =~= b@);
    while i < x.len() && i < y.len()
        invariant
            i <= x.len(),
            i <= y.len(),
            x@ == a@,
            y@ == b@,
            no_later(a@, b@) == no_later(a@.skip(i as int), b@.skip(i as int)),
        decreases x.len() - i,
    {
        if x[i] != y[i] {
            return x[i] < y[i];
        }
        assert(a@.skip(i as int).drop_first() =~= a@.skip(i + 1));
        assert(b@.skip(i as int).drop_first() =~= b@.skip(i + 1));
        i = i + 1;
    }
    i >= x.len()
}

/// The strings of `list` in the order of their code points.
pub fn sort(list: &Vec<String>) -> (r: Vec<String>)
    ensures
        texts(r@) == in_code_order(texts(list@)),
        is_sorted_copy(texts(r@), texts(list@)),
{
    let mut out: Vec<String> = Vec::new();
    let ghost all = texts(list@);
    let mut i: usize = 0;
    assert(texts(out@) =~= all.take(0));
    while i < list.len()
        invariant
            i <= list.len(),
            all == texts(list@),
            is_sorted_copy(texts(out@), all.take(i as int)),
        decreases list.len() - i,
    {
        let ghost sorted = texts(out@);
        let item = list[i].clone();
        let ghost text = item@;
        let mut at: usize = 0;
        while at < out.len() && in_order(out[at].as_str(), item.as_str())
            invariant
                at <= out.len(),
                sorted == texts(out@),
                text == item@,
                forall|j: int| 0 <= j < at ==> code_order()(#[trigger] sorted[j], text),
            decreases out.len() - at,
        {
            assert(sorted[at as int] == out@[at as int]@);
            at = at + 1;
        }
        proof {
            lemma_code_order_total();
            let r = code_order();
            assert forall|j: int| at <= j < sorted.len() implies r(text, #[trigger] sorted[j]) by {
                assert(sorted[at as int] == out@[at as int]@);
                assert(!r(sorted[at as int], text));
                assert(r(text, sorted[at as int]) || r(sorted[at as int], text));
                if at < j {
                    assert(r(sorted[at as int], sorted[j]));
                }
            }
        }
        out.insert(at, item);
        assert(texts(out@) =~= sorted.insert(at as int, text));
        proof {
            let r = code_order();
            let now = sorted.insert(at as int, text);
            assert forall|j: int, k: int| 0 <= j < k < now.len() implies #[trigger] r(
                now[j],
                now[k],
            ) by {
                if k < at {
                    assert(r(sorted[j], sorted[k]));
                } else if k == at {
                    assert(r(sorted[j], text));
                } else if j < at {
                    assert(r(sorted[j], sorted[k - 1]));
                } else if j == at {
                    assert(r(text, sorted[k - 1]));
                } else {
                    assert(r(sorted[j - 1], sorted[k - 1]));
                }
            }
            assert(all.take(i + 1) =~= all.take(i as int).push(text));
            broadcast use vstd::seq_lib::group_to_multiset_ensures;

            assert(now.to_multiset() =~= sorted.to_multiset().insert(text));
            assert(all.take(i + 1).to_multiset() =~= all.take(i as int).to_multiset().insert(text));
        }
        i = i + 1;
    }
    assert(all.take(list.len() as int) =~= all);
    proof {
        lemma_in_code_order(texts(out@), all);
    }
    out
}

} // verus!
