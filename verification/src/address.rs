//! The addresses of the workers.
use vstd::prelude::*;

use crate::text::{
    begins, cut_at, is_white, split, strip_prefixes, texts, trim, trimmed, trimmed_end,
    trimmed_start, without_prefixes,
};

verus! {

/// Whether an address says how to connect.
pub open spec fn has_scheme(addr: Seq<char>) -> bool {
    "http://"@.is_prefix_of(addr) || "https://"@.is_prefix_of(addr)
}

/// An address without the white space around it, with a scheme in front if it had none.
pub open spec fn normalized(addr: Seq<char>) -> Seq<char> {
    let a = trimmed(addr);
    if has_scheme(a) {
        a
    } else {
        "http://"@ + a
    }
}

/// What an address is shown as: without its scheme.
pub open spec fn shown_address(addr: Seq<char>) -> Seq<char> {
    without_prefixes(without_prefixes(addr, "http://"@), "https://"@)
}

/// Taking white space off both ends leaves none at either.
proof fn lemma_trimmed_ends(s: Seq<char>)
    ensures
        trimmed(s).len() > 0 ==> !is_white(trimmed(s).first()) && !is_white(trimmed(s).last()),
{
    lemma_trimmed_start(s);
    lemma_trimmed_end(trimmed_start(s));
}

proof fn lemma_trimmed_start(s: Seq<char>)
    ensures
        trimmed_start(s).len() > 0 ==> !is_white(trimmed_start(s).first()),
    decreases s.len(),
{
    if s.len() > 0 && is_white(s.first()) {
        lemma_trimmed_start(s.drop_first());
    }
}

proof fn lemma_trimmed_end(s: Seq<char>)
    ensures
        trimmed_end(s).len() > 0 ==> !is_white(trimmed_end(s).last()) && trimmed_end(s).first()
            == s.first(),
    decreases s.len(),
{
    if s.len() > 0 && is_white(s.last()) {
        lemma_trimmed_end(s.drop_last());
    }
}

/// The text has a scheme and stands without white space around it.
pub proof fn law_normalized_has_scheme(addr: Seq<char>)
    ensures
        has_scheme(normalized(addr)),
        trimmed(normalized(addr)) == normalized(addr),
{
    let a = trimmed(addr);
    let n = normalized(addr);
    lemma_trimmed_ends(addr);
    reveal_strlit("http://");
    reveal_strlit("https://");
    if !has_scheme(a) {
        assert(n.subrange(0, "http://"@.len() as int) =~= "http://"@);
        assert(!is_white('h') && !is_white('/'));
        assert(n.first() == 'h');
        if a.len() > 0 {
            assert(n.last() == a.last());
        } else {
            assert(n.last() == '/');
        }
    } else {
        assert(a.len() > 0);
    }
    assert(trimmed_start(n) == n);
}

/// An address that has been taken care of once stays as it is.
pub proof fn law_normalize_twice(addr: Seq<char>)
    ensures
        normalized(normalized(addr)) == normalized(addr),
{
    law_normalized_has_scheme(addr);
}

/// An address that was given without a scheme is shown as it was given.
pub proof fn law_scheme_is_not_shown(addr: Seq<char>)
    requires
        !has_scheme(trimmed(addr)),
    ensures
        shown_address(normalized(addr)) == trimmed(addr),
{
    let a = trimmed(addr);
    let n = normalized(addr);
    let scheme = "http://"@;
    reveal_strlit("http://");
    assert(n.subrange(0, scheme.len() as int) =~= scheme);
    assert(scheme.is_prefix_of(n));
    assert(n.skip(scheme.len() as int) =~= a);
    assert(without_prefixes(a, scheme) == a);
    assert(without_prefixes(n, scheme) == a);
}

/// An address without the white space around it, with a scheme in front if it had none.
pub fn normalize(addr: &str) -> (r: String)
    ensures
        r@ == normalized(addr@),
{
    let a = trim(addr);
    if begins(a.as_str(), "http://") || begins(a.as_str(), "https://") {
        a
    } else {
        let mut out = "http://".to_string();
        out.append(a.as_str());
        out
    }
}

/// The addresses in a list with commas between them.
pub fn addresses(list: &str) -> (r: Vec<String>)
    ensures
        texts(r@) == cut_at(list@, ',').map_values(|a: Seq<char>| normalized(a)),
        r.len() > 0,
{
    let pieces = split(list, ',');
    let ghost all = texts(pieces@);
    let mut out: Vec<String> = Vec::new();
    let mut i: usize = 0;
    while i < pieces.len()
        invariant
            i <= pieces.len(),
            all == texts(pieces@),
            out.len() == i,
            forall|k: int| 0 <= k < i ==> (#[trigger] out@[k])@ == normalized(all[k]),
        decreases pieces.len() - i,
    {
        out.push(normalize(pieces[i].as_str()));
        i = i + 1;
    }
    assert(texts(out@) =~= all.map_values(|a: Seq<char>| normalized(a)));
    out
}

/// What an address is shown as.
pub fn host_label(addr: &str) -> (r: String)
    ensures
        r@ == shown_address(addr@),
{
    strip_prefixes(strip_prefixes(addr, "http://").as_str(), "https://")
}

} // verus!
