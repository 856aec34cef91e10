//! Laws of the workers' addresses.
use vstd::prelude::*;

use crate::address::{normalized, shown_address};
use crate::laws::text::law_prefixes_come_off;
use crate::text::trimmed;

verus! {

/// An address with a scheme keeps it, whichever of the two it is, and any other gets the
/// plain one; white space around it is left out.
pub proof fn law_addresses_have_one_scheme(addr: Seq<char>)
    ensures
        ({
            let a = trimmed(addr);
            let given = "http://"@.is_prefix_of(a) || "https://"@.is_prefix_of(a);
            &&& given ==> normalized(addr) == a
            &&& !given ==> normalized(addr) == "http://"@ + a
        }),
{
}

/// A host is shown without its scheme, whichever of the two it is, and otherwise in full.
pub proof fn law_hosts_are_shown_without_scheme(host: Seq<char>)
    requires
        !"http://"@.is_prefix_of(host),
        !"https://"@.is_prefix_of(host),
    ensures
        shown_address("http://"@ + host) == host,
        shown_address("https://"@ + host) == host,
        shown_address(host) == host,
{
    let plain = "http://"@;
    let safe = "https://"@;
    reveal_strlit("http://");
    reveal_strlit("https://");
    law_prefixes_come_off(host, plain);
    law_prefixes_come_off(host, safe);
    let full = safe + host;
    assert(!plain.is_prefix_of(full)) by {
        if plain.is_prefix_of(full) {
            assert(full.subrange(0, plain.len() as int)[4] == plain[4]);
            assert(full[4] == 's');
        }
    }
    law_prefixes_come_off(full, plain);
}

} // verus!
