//! Normalisation of the links found in the site's markup.

use vstd::prelude::*;
use vstd::std_specs::iter::IteratorSpec;
use vstd::string::*;

verus! {

/// The scheme put in front of a protocol-relative link.
pub open spec fn scheme_prefix() -> Seq<char> {
    seq!['h', 't', 't', 'p', ':']
}

/// Whether a link is protocol-relative: it begins with two slashes.
pub open spec fn is_protocol_relative(url: Seq<char>) -> bool {
    url.len() >= 2 && url[0] == '/' && url[1] == '/'
}

/// The absolute form of a link: a protocol-relative link gets the scheme in
/// front, any other link stays as it is.
pub open spec fn normalized(url: Seq<char>) -> Seq<char> {
    if is_protocol_relative(url) {
        scheme_prefix() + url
    } else {
        url
    }
}

/// Rewrites a protocol-relative link (`//host/path`) into an absolute one and
/// hands every other link back unchanged.
pub fn prepend_https(url: &str) -> (out: String)
    ensures
        out@ == normalized(url@),
{
    let mut chars = url.chars();
    let first = chars.next();
    let second = chars.next();
    let relative = match (first, second) {
        (Some(a), Some(b)) => a == '/' && b == '/',
        _ => false,
    };
    if relative {
        let scheme = "http:";
        proof {
            reveal_strlit("http:");
            assert(scheme@ =~= scheme_prefix());
        }
        String::from_str(scheme).concat(url)
    } else {
        String::from_str(url)
    }
}

} // verus!
