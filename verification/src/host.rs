//! Host names as they stand in addresses.

use vstd::prelude::*;
#[allow(unused_imports)]
use vstd::string::*;

verus! {

/// A host without the brackets round an IPv6 address: one at the front and one
/// at the back, each where there is one.
pub open spec fn stripped(host: Seq<char>) -> Seq<char> {
    let h = if host.len() > 0 && host[0] == '[' {
        host.drop_first()
    } else {
        host
    };
    if h.len() > 0 && h.last() == ']' {
        h.drop_last()
    } else {
        h
    }
}

/// Takes the brackets off an IPv6 address.
pub fn ipv6_stripped(host: &str) -> (h: &str)
    ensures
        h@ == stripped(host@),
{
    let len: usize = host.unicode_len();
    let start: usize = if len > 0 && host.get_char(0) == '[' {
        1
    } else {
        0
    };
    let end: usize = if len > start && host.get_char(len - 1) == ']' {
        len - 1
    } else {
        len
    };
    let h = host.substring_char(start, end);
    assert(h@ =~= stripped(host@));
    h
}

/// One bracket comes off at each end where there is one, and nothing else does.
pub proof fn law_brackets_come_off(h: Seq<char>)
    ensures
        stripped((seq!['['] + h).push(']')) == h,
        h.len() == 0 || h.last() != ']' ==> stripped(seq!['['] + h) == h,
        h.len() == 0 || h[0] != '[' ==> stripped(h.push(']')) == h,
        h.len() == 0 || (h[0] != '[' && h.last() != ']') ==> stripped(h) == h,
{
    assert((seq!['['] + h).drop_first() =~= h);
    assert(h.push(']').drop_last() =~= h);
    assert((seq!['['] + h).push(']').drop_first() =~= h.push(']'));
}

} // verus!
