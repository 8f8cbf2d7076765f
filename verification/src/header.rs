//! The request-head model: an ordered list of header fields, each a name
//! and a value, both plain bytes, and case-insensitive lookup over it.

use vstd::prelude::*;
use crate::bytes::{lower_seq, eq_ignore_case};

verus! {

/// One header field of a request head.
pub struct Header {
    pub name: Vec<u8>,
    pub value: Vec<u8>,
}

/// The mathematical model of a header list: a sequence of
/// (name bytes, value bytes) pairs, in wire order.
pub open spec fn hmodel(hs: Seq<Header>) -> Seq<(Seq<u8>, Seq<u8>)> {
    Seq::new(hs.len(), |i: int| (hs[i].name@, hs[i].value@))
}

/// The value of the first header whose name equals `name` up to ASCII
/// case, or `None` when no header has that name.
pub open spec fn header_value(hs: Seq<(Seq<u8>, Seq<u8>)>, name: Seq<u8>) -> Option<Seq<u8>>
    decreases hs.len(),
{
    if hs.len() == 0 {
        None
    } else if lower_seq(hs[0].0) == lower_seq(name) {
        Some(hs[0].1)
    } else {
        header_value(hs.drop_first(), name)
    }
}

/// Finds the first header named `name`, compared case-insensitively,
/// and returns a reference to its value.
pub fn find_header<'a>(headers: &'a Vec<Header>, name: &[u8]) -> (r: Option<&'a Vec<u8>>)
    ensures
        match r {
            Some(v) => header_value(hmodel(headers@), name@) == Some(v@),
            None => header_value(hmodel(headers@), name@) is None,
        },
{
    let ghost hm = hmodel(headers@);
    proof {
        assert(hm.skip(0) =~= hm);
    }
    let mut i: usize = 0;
    while i < headers.len()
        invariant
            hm == hmodel(headers@),
            i <= headers@.len(),
            hm.len() == headers@.len(),
            header_value(hm, name@) == header_value(hm.skip(i as int), name@),
            i < headers@.len() ==> hm.skip(i as int)[0] == hm[i as int],
        decreases headers@.len() - i,
    {
        let h = &headers[i];
        if eq_ignore_case(h.name.as_slice(), name) {
            proof {
                assert(hm[i as int].1 == h.value@);
            }
            return Some(&h.value);
        }
        proof {
            assert(hm.skip(i as int).drop_first() =~= hm.skip(i + 1));
        }
        i = i + 1;
        proof {
            if i < headers@.len() {
                assert(hm.skip(i as int)[0] == hm[i as int]);
            }
        }
    }
    proof {
        assert(hm.skip(i as int).len() == 0);
    }
    None
}

} // verus!
