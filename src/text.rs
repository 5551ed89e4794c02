//! Text decoded out of on-disk bytes.
use vstd::prelude::*;
use vstd::utf8::{decode_utf8, valid_utf8};

verus! {

/// Relies on `std::str::from_utf8`: it accepts exactly the well-formed UTF-8
/// sequences, and the string it yields holds the characters they encode.
#[verifier::external_body]
pub(crate) fn utf8_string(b: &[u8]) -> (r: Option<String>)
    ensures
        r is Some <==> valid_utf8(b@),
        r matches Some(s) ==> s@ == decode_utf8(b@),
{
    std::str::from_utf8(b).ok().map(|s| s.to_string())
}

/// `b` without the zero bytes at its end.
pub open spec fn trim_zeros(b: Seq<u8>) -> Seq<u8>
    decreases b.len(),
{
    if b.len() > 0 && b.last() == 0 {
        trim_zeros(b.drop_last())
    } else {
        b
    }
}

/// How many bytes of `b[..end]` remain once its trailing zero bytes are cut.
pub fn trimmed_len(b: &[u8], end: usize) -> (r: usize)
    requires
        end <= b@.len(),
    ensures
        r <= end,
        b@.subrange(0, r as int) == trim_zeros(b@.subrange(0, end as int)),
{
    let mut keep = end;
    while keep > 0 && b[keep - 1] == 0
        invariant
            keep <= end <= b@.len(),
            trim_zeros(b@.subrange(0, end as int)) == trim_zeros(b@.subrange(0, keep as int)),
        decreases keep,
    {
        assert(b@.subrange(0, keep as int).drop_last() =~= b@.subrange(0, keep - 1));
        keep -= 1;
    }
    assert(b@.subrange(0, keep as int) == trim_zeros(b@.subrange(0, keep as int)));
    keep
}

} // verus!
