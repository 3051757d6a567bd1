use vstd::prelude::*;
use vstd::slice::slice_to_vec;

verus! {

/// One escape rule: the byte `ch` is replaced by the bytes of `quote`.
pub struct Pair {
    pub ch: u8,
    pub quote: Vec<u8>,
}

impl Pair {
    pub fn new(ch: u8, quote: &[u8]) -> (r: Pair)
        ensures
            r.ch == ch,
            r.quote@ == quote@,
    {
        Pair { ch, quote: slice_to_vec(quote) }
    }
}

/// The escape bytes of `pairs`, in order.
pub open spec fn bytes_of(pairs: Seq<Pair>) -> Seq<u8> {
    pairs.map_values(|p: Pair| p.ch)
}

/// Strictly ascending, hence also free of duplicates.
pub open spec fn strictly_sorted(s: Seq<u8>) -> bool {
    forall|i: int, j: int| 0 <= i < j < s.len() ==> s[i] < s[j]
}

} // verus!
