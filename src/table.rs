//! The exact byte classification table and the replacement texts.
use vstd::prelude::*;
use vstd::utf8::{valid_utf8, decode_utf8};
use crate::pair::{Pair, bytes_of, strictly_sorted};

verus! {

/// Entry `t` of the table is right for byte `b`: the position of the pair
/// that escapes `b`, or `s.len()` when no pair does.
pub open spec fn classifies(s: Seq<u8>, b: u8, t: int) -> bool {
    ||| (0 <= t < s.len() && s[t] == b)
    ||| (t == s.len() && forall|i: int| 0 <= i < s.len() ==> s[i] != b)
}

/// Every replacement text of `pairs` is valid UTF-8.
pub open spec fn quotes_valid(pairs: Seq<Pair>) -> bool {
    forall|i: int| 0 <= i < pairs.len() ==> valid_utf8(#[trigger] pairs[i].quote@)
}

/// Relies on std::str::from_utf8: it accepts exactly the valid UTF-8 byte
/// sequences, and the text it gives back is what they decode to.
#[verifier::external_body]
fn utf8_text(b: &[u8]) -> (r: Option<String>)
    ensures
        r is Some <==> valid_utf8(b@),
        r is Some ==> r.unwrap()@ == decode_utf8(b@),
{
    std::str::from_utf8(b).ok().map(|t| t.to_string())
}

/// The position of the pair whose byte is `b`, or `pairs.len()` when none is.
pub fn find_index(pairs: &[Pair], b: u8) -> (r: usize)
    requires
        strictly_sorted(bytes_of(pairs@)),
    ensures
        classifies(bytes_of(pairs@), b, r as int),
{
    let ghost s = bytes_of(pairs@);
    let n = pairs.len();
    let mut lo: usize = 0;
    let mut hi: usize = n;
    while lo < hi
        invariant
            s == bytes_of(pairs@),
            n == pairs@.len(),
            strictly_sorted(s),
            lo <= hi <= n,
            forall|i: int| 0 <= i < lo ==> s[i] < b,
            forall|i: int| hi <= i < n ==> s[i] > b,
        decreases hi - lo,
    {
        let mid = lo + (hi - lo) / 2;
        let c = pairs[mid].ch;
        assert(s[mid as int] == c);
        if c < b {
            assert forall|i: int| 0 <= i < mid + 1 implies s[i] < b by {
                if i < mid {
                    assert(s[i] < s[mid as int]);
                }
            }
            lo = mid + 1;
        } else if c > b {
            assert forall|i: int| mid <= i < n implies s[i] > b by {
                if i > mid {
                    assert(s[mid as int] < s[i]);
                }
            }
            hi = mid;
        } else {
            return mid;
        }
    }
    n
}

/// For every byte, the position of the pair that escapes it, or
/// `pairs.len()` for a byte that passes through unchanged.
pub fn classify_table(pairs: &[Pair]) -> (r: Vec<usize>)
    requires
        strictly_sorted(bytes_of(pairs@)),
    ensures
        r@.len() == 256,
        forall|b: int| 0 <= b < 256 ==> classifies(bytes_of(pairs@), b as u8, #[trigger] r@[b] as int),
{
    let mut t: Vec<usize> = Vec::new();
    let mut b: usize = 0;
    while b < 256
        invariant
            strictly_sorted(bytes_of(pairs@)),
            b <= 256,
            t@.len() == b,
            forall|x: int| 0 <= x < b ==> classifies(bytes_of(pairs@), x as u8, #[trigger] t@[x] as int),
        decreases 256 - b,
    {
        let k = find_index(pairs, b as u8);
        t.push(k);
        b = b + 1;
    }
    t
}

/// The replacement texts, in the order of the pairs; `None` when one of
/// them is not valid UTF-8.
pub fn quotes(pairs: &[Pair]) -> (r: Option<Vec<String>>)
    ensures
        r is Some <==> quotes_valid(pairs@),
        r is Some ==> r.unwrap()@.len() == pairs@.len() && forall|i: int|
            0 <= i < pairs@.len() ==> #[trigger] r.unwrap()@[i]@ == decode_utf8(pairs@[i].quote@),
{
    let mut out: Vec<String> = Vec::new();
    let mut i: usize = 0;
    while i < pairs.len()
        invariant
            i <= pairs@.len(),
            out@.len() == i,
            forall|j: int| 0 <= j < i ==> valid_utf8(#[trigger] pairs@[j].quote@),
            forall|j: int| 0 <= j < i ==> #[trigger] out@[j]@ == decode_utf8(pairs@[j].quote@),
        decreases pairs@.len() - i,
    {
        match utf8_text(pairs[i].quote.as_slice()) {
            Some(q) => out.push(q),
            None => return None,
        }
        i = i + 1;
    }
    Some(out)
}

} // verus!
