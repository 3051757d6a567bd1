//! Compaction of a sorted escape set into at most three comparison groups.
use vstd::prelude::*;
use crate::pair::{Pair, bytes_of, strictly_sorted};

verus! {

/// Marker appended to an encoding that the scanner must read as single bytes only.
pub const FLAG: u8 = 128;

/// A comparison group: every byte of `lo..=hi`, or exactly one byte.
#[derive(PartialEq, Eq, Structural, Clone, Copy, Debug)]
pub enum Group {
    Range(u8, u8),
    Singleton(u8),
}

/// The distance between the escape bytes at positions `i` and `i + 1`.
pub open spec fn gap(s: Seq<u8>, i: int) -> int {
    s[i + 1] as int - s[i] as int
}

/// Positions `i` and `i + 1` lie in different contiguous runs.
pub open spec fn is_break(s: Seq<u8>, i: int) -> bool {
    0 <= i < s.len() - 1 && gap(s, i) > 1
}

/// Break `i` is preferred to break `j`: a wider gap, or the same width and earlier.
pub open spec fn wider(s: Seq<u8>, i: int, j: int) -> bool {
    gap(s, i) > gap(s, j) || (gap(s, i) == gap(s, j) && i < j)
}

/// The preferred break among the positions below `n` other than `skip`, or -1 if none.
pub open spec fn best_below(s: Seq<u8>, n: int, skip: int) -> int
    decreases n,
{
    if n <= 0 {
        -1
    } else {
        let b = best_below(s, n - 1, skip);
        let k = n - 1;
        if is_break(s, k) && k != skip && (b < 0 || wider(s, k, b)) {
            k
        } else {
            b
        }
    }
}

/// The break positions that split the escape bytes into groups, ascending:
/// every break when there are at most two, else the two preferred ones.
pub open spec fn cuts(s: Seq<u8>) -> Seq<int> {
    let p = best_below(s, s.len() - 1, -1);
    let q = best_below(s, s.len() - 1, p);
    if p < 0 {
        seq![]
    } else if q < 0 {
        seq![p]
    } else if p < q {
        seq![p, q]
    } else {
        seq![q, p]
    }
}

/// The group that stands for the escape bytes at positions `lo..=hi`.
pub open spec fn run_group(s: Seq<u8>, lo: int, hi: int) -> Group {
    if lo == hi {
        Group::Singleton(s[lo])
    } else {
        Group::Range(s[lo], s[hi])
    }
}

/// First position of run `k` when the bytes are split after each of `c`.
pub open spec fn run_lo(c: Seq<int>, k: int) -> int {
    if k == 0 { 0 } else { c[k - 1] + 1 }
}

/// Last position of run `k` when the bytes are split after each of `c`.
pub open spec fn run_hi(s: Seq<u8>, c: Seq<int>, k: int) -> int {
    if k == c.len() { s.len() - 1 } else { c[k] }
}

/// One group per run, in byte order.
pub open spec fn run_groups(s: Seq<u8>, c: Seq<int>) -> Seq<Group> {
    Seq::new((c.len() + 1) as nat, |k: int| run_group(s, run_lo(c, k), run_hi(s, c, k)))
}

/// The ranges of `g`, in order.
pub open spec fn ranges_of(g: Seq<Group>) -> Seq<Group>
    decreases g.len(),
{
    if g.len() == 0 {
        g
    } else {
        ranges_of(g.drop_last()) + if g.last() is Range { seq![g.last()] } else { seq![] }
    }
}

/// The singletons of `g`, in order.
pub open spec fn singletons_of(g: Seq<Group>) -> Seq<Group>
    decreases g.len(),
{
    if g.len() == 0 {
        g
    } else {
        singletons_of(g.drop_last()) + if g.last() is Singleton { seq![g.last()] } else { seq![] }
    }
}

/// The comparison groups of a sorted escape set: ranges first, then singletons.
pub open spec fn groups(s: Seq<u8>) -> Seq<Group> {
    let g = run_groups(s, cuts(s));
    ranges_of(g) + singletons_of(g)
}

/// The scanner cannot tell the groups apart from the length alone.
pub open spec fn needs_flag(g: Seq<Group>) -> bool {
    ranges_of(g).len() == 0 || singletons_of(g).len() >= 2
}

/// The bytes that stand for one group.
pub open spec fn group_bytes(g: Group) -> Seq<u8> {
    match g {
        Group::Range(lo, hi) => seq![lo, hi],
        Group::Singleton(v) => seq![v],
    }
}

/// The groups written out: two bytes per range, one per singleton.
pub open spec fn flatten(g: Seq<Group>) -> Seq<u8>
    decreases g.len(),
{
    if g.len() == 0 {
        seq![]
    } else {
        flatten(g.drop_last()) + group_bytes(g.last())
    }
}

/// The byte encoding of a group list, with the flag where it is needed.
pub open spec fn encoded(g: Seq<Group>) -> Seq<u8> {
    flatten(g) + if needs_flag(g) { seq![FLAG] } else { seq![] }
}

/// The byte encoding of a sorted escape set.
pub open spec fn encoding(s: Seq<u8>) -> Seq<u8> {
    encoded(groups(s))
}

/// Byte `b` is one that group `g` accepts.
pub open spec fn covers(g: Group, b: u8) -> bool {
    match g {
        Group::Range(lo, hi) => lo <= b <= hi,
        Group::Singleton(v) => v == b,
    }
}

/// A position held in an `Option`, with -1 for none.
pub open spec fn opt_pos(o: Option<usize>) -> int {
    match o {
        Some(k) => k as int,
        None => -1,
    }
}

proof fn lemma_best_below(s: Seq<u8>, n: int, skip: int)
    ensures
        best_below(s, n, skip) == -1 || (is_break(s, best_below(s, n, skip)) && best_below(
            s,
            n,
            skip,
        ) < n && best_below(s, n, skip) != skip),
        best_below(s, n, skip) == -1 ==> forall|k: int|
            0 <= k < n && #[trigger] is_break(s, k) ==> k == skip,
    decreases n,
{
    if n > 0 {
        lemma_best_below(s, n - 1, skip);
    }
}

/// The preferred break of `pairs` other than `skip`, if any.
fn best_break(pairs: &[Pair], skip: Option<usize>) -> (r: Option<usize>)
    requires
        pairs.len() >= 1,
        strictly_sorted(bytes_of(pairs@)),
    ensures
        opt_pos(r) == best_below(bytes_of(pairs@), pairs@.len() - 1, opt_pos(skip)),
{
    let ghost s = bytes_of(pairs@);
    let n = pairs.len();
    let mut best: Option<usize> = None;
    let mut k: usize = 0;
    while k + 1 < n
        invariant
            s == bytes_of(pairs@),
            n == pairs@.len(),
            n >= 1,
            strictly_sorted(s),
            k <= n - 1,
            opt_pos(best) == best_below(s, k as int, opt_pos(skip)),
        decreases n - k,
    {
        proof {
            lemma_best_below(s, k as int, opt_pos(skip));
            assert(s[k as int] < s[k + 1]);
        }
        let lo = pairs[k].ch;
        let hi = pairs[k + 1].ch;
        let d = hi - lo;
        if d > 1 && skip != Some(k) {
            match best {
                None => {
                    best = Some(k);
                },
                Some(b) => {
                    assert(s[b as int] < s[b + 1]);
                    if d > pairs[b + 1].ch - pairs[b].ch {
                        best = Some(k);
                    }
                },
            }
        }
        k = k + 1;
    }
    best
}

proof fn lemma_cuts(s: Seq<u8>)
    requires
        s.len() >= 1,
    ensures
        cuts(s).len() <= 2,
        forall|k: int| 0 <= k < cuts(s).len() ==> #[trigger] is_break(s, cuts(s)[k]),
        cuts(s).len() == 2 ==> cuts(s)[0] < cuts(s)[1],
{
    let p = best_below(s, s.len() - 1, -1);
    lemma_best_below(s, s.len() - 1, -1);
    lemma_best_below(s, s.len() - 1, p);
}

/// The comparison groups of the escape bytes of `pairs`: the runs left by
/// the chosen cuts, ranges first, then singletons.
pub fn compact(pairs: &[Pair]) -> (r: Vec<Group>)
    requires
        pairs.len() >= 1,
        strictly_sorted(bytes_of(pairs@)),
    ensures
        r@ == groups(bytes_of(pairs@)),
{
    let ghost s = bytes_of(pairs@);
    let n = pairs.len();
    let mut cut: Vec<usize> = Vec::new();
    let first = best_break(pairs, None);
    if let Some(p) = first {
        let second = best_break(pairs, Some(p));
        if let Some(q) = second {
            if p < q {
                cut.push(p);
                cut.push(q);
            } else {
                cut.push(q);
                cut.push(p);
            }
        } else {
            cut.push(p);
        }
    }
    let ghost c = cuts(s);
    proof {
        lemma_cuts(s);
        assert(cut@.len() == c.len());
        assert(forall|k: int| 0 <= k < c.len() ==> cut@[k] as int == c[k]);
    }
    let ghost rg = run_groups(s, c);
    let mut runs: Vec<Group> = Vec::new();
    let mut k: usize = 0;
    while k <= cut.len()
        invariant
            s == bytes_of(pairs@),
            n == pairs@.len(),
            n >= 1,
            c == cuts(s),
            rg == run_groups(s, c),
            cut@.len() == c.len(),
            c.len() <= 2,
            forall|j: int| 0 <= j < c.len() ==> cut@[j] as int == c[j],
            forall|j: int| 0 <= j < c.len() ==> #[trigger] is_break(s, c[j]),
            c.len() == 2 ==> c[0] < c[1],
            k <= cut@.len() + 1,
            runs@ == rg.take(k as int),
        decreases cut@.len() + 1 - k,
    {
        proof {
            if k > 0 {
                assert(is_break(s, c[k - 1]));
            }
            if k < cut@.len() {
                assert(is_break(s, c[k as int]));
            }
        }
        let lo = if k == 0 { 0 } else { cut[k - 1] + 1 };
        let hi = if k == cut.len() { n - 1 } else { cut[k] };
        assert(lo == run_lo(c, k as int));
        assert(hi == run_hi(s, c, k as int));
        let g = if lo == hi {
            Group::Singleton(pairs[lo].ch)
        } else {
            Group::Range(pairs[lo].ch, pairs[hi].ch)
        };
        runs.push(g);
        assert(runs@ =~= rg.take(k + 1));
        k = k + 1;
    }
    assert(runs@ =~= rg);
    let mut out: Vec<Group> = Vec::new();
    let mut i: usize = 0;
    while i < runs.len()
        invariant
            i <= runs@.len(),
            out@ == ranges_of(runs@.take(i as int)),
        decreases runs@.len() - i,
    {
        assert(runs@.take(i + 1).drop_last() =~= runs@.take(i as int));
        if let Group::Range(_, _) = runs[i] {
            out.push(runs[i]);
        }
        assert(out@ =~= ranges_of(runs@.take(i + 1)));
        i = i + 1;
    }
    assert(runs@.take(runs@.len() as int) =~= runs@);
    let mut i: usize = 0;
    while i < runs.len()
        invariant
            i <= runs@.len(),
            out@ == ranges_of(runs@) + singletons_of(runs@.take(i as int)),
        decreases runs@.len() - i,
    {
        assert(runs@.take(i + 1).drop_last() =~= runs@.take(i as int));
        if let Group::Singleton(_) = runs[i] {
            out.push(runs[i]);
        }
        assert(out@ =~= ranges_of(runs@) + singletons_of(runs@.take(i + 1)));
        i = i + 1;
    }
    assert(runs@.take(runs@.len() as int) =~= runs@);
    out
}

/// The groups written out as bytes: `lo, hi` per range and the value per
/// singleton, then `FLAG` when there is no range or more than one singleton.
pub fn encode(groups: &[Group]) -> (r: Vec<u8>)
    ensures
        r@ == encoded(groups@),
{
    let mut out: Vec<u8> = Vec::new();
    let mut n_ranges: usize = 0;
    let mut n_singles: usize = 0;
    let mut i: usize = 0;
    while i < groups.len()
        invariant
            i <= groups@.len(),
            out@ == flatten(groups@.take(i as int)),
            n_ranges == ranges_of(groups@.take(i as int)).len(),
            n_singles == singletons_of(groups@.take(i as int)).len(),
            n_ranges + n_singles == i,
        decreases groups@.len() - i,
    {
        assert(groups@.take(i + 1).drop_last() =~= groups@.take(i as int));
        match groups[i] {
            Group::Range(lo, hi) => {
                out.push(lo);
                out.push(hi);
                n_ranges = n_ranges + 1;
            },
            Group::Singleton(v) => {
                out.push(v);
                n_singles = n_singles + 1;
            },
        }
        assert(out@ =~= flatten(groups@.take(i + 1)));
        i = i + 1;
    }
    assert(groups@.take(groups@.len() as int) =~= groups@);
    if n_ranges == 0 || n_singles >= 2 {
        out.push(FLAG);
    }
    assert(out@ =~= encoded(groups@));
    out
}

proof fn lemma_split_len(g: Seq<Group>)
    ensures
        ranges_of(g).len() + singletons_of(g).len() == g.len(),
    decreases g.len(),
{
    if g.len() > 0 {
        lemma_split_len(g.drop_last());
    }
}

proof fn lemma_split_contains(g: Seq<Group>, k: int)
    requires
        0 <= k < g.len(),
    ensures
        g[k] is Range ==> ranges_of(g).contains(g[k]),
        g[k] is Singleton ==> singletons_of(g).contains(g[k]),
    decreases g.len(),
{
    let r = ranges_of(g.drop_last());
    let t = singletons_of(g.drop_last());
    if k == g.len() - 1 {
        if g[k] is Range {
            assert(ranges_of(g)[r.len() as int] == g[k]);
        } else {
            assert(singletons_of(g)[t.len() as int] == g[k]);
        }
    } else {
        lemma_split_contains(g.drop_last(), k);
        assert(g.drop_last()[k] == g[k]);
        if g[k] is Range {
            let j = choose|j: int| 0 <= j < r.len() && r[j] == g[k];
            assert(ranges_of(g)[j] == g[k]);
        } else {
            let j = choose|j: int| 0 <= j < t.len() && t[j] == g[k];
            assert(singletons_of(g)[j] == g[k]);
        }
    }
}

proof fn lemma_best_below_wider(s: Seq<u8>, n: int, skip: int)
    ensures
        forall|k: int|
            0 <= k < n && #[trigger] is_break(s, k) && k != skip && k != best_below(s, n, skip)
                ==> wider(s, best_below(s, n, skip), k),
    decreases n,
{
    if n > 0 {
        lemma_best_below_wider(s, n - 1, skip);
        lemma_best_below(s, n - 1, skip);
    }
}

/// The cuts are the widest breaks: a break that is not cut has a narrower gap
/// than both cuts, or the same gap and a later position. So every break is cut
/// when there are at most two.
pub proof fn lemma_cuts_widest(s: Seq<u8>, k: int)
    requires
        s.len() >= 1,
        strictly_sorted(s),
        is_break(s, k),
        !cuts(s).contains(k),
    ensures
        cuts(s).len() == 2,
        wider(s, cuts(s)[0], k),
        wider(s, cuts(s)[1], k),
{
    let n = s.len() - 1;
    let p = best_below(s, n, -1);
    let q = best_below(s, n, p);
    lemma_best_below(s, n, -1);
    lemma_best_below(s, n, p);
    lemma_best_below_wider(s, n, -1);
    lemma_best_below_wider(s, n, p);
    if p >= 0 && q < 0 {
        assert(cuts(s)[0] == p);
    }
    if p >= 0 && q >= 0 {
        if p < q {
            assert(cuts(s)[0] == p && cuts(s)[1] == q);
        } else {
            assert(cuts(s)[0] == q && cuts(s)[1] == p);
        }
    }
}

/// No escape set needs more than three comparison groups.
pub proof fn lemma_group_budget(s: Seq<u8>)
    requires
        s.len() >= 1,
        strictly_sorted(s),
    ensures
        groups(s).len() <= 3,
{
    lemma_cuts(s);
    lemma_split_len(run_groups(s, cuts(s)));
}

/// Every escape byte is accepted by some group of the encoding: the groups
/// may accept more bytes than the set holds, never fewer.
pub proof fn lemma_groups_cover(s: Seq<u8>, i: int)
    requires
        s.len() >= 1,
        strictly_sorted(s),
        0 <= i < s.len(),
    ensures
        exists|j: int| 0 <= j < groups(s).len() && covers(#[trigger] groups(s)[j], s[i]),
{
    let c = cuts(s);
    lemma_cuts(s);
    if c.len() > 0 {
        assert(is_break(s, c[0]));
    }
    if c.len() > 1 {
        assert(is_break(s, c[1]));
    }
    let k: int = if c.len() == 0 || i <= c[0] {
        0
    } else if c.len() == 1 || i <= c[1] {
        1
    } else {
        2
    };
    let lo = run_lo(c, k);
    let hi = run_hi(s, c, k);
    assert(lo <= i <= hi);
    let g = run_groups(s, c);
    assert(g[k] == run_group(s, lo, hi));
    if lo < i {
        assert(s[lo] < s[i]);
    }
    if i < hi {
        assert(s[i] < s[hi]);
    }
    assert(covers(g[k], s[i]));
    lemma_split_contains(g, k);
    let r = ranges_of(g);
    let t = singletons_of(g);
    if g[k] is Range {
        let j = choose|j: int| 0 <= j < r.len() && r[j] == g[k];
        assert(groups(s)[j] == g[k]);
    } else {
        let j = choose|j: int| 0 <= j < t.len() && t[j] == g[k];
        assert(groups(s)[r.len() + j] == g[k]);
    }
}

/// The encoding ends in one extra `FLAG` byte exactly when its groups hold
/// no range, or two singletons or more; otherwise it is the groups' bytes alone.
pub proof fn lemma_flag_iff(s: Seq<u8>)
    requires
        s.len() >= 1,
        strictly_sorted(s),
    ensures
        ({
            let g = groups(s);
            let flagged = ranges_of(g).len() == 0 || singletons_of(g).len() >= 2;
            &&& encoding(s).len() == flatten(g).len() + 1 <==> flagged
            &&& flagged ==> encoding(s).last() == FLAG
            &&& !flagged ==> encoding(s) == flatten(g)
        }),
{
    let g = groups(s);
    assert(encoding(s) == encoded(g));
    if !needs_flag(g) {
        assert(encoding(s) =~= flatten(g));
    }
}

} // verus!
