use vstd::prelude::*;

use crate::types::{MarkedSample, Peak};

verus! {

/// Every sample in `lo..hi` is above the detection boundary.
pub open spec fn run_above(s: Seq<MarkedSample>, lo: int, hi: int) -> bool {
    forall|k: int| lo <= k < hi ==> (#[trigger] s[k]).above
}

/// Sample `i` lies in a contiguous run of above-boundary samples at least `w` long.
pub open spec fn wide_at(s: Seq<MarkedSample>, i: int, w: nat) -> bool {
    exists|lo: int, hi: int|
        0 <= lo <= i < hi <= s.len() && hi - lo >= w && #[trigger] run_above(s, lo, hi)
}

/// The peaks that survive the width rule among the first `n` samples, in index order.
pub open spec fn wide_candidates(s: Seq<MarkedSample>, w: nat, n: nat) -> Seq<Peak>
    decreases n,
{
    if n == 0 {
        Seq::empty()
    } else {
        let prev = wide_candidates(s, w, (n - 1) as nat);
        if wide_at(s, n - 1, w) {
            prev.push(Peak { index: (n - 1) as usize, level: s[n - 1].level })
        } else {
            prev
        }
    }
}

/// The greedy left-to-right distance rule: a candidate closer than `d` to the
/// last retained peak replaces it only when its level is strictly larger.
pub open spec fn thin(c: Seq<Peak>, d: nat) -> Seq<Peak>
    decreases c.len(),
{
    if c.len() == 0 {
        Seq::empty()
    } else {
        let prev = thin(c.drop_last(), d);
        let p = c.last();
        if prev.len() == 0 || p.index as int - prev.last().index as int >= d as int {
            prev.push(p)
        } else if p.level > prev.last().level {
            prev.drop_last().push(p)
        } else {
            prev
        }
    }
}

/// Indices strictly increase along the sequence.
pub open spec fn increasing(c: Seq<Peak>) -> bool {
    forall|i: int, j: int| 0 <= i < j < c.len() ==> #[trigger] c[i].index < #[trigger] c[j].index
}

/// Consecutive peaks are at least `d` samples apart.
pub open spec fn spaced(c: Seq<Peak>, d: nat) -> bool {
    forall|i: int| 0 < i < c.len() ==> (#[trigger] c[i]).index >= c[i - 1].index + d
}

/// Within a maximal run of above-boundary samples, every sample passes the
/// width rule exactly when the run is at least `w` long.
pub proof fn lemma_wide_at_run(s: Seq<MarkedSample>, lo: int, hi: int, i: int, w: nat)
    requires
        0 <= lo <= i < hi <= s.len(),
        run_above(s, lo, hi),
        lo == 0 || !s[lo - 1].above,
        hi == s.len() || !s[hi].above,
    ensures
        wide_at(s, i, w) <==> hi - lo >= w,
{
    if wide_at(s, i, w) {
        let (a, b) = choose|a: int, b: int|
            0 <= a <= i < b <= s.len() && b - a >= w && #[trigger] run_above(s, a, b);
        if a < lo {
            assert(s[lo - 1].above);
        }
        if b > hi {
            assert(s[hi].above);
        }
    }
    if hi - lo >= w {
        assert(run_above(s, lo, hi));
    }
}

proof fn lemma_not_above_not_wide(s: Seq<MarkedSample>, i: int, w: nat)
    requires
        0 <= i < s.len(),
        !s[i].above,
    ensures
        !wide_at(s, i, w),
{
    if wide_at(s, i, w) {
        let (a, b) = choose|a: int, b: int|
            0 <= a <= i < b <= s.len() && b - a >= w && #[trigger] run_above(s, a, b);
        assert(s[i].above);
    }
}

pub(crate) proof fn lemma_wide_candidates_shape(s: Seq<MarkedSample>, w: nat, n: nat)
    requires
        n <= s.len(),
        s.len() <= usize::MAX,
    ensures
        increasing(wide_candidates(s, w, n)),
        forall|k: int|
            0 <= k < wide_candidates(s, w, n).len() ==> {
                let p = #[trigger] wide_candidates(s, w, n)[k];
                &&& p.index < n
                &&& p.level == s[p.index as int].level
                &&& wide_at(s, p.index as int, w)
            },
    decreases n,
{
    if n > 0 {
        lemma_wide_candidates_shape(s, w, (n - 1) as nat);
    }
}

/// The peaks in index order whose sample lies in a run of above-boundary
/// samples at least `min_event_width` long.
pub fn wide_peaks(samples: &Vec<MarkedSample>, min_event_width: usize) -> (r: Vec<Peak>)
    ensures
        r@ == wide_candidates(samples@, min_event_width as nat, samples@.len()),
{
    let ghost s = samples@;
    let ghost w = min_event_width as nat;
    let n = samples.len();
    let mut r: Vec<Peak> = Vec::new();
    let mut i: usize = 0;
    while i < n
        invariant
            n == s.len(),
            s == samples@,
            w == min_event_width as nat,
            i <= n,
            i < n && s[i as int].above ==> i == 0 || !s[i - 1].above,
            r@ == wide_candidates(s, w, i as nat),
        decreases n - i,
    {
        if !samples[i].above {
            proof {
                lemma_not_above_not_wide(s, i as int, w);
            }
            i = i + 1;
        } else {
            let lo = i;
            let mut hi = i + 1;
            while hi < n && samples[hi].above
                invariant
                    n == s.len(),
                    s == samples@,
                    lo < hi <= n,
                    run_above(s, lo as int, hi as int),
                decreases n - hi,
            {
                hi = hi + 1;
            }
            let long = hi - lo >= min_event_width;
            let mut k = lo;
            while k < hi
                invariant
                    n == s.len(),
                    s == samples@,
                    w == min_event_width as nat,
                    lo <= k <= hi <= n,
                    run_above(s, lo as int, hi as int),
                    lo == 0 || !s[lo - 1].above,
                    hi == n || !s[hi as int].above,
                    long == (hi - lo >= w),
                    r@ == wide_candidates(s, w, k as nat),
                decreases hi - k,
            {
                proof {
                    lemma_wide_at_run(s, lo as int, hi as int, k as int, w);
                }
                if long {
                    r.push(Peak { index: k, level: samples[k].level });
                }
                k = k + 1;
            }
            i = hi;
        }
    }
    r
}

/// Applies the distance rule to candidates taken in order.
pub fn suppress_close(candidates: &Vec<Peak>, min_event_distance: usize) -> (r: Vec<Peak>)
    ensures
        r@ == thin(candidates@, min_event_distance as nat),
{
    let ghost c = candidates@;
    let ghost d = min_event_distance as nat;
    let mut r: Vec<Peak> = Vec::new();
    let mut i: usize = 0;
    while i < candidates.len()
        invariant
            c == candidates@,
            d == min_event_distance as nat,
            i <= c.len(),
            r@ == thin(c.subrange(0, i as int), d),
        decreases c.len() - i,
    {
        let p = candidates[i];
        proof {
            assert(c.subrange(0, i + 1).drop_last() =~= c.subrange(0, i as int));
            assert(c.subrange(0, i + 1).last() == p);
        }
        let n = r.len();
        if n == 0 {
            r.push(p);
        } else {
            let q = r[n - 1];
            if p.index >= q.index && p.index - q.index >= min_event_distance {
                r.push(p);
            } else if p.level > q.level {
                r.pop();
                r.push(p);
            }
        }
        proof {
            assert(r@ =~= thin(c.subrange(0, i + 1), d));
        }
        i = i + 1;
    }
    proof {
        assert(c.subrange(0, c.len() as int) =~= c);
    }
    r
}

/// Under the distance rule, peaks taken from increasing candidates stay
/// increasing, are at least `d` apart, and are each one of the candidates.
pub proof fn lemma_thin_shape(c: Seq<Peak>, d: nat)
    requires
        increasing(c),
    ensures
        increasing(thin(c, d)),
        spaced(thin(c, d), d),
        forall|j: int|
            0 <= j < thin(c, d).len() ==> c.contains(#[trigger] thin(c, d)[j]),
    decreases c.len(),
{
    if c.len() > 0 {
        let c0 = c.drop_last();
        assert(increasing(c0));
        lemma_thin_shape(c0, d);
        let prev = thin(c0, d);
        let p = c.last();
        assert forall|j: int| 0 <= j < prev.len() implies #[trigger] prev[j].index < p.index by {
            assert(c0.contains(prev[j]));
            let k = choose|k: int| 0 <= k < c0.len() && c0[k] == prev[j];
            assert(c[k] == c0[k]);
        }
        let r = thin(c, d);
        assert forall|j: int| 0 <= j < r.len() implies c.contains(#[trigger] r[j]) by {
            if j < prev.len() && r[j] == prev[j] {
                let k = choose|k: int| 0 <= k < c0.len() && c0[k] == prev[j];
                assert(c[k] == c0[k]);
            } else {
                assert(r[j] == p);
                assert(c[c.len() - 1] == p);
            }
        }
        if prev.len() > 0 && p.index as int - prev.last().index as int >= d as int {
            assert(r == prev.push(p));
        } else if prev.len() > 0 && p.level > prev.last().level {
            assert(r == prev.drop_last().push(p));
            if prev.len() > 1 {
                assert(prev[prev.len() - 1].index >= prev[prev.len() - 2].index + d);
            }
        }
    }
}

/// Of two candidates closer than `d`, the distance rule keeps exactly one:
/// the one with the larger level, or the earlier one when the levels are equal.
pub proof fn lemma_close_pair(a: Peak, b: Peak, d: nat)
    requires
        a.index < b.index,
        b.index < a.index + d,
    ensures
        thin(seq![a, b], d) == if b.level > a.level {
            seq![b]
        } else {
            seq![a]
        },
{
    let c = seq![a, b];
    assert(c.drop_last() =~= seq![a]);
    assert(seq![a].drop_last() =~= Seq::<Peak>::empty());
    assert(thin(Seq::<Peak>::empty(), d) == Seq::<Peak>::empty());
    assert(seq![a].last() == a);
    assert(Seq::<Peak>::empty().push(a) =~= seq![a]);
    assert(thin(seq![a], d) =~= seq![a]);
    assert(c.last() == b);
    assert(seq![a].drop_last().push(b) =~= seq![b]);
}

} // verus!
