//! The interval-frequency (stabbing) structure, the second structure the
//! harness drives: built once from an ordered sequence of covering intervals,
//! it answers whether some point of a closed range has a coverage count
//! exactly equal to a target.

use vstd::prelude::*;

verus! {

/// How many of the intervals cover the point `p`.
pub open spec fn coverage(ivs: Seq<(usize, usize)>, p: int) -> nat
    decreases ivs.len(),
{
    if ivs.len() == 0 {
        0
    } else {
        coverage(ivs.drop_last(), p) + (if ivs.last().0 <= p && p <= ivs.last().1 {
            1nat
        } else {
            0nat
        })
    }
}

/// The interval sequences the build accepts: at least one interval, each
/// with its endpoints in order.
pub open spec fn wf_intervals(ivs: Seq<(usize, usize)>) -> bool {
    ivs.len() > 0 && (forall|i: int| 0 <= i < ivs.len() ==> (#[trigger] ivs[i]).0 <= ivs[i].1)
}

/// The answer to one membership query, as a boolean-as-integer: 1 exactly
/// when some point of `[l, r]` has coverage count `k`, 0 otherwise.
pub open spec fn freq_answer(ivs: Seq<(usize, usize)>, l: usize, r: usize, k: usize) -> usize {
    if exists|p: int| l <= p <= r && coverage(ivs, p) == k {
        1
    } else {
        0
    }
}

/// A point beyond every interval's upper endpoint is covered by nothing.
proof fn lemma_coverage_beyond(ivs: Seq<(usize, usize)>, p: int)
    requires
        forall|i: int| 0 <= i < ivs.len() ==> (#[trigger] ivs[i]).1 < p,
    ensures
        coverage(ivs, p) == 0,
    decreases ivs.len(),
{
    if ivs.len() > 0 {
        lemma_coverage_beyond(ivs.drop_last(), p);
    }
}

pub struct FreqStruct {
    intervals: Vec<(usize, usize)>,
}

impl View for FreqStruct {
    type V = Seq<(usize, usize)>;

    closed spec fn view(&self) -> Seq<(usize, usize)> {
        self.intervals@
    }
}

impl FreqStruct {
    /// Builds the structure from the complete ordered interval sequence;
    /// the build refuses an empty sequence and an interval whose endpoints
    /// are out of order.
    pub fn new(s: Vec<(usize, usize)>) -> (r: Option<FreqStruct>)
        ensures
            wf_intervals(s@) ==> (r matches Some(t) && t@ == s@),
            !wf_intervals(s@) ==> r is None,
    {
        if s.len() == 0 {
            return None;
        }
        let mut i: usize = 0;
        while i < s.len()
            invariant
                i <= s@.len(),
                forall|j: int| 0 <= j < i ==> (#[trigger] s@[j]).0 <= s@[j].1,
            decreases s@.len() - i,
        {
            if s[i].0 > s[i].1 {
                return None;
            }
            i += 1;
        }
        Some(FreqStruct { intervals: s })
    }

    /// How many intervals cover the point `p`.
    fn coverage_at(&self, p: usize) -> (c: usize)
        ensures
            c == coverage(self@, p as int),
    {
        let n = self.intervals.len();
        let mut c: usize = 0;
        let mut i: usize = 0;
        while i < n
            invariant
                i <= n,
                n == self.intervals@.len(),
                c <= i,
                c == coverage(self.intervals@.take(i as int), p as int),
            decreases n - i,
        {
            proof {
                assert(self.intervals@.take(i as int + 1).drop_last() =~= self.intervals@.take(
                    i as int,
                ));
            }
            let iv = self.intervals[i];
            if iv.0 <= p && p <= iv.1 {
                c += 1;
            }
            i += 1;
        }
        proof {
            assert(self.intervals@.take(n as int) =~= self.intervals@);
        }
        c
    }

    /// Answers one membership query: 1 exactly when some point of `[l, r]`
    /// has coverage count `k`, 0 otherwise.
    pub fn is_there(&self, l: usize, r: usize, k: usize) -> (res: usize)
        ensures
            res == freq_answer(self@, l, r, k),
            res <= 1,
    {
        if l > r {
            return 0;
        }
        // No point beyond the largest upper endpoint is covered, so only
        // points up to it need a scan; the rest of the range has coverage 0.
        let n = self.intervals.len();
        let mut maxr: usize = 0;
        let mut i: usize = 0;
        while i < n
            invariant
                i <= n,
                n == self.intervals@.len(),
                forall|j: int| 0 <= j < i ==> (#[trigger] self.intervals@[j]).1 <= maxr,
            decreases n - i,
        {
            let iv = self.intervals[i];
            if iv.1 > maxr {
                maxr = iv.1;
            }
            i += 1;
        }
        let hi = if r <= maxr {
            r
        } else {
            maxr
        };
        if l <= hi {
            let mut p = l;
            while p <= hi
                invariant_except_break
                    l <= p <= hi,
                    hi <= r,
                    hi <= maxr,
                    forall|q: int| l <= q < p ==> coverage(self@, q) != k,
                ensures
                    forall|q: int| l <= q <= hi ==> coverage(self@, q) != k,
                decreases hi - p,
            {
                if self.coverage_at(p) == k {
                    return 1;
                }
                if p == hi {
                    break ;
                }
                p += 1;
            }
        }
        // Every point of the range at most `hi` was scanned without a hit;
        // any remaining point lies beyond `maxr` and has coverage 0.
        if k == 0 && r > maxr {
            proof {
                let w: int = if l > maxr {
                    l as int
                } else {
                    maxr + 1
                };
                lemma_coverage_beyond(self@, w);
                assert(l <= w <= r && coverage(self@, w) == 0);
            }
            return 1;
        }
        proof {
            assert forall|q: int| l <= q <= r implies coverage(self@, q) != k by {
                if q > maxr {
                    lemma_coverage_beyond(self@, q);
                }
            }
        }
        0
    }
}

} // verus!
