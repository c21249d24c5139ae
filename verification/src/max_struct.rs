//! The range-maximum structure with range assignment, one of the two
//! structures the harness drives: built once from an initial array, it
//! answers maximum queries over a closed index range and assigns a value to
//! every position of a closed index range.

use vstd::prelude::*;

verus! {

/// The array after exclusively setting every position in `[l, r]` to `v`.
pub open spec fn assign_spec(s: Seq<usize>, l: usize, r: usize, v: usize) -> Seq<usize> {
    Seq::new(s.len(), |i: int| if l <= i && i <= r { v } else { s[i] })
}

/// The maximum value stored at the positions of `[l, r]` that exist in the
/// array, or nothing when no position of the range does.
pub open spec fn range_max(s: Seq<usize>, l: usize, r: usize) -> Option<usize>
    decreases s.len(),
{
    if s.len() == 0 {
        None
    } else {
        let rest = range_max(s.drop_last(), l, r);
        if l <= s.len() - 1 && s.len() - 1 <= r {
            match rest {
                None => Some(s.last()),
                Some(v) => Some(if v >= s.last() { v } else { s.last() }),
            }
        } else {
            rest
        }
    }
}

/// The range maximum is absent exactly when no position of `[l, r]` exists
/// in the array; when present it is attained in the range and dominates it.
pub proof fn lemma_range_max_characterization(s: Seq<usize>, l: usize, r: usize)
    ensures
        (range_max(s, l, r) is None) <==> !(l < s.len() && l <= r),
        range_max(s, l, r) matches Some(v) ==> (exists|i: int|
            l <= i <= r && 0 <= i < s.len() && s[i] == v) && (forall|i: int|
            l <= i <= r && 0 <= i < s.len() ==> s[i] <= v),
    decreases s.len(),
{
    if s.len() > 0 {
        lemma_range_max_characterization(s.drop_last(), l, r);
        assert(forall|i: int| 0 <= i < s.len() - 1 ==> s[i] == s.drop_last()[i]);
    }
}

pub struct MaxStruct {
    values: Vec<usize>,
}

impl View for MaxStruct {
    type V = Seq<usize>;

    closed spec fn view(&self) -> Seq<usize> {
        self.values@
    }
}

impl MaxStruct {
    /// Builds the structure from the initial array; an empty array is the
    /// one input the build refuses.
    pub fn new(values: &Vec<usize>) -> (r: Option<MaxStruct>)
        ensures
            values@.len() == 0 ==> r is None,
            values@.len() > 0 ==> (r matches Some(t) && t@ == values@),
    {
        if values.len() == 0 {
            return None;
        }
        let mut held: Vec<usize> = Vec::new();
        let mut i: usize = 0;
        while i < values.len()
            invariant
                i <= values@.len(),
                held@ == values@.take(i as int),
            decreases values@.len() - i,
        {
            held.push(values[i]);
            proof {
                assert(values@.take(i as int + 1) =~= values@.take(i as int).push(
                    values@[i as int],
                ));
            }
            i += 1;
        }
        proof {
            assert(values@.take(values@.len() as int) =~= values@);
        }
        Some(MaxStruct { values: held })
    }

    /// Exclusively sets every position of the closed range `[l, r]` to `v`;
    /// positions outside the array are ignored.
    pub fn assign(&mut self, l: usize, r: usize, v: usize)
        ensures
            final(self)@ == assign_spec(old(self)@, l, r, v),
    {
        let n = self.values.len();
        let mut i: usize = l;
        while i < n && i <= r
            invariant
                n == self.values@.len(),
                n == old(self)@.len(),
                l <= i,
                forall|j: int|
                    0 <= j < n ==> self.values@[j] == (if l <= j && j < i && j <= r {
                        v
                    } else {
                        old(self)@[j]
                    }),
            decreases n - i,
        {
            self.values[i] = v;
            i += 1;
        }
        proof {
            assert(self.values@ =~= assign_spec(old(self)@, l, r, v));
        }
    }

    /// The maximum value stored in the closed range `[l, r]`, absent when
    /// the range holds no position of the array.
    pub fn max(&self, l: usize, r: usize) -> (res: Option<usize>)
        ensures
            res == range_max(self@, l, r),
    {
        proof {
            lemma_range_max_characterization(self@, l, r);
        }
        let n = self.values.len();
        if l >= n || l > r {
            return None;
        }
        let mut best: usize = self.values[l];
        let mut i: usize = l + 1;
        while i < n && i <= r
            invariant
                n == self.values@.len(),
                l < i,
                i <= r + 1,
                l < n,
                l <= r,
                exists|j: int| l <= j < i && 0 <= j < n && self.values@[j] == best,
                forall|j: int| l <= j < i && 0 <= j < n ==> self.values@[j] <= best,
            decreases n - i,
        {
            let c = self.values[i];
            if c > best {
                best = c;
            }
            i += 1;
        }
        proof {
            lemma_range_max_characterization(self@, l, r);
            assert(range_max(self@, l, r) matches Some(v) && v == best);
        }
        Some(best)
    }
}

} // verus!
