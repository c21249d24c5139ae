//! The output verifier: compares the collected result sequence against the
//! expected-output lines, in order, one parsed integer per result entry.

use vstd::prelude::*;

use crate::parse::line_views;
use crate::parse::token_is_uint;
use crate::parse::token_uint;

verus! {

/// Whether the result sequence matches the expected-output lines: for every
/// result entry there is an expected line in the same position that is a
/// well-formed non-negative integer equal to it.  Expected lines beyond the
/// last result entry are deliberately never consulted.
pub open spec fn outputs_match(expected: Seq<Seq<u8>>, res: Seq<usize>) -> bool {
    forall|j: int|
        0 <= j < res.len() ==> j < expected.len() && token_is_uint(#[trigger] expected[j])
            && token_uint(expected[j]) == res[j]
}

/// A result sequence that matches a strict prefix of the expected lines is
/// reported as a match: the leftover expected lines change nothing.
pub proof fn lemma_prefix_leniency(expected: Seq<Seq<u8>>, res: Seq<usize>)
    requires
        res.len() < expected.len(),
        forall|j: int|
            0 <= j < res.len() ==> token_is_uint(#[trigger] expected[j]) && token_uint(
                expected[j],
            ) == res[j],
    ensures
        outputs_match(expected, res),
{
}

/// Compares the collected results against the expected lines, first
/// difference (or missing or ill-formed expected line) failing the case.
pub fn check_outputs(expected: &Vec<Vec<u8>>, res: &Vec<usize>) -> (ok: bool)
    ensures
        ok == outputs_match(line_views(expected@), res@),
{
    let mut j: usize = 0;
    while j < res.len()
        invariant
            j <= res@.len(),
            j <= expected@.len(),
            forall|q: int|
                0 <= q < j ==> token_is_uint(#[trigger] expected@[q]@) && token_uint(expected@[q]@)
                    == res@[q],
        decreases res@.len() - j,
    {
        if j >= expected.len() {
            proof {
                // The entry at j has no expected line: name that position as
                // a witness against a match.
                assert(line_views(expected@).len() == expected@.len());
                let witness = line_views(expected@)[j as int];
                assert(!(j < line_views(expected@).len()) && 0 <= j < res@.len());
                assert(!outputs_match(line_views(expected@), res@));
            }
            return false;
        }
        proof {
            assert(line_views(expected@)[j as int] == expected@[j as int]@);
        }
        // An expected line is read as one bare integer, exactly one token
        // with no surrounding whitespace.
        match crate::parse::parse_token(&expected[j]) {
            Some(v) => {
                if v != res[j] {
                    return false;
                }
            },
            None => {
                return false;
            },
        }
        j += 1;
    }
    proof {
        assert(line_views(expected@).len() == expected@.len());
        assert forall|q: int| 0 <= q < res@.len() implies q < line_views(expected@).len()
            && token_is_uint(#[trigger] line_views(expected@)[q]) && token_uint(
            line_views(expected@)[q],
        ) == res@[q] by {
            assert(token_is_uint(expected@[q]@) && token_uint(expected@[q]@) == res@[q]);
            assert(line_views(expected@)[q] == expected@[q]@);
        }
        assert(outputs_match(line_views(expected@), res@));
    }
    true
}

} // verus!
