//! The two algorithm adapters: each reads the problem preamble from the
//! already-split input lines, builds its structure once, replays the query
//! stream in order, and hands the collected result sequence to the output
//! verifier.

use vstd::prelude::*;

use crate::freq_struct::freq_answer;
use crate::freq_struct::wf_intervals;
use crate::freq_struct::FreqStruct;
use crate::max_struct::assign_spec;
use crate::max_struct::range_max;
use crate::max_struct::MaxStruct;
use crate::outputs::check_outputs;
use crate::outputs::outputs_match;
use crate::parse::line_views;
use crate::parse::lemma_query_shape;
use crate::parse::parse_record;
use crate::parse::parse_record_spec;

verus! {

/// One entry of the diagnostic channel, kept apart from the pass/fail
/// report: a record that would not parse, or a structure that refused its
/// starting data.
#[derive(Clone, Copy, PartialEq, Eq, Structural, Debug)]
pub enum DiagKind {
    ParseError,
    BuildError,
}

/// The preamble record `(n, m)`: the first line, at arity two.
pub open spec fn preamble(lines: Seq<Seq<u8>>) -> Option<Seq<usize>> {
    if lines.len() == 0 {
        None
    } else {
        parse_record_spec(lines[0], Some(2))
    }
}

/// The array state after one Range-Max query line: an assignment record
/// rewrites its range, anything else leaves the array alone.
pub open spec fn mm_step(st: Seq<usize>, line: Seq<u8>) -> Seq<usize> {
    match parse_record_spec(line, None) {
        Some(q) => if q[0] == 0 {
            assign_spec(st, q[1] as usize, q[2] as usize, q[3] as usize)
        } else {
            st
        },
        None => st,
    }
}

/// What one Range-Max query line appends to the result sequence: a max
/// query with a defined maximum appends it; an assignment, a malformed line,
/// and a max query over an absent range append nothing.
pub open spec fn mm_contrib(st: Seq<usize>, line: Seq<u8>) -> Seq<usize> {
    match parse_record_spec(line, None) {
        Some(q) => if q[0] == 1 {
            match range_max(st, q[1] as usize, q[2] as usize) {
                Some(v) => seq![v],
                None => Seq::empty(),
            }
        } else {
            Seq::empty()
        },
        None => Seq::empty(),
    }
}

/// Whether one query line leaves the array unchanged: every line but a
/// well-formed assignment record.
pub open spec fn mm_neutral(line: Seq<u8>) -> bool {
    match parse_record_spec(line, None) {
        Some(q) => q[0] != 0,
        None => true,
    }
}

/// The array state after replaying a sequence of query lines in order.
pub open spec fn mm_state(a0: Seq<usize>, qs: Seq<Seq<u8>>) -> Seq<usize>
    decreases qs.len(),
{
    if qs.len() == 0 {
        a0
    } else {
        mm_step(mm_state(a0, qs.drop_last()), qs.last())
    }
}

/// The result sequence collected while replaying a sequence of query lines.
pub open spec fn mm_results(a0: Seq<usize>, qs: Seq<Seq<u8>>) -> Seq<usize>
    decreases qs.len(),
{
    if qs.len() == 0 {
        Seq::empty()
    } else {
        mm_results(a0, qs.drop_last()) + mm_contrib(mm_state(a0, qs.drop_last()), qs.last())
    }
}

/// How many query lines fail to parse: each one is reported and skipped.
pub open spec fn mm_diag_count(qs: Seq<Seq<u8>>) -> nat
    decreases qs.len(),
{
    if qs.len() == 0 {
        0
    } else {
        mm_diag_count(qs.drop_last()) + (if parse_record_spec(qs.last(), None) is None {
            1nat
        } else {
            0nat
        })
    }
}

/// The initial-array record: the second line, at arity `n`.
pub open spec fn mm_array(lines: Seq<Seq<u8>>, n: usize) -> Option<Seq<usize>> {
    if lines.len() < 2 {
        None
    } else {
        parse_record_spec(lines[1], Some(n))
    }
}

/// The query lines of a Range-Max case: everything after the preamble and
/// array lines, at most `m` of them (missing lines contribute nothing).
pub open spec fn mm_qlines(lines: Seq<Seq<u8>>, m: usize) -> Seq<Seq<u8>> {
    if lines.len() < 2 {
        Seq::empty()
    } else {
        let cnt: int = if (m as int) <= lines.len() - 2 {
            m as int
        } else {
            lines.len() - 2
        };
        lines.subrange(2, 2 + cnt)
    }
}

/// The result sequence of a whole Range-Max case, absent when the preamble
/// or the initial array fails to parse or the structure refuses to build.
pub open spec fn mm_case_results(lines: Seq<Seq<u8>>) -> Option<Seq<usize>> {
    match preamble(lines) {
        None => None,
        Some(nm) => match mm_array(lines, nm[0] as usize) {
            None => None,
            Some(a) => if a.len() == 0 {
                None
            } else {
                Some(mm_results(a, mm_qlines(lines, nm[1] as usize)))
            },
        },
    }
}

/// The diagnostics of a whole Range-Max case, in order of emission.
pub open spec fn mm_case_diags(lines: Seq<Seq<u8>>) -> Seq<DiagKind> {
    match preamble(lines) {
        None => seq![DiagKind::ParseError],
        Some(nm) => match mm_array(lines, nm[0] as usize) {
            None => seq![DiagKind::ParseError],
            Some(a) => if a.len() == 0 {
                seq![DiagKind::BuildError]
            } else {
                Seq::new(
                    mm_diag_count(mm_qlines(lines, nm[1] as usize)),
                    |i: int| DiagKind::ParseError,
                )
            },
        },
    }
}

/// The verdict of a whole Range-Max case.
pub open spec fn mm_verdict(input: Seq<Seq<u8>>, expected: Seq<Seq<u8>>) -> bool {
    match mm_case_results(input) {
        None => false,
        Some(res) => outputs_match(expected, res),
    }
}

/// Replays one Range-Max case from its input lines and collects the result
/// sequence, together with the diagnostics the replay emitted.
pub fn min_max_results(lines: &Vec<Vec<u8>>) -> (out: (Option<Vec<usize>>, Vec<DiagKind>))
    ensures
        out.0 is Some <==> mm_case_results(line_views(lines@)) is Some,
        out.0 matches Some(res) ==> mm_case_results(line_views(lines@)) == Some(res@),
        out.1@ == mm_case_diags(line_views(lines@)),
{
    let ghost lv = line_views(lines@);
    let mut diags: Vec<DiagKind> = Vec::new();
    if lines.len() == 0 {
        diags.push(DiagKind::ParseError);
        proof {
            assert(diags@ =~= seq![DiagKind::ParseError]);
        }
        return (None, diags);
    }
    proof {
        assert(lv[0] == lines@[0]@);
    }
    let nm = match parse_record(&lines[0], Some(2)) {
        Some(nm) => nm,
        None => {
            diags.push(DiagKind::ParseError);
            proof {
                assert(diags@ =~= seq![DiagKind::ParseError]);
            }
            return (None, diags);
        },
    };
    let n = nm[0];
    let m = nm[1];
    if lines.len() < 2 {
        diags.push(DiagKind::ParseError);
        proof {
            assert(diags@ =~= seq![DiagKind::ParseError]);
        }
        return (None, diags);
    }
    proof {
        assert(lv[1] == lines@[1]@);
    }
    let a = match parse_record(&lines[1], Some(n)) {
        Some(a) => a,
        None => {
            diags.push(DiagKind::ParseError);
            proof {
                assert(diags@ =~= seq![DiagKind::ParseError]);
            }
            return (None, diags);
        },
    };
    let mut tree = match MaxStruct::new(&a) {
        Some(t) => t,
        None => {
            diags.push(DiagKind::BuildError);
            proof {
                assert(diags@ =~= seq![DiagKind::BuildError]);
            }
            return (None, diags);
        },
    };
    let ghost qs = mm_qlines(lv, m);
    let avail = lines.len() - 2;
    let qcount = if m <= avail {
        m
    } else {
        avail
    };
    let mut res: Vec<usize> = Vec::new();
    let mut qi: usize = 0;
    proof {
        assert(qs.len() == qcount as int);
    }
    while qi < qcount
        invariant
            qi <= qcount,
            2 <= lines@.len(),
            lines@.len() <= usize::MAX,
            qcount <= lines@.len() - 2,
            lv == line_views(lines@),
            qs == mm_qlines(lv, m),
            qs.len() == qcount as int,
            tree@ == mm_state(a@, qs.take(qi as int)),
            res@ == mm_results(a@, qs.take(qi as int)),
            diags@ == Seq::new(mm_diag_count(qs.take(qi as int)), |i: int| DiagKind::ParseError),
        decreases qcount - qi,
    {
        let idx = 2 + qi;
        proof {
            assert(qs[qi as int] == lv[idx as int]);
            assert(lv[idx as int] == lines@[idx as int]@);
            assert(qs.take(qi as int + 1).drop_last() =~= qs.take(qi as int));
            assert(qs.take(qi as int + 1).last() == qs[qi as int]);
        }
        match parse_record(&lines[idx], None) {
            Some(q) => {
                proof {
                    lemma_query_shape(lines@[idx as int]@);
                }
                if q[0] == 0 {
                    tree.assign(q[1], q[2], q[3]);
                } else {
                    match tree.max(q[1], q[2]) {
                        Some(v) => {
                            res.push(v);
                        },
                        None => {},
                    }
                }
                proof {
                    assert(diags@ =~= Seq::new(
                        mm_diag_count(qs.take(qi as int + 1)),
                        |i: int| DiagKind::ParseError,
                    ));
                }
            },
            None => {
                diags.push(DiagKind::ParseError);
                proof {
                    assert(diags@ =~= Seq::new(
                        mm_diag_count(qs.take(qi as int + 1)),
                        |i: int| DiagKind::ParseError,
                    ));
                }
            },
        }
        qi += 1;
    }
    proof {
        assert(qs.take(qcount as int) =~= qs);
    }
    (Some(res), diags)
}


/// The covering intervals of an Interval-Frequency case: the `n` records of
/// arity two that follow the preamble, present exactly when every one of
/// them parses.
pub open spec fn it_intervals(lines: Seq<Seq<u8>>, n: usize) -> Option<Seq<(usize, usize)>> {
    if 1 + n <= lines.len() && (forall|i: int|
        1 <= i < 1 + n ==> parse_record_spec(#[trigger] lines[i], Some(2)) is Some) {
        Some(
            Seq::new(
                n as nat,
                |i: int|
                    {
                        let v = parse_record_spec(lines[1 + i], Some(2)).unwrap();
                        (v[0], v[1])
                    },
            ),
        )
    } else {
        None
    }
}

/// Whether all `m` query records of an Interval-Frequency case parse at
/// arity three.
pub open spec fn it_queries_ok(lines: Seq<Seq<u8>>, n: usize, m: usize) -> bool {
    1 + n + m <= lines.len() && (forall|i: int|
        1 + n <= i < 1 + n + m ==> parse_record_spec(#[trigger] lines[i], Some(3)) is Some)
}

/// The answers of an Interval-Frequency case, one per query record, in
/// query order.
pub open spec fn it_answers(ivs: Seq<(usize, usize)>, lines: Seq<Seq<u8>>, n: usize, m: usize) -> Seq<
    usize,
> {
    Seq::new(
        m as nat,
        |i: int|
            {
                let q = parse_record_spec(lines[1 + n + i], Some(3)).unwrap();
                freq_answer(ivs, q[0] as usize, q[1] as usize, q[2] as usize)
            },
    )
}

/// The result sequence of a whole Interval-Frequency case: absent when the
/// preamble, an interval record or a query record fails to parse or the
/// structure refuses to build; otherwise exactly one answer per query.
pub open spec fn it_case_results(lines: Seq<Seq<u8>>) -> Option<Seq<usize>> {
    match preamble(lines) {
        None => None,
        Some(nm) => match it_intervals(lines, nm[0] as usize) {
            None => None,
            Some(ivs) => if !wf_intervals(ivs) {
                None
            } else {
                if it_queries_ok(lines, nm[0] as usize, nm[1] as usize) {
                    Some(it_answers(ivs, lines, nm[0] as usize, nm[1] as usize))
                } else {
                    None
                }
            },
        },
    }
}

/// The diagnostics of a whole Interval-Frequency case: its first failure,
/// if any (the replay stops at it).
pub open spec fn it_case_diags(lines: Seq<Seq<u8>>) -> Seq<DiagKind> {
    match preamble(lines) {
        None => seq![DiagKind::ParseError],
        Some(nm) => match it_intervals(lines, nm[0] as usize) {
            None => seq![DiagKind::ParseError],
            Some(ivs) => if !wf_intervals(ivs) {
                seq![DiagKind::BuildError]
            } else {
                if it_queries_ok(lines, nm[0] as usize, nm[1] as usize) {
                    Seq::empty()
                } else {
                    seq![DiagKind::ParseError]
                }
            },
        },
    }
}

/// The verdict of a whole Interval-Frequency case.
pub open spec fn it_verdict(input: Seq<Seq<u8>>, expected: Seq<Seq<u8>>) -> bool {
    match it_case_results(input) {
        None => false,
        Some(res) => outputs_match(expected, res),
    }
}

/// Replays one Interval-Frequency case from its input lines and collects
/// the result sequence, together with the diagnostics the replay emitted:
/// exactly one answer per query record on success.
pub fn is_there_results(lines: &Vec<Vec<u8>>) -> (out: (Option<Vec<usize>>, Vec<DiagKind>))
    ensures
        out.0 is Some <==> it_case_results(line_views(lines@)) is Some,
        out.0 matches Some(res) ==> it_case_results(line_views(lines@)) == Some(res@),
        out.1@ == it_case_diags(line_views(lines@)),
        out.0 matches Some(res) ==> (preamble(line_views(lines@)) matches Some(nm) && res@.len()
            == nm[1]),
{
    let ghost lv = line_views(lines@);
    let mut diags: Vec<DiagKind> = Vec::new();
    if lines.len() == 0 {
        diags.push(DiagKind::ParseError);
        proof {
            assert(diags@ =~= seq![DiagKind::ParseError]);
        }
        return (None, diags);
    }
    proof {
        assert(lv[0] == lines@[0]@);
    }
    let nm = match parse_record(&lines[0], Some(2)) {
        Some(nm) => nm,
        None => {
            diags.push(DiagKind::ParseError);
            proof {
                assert(diags@ =~= seq![DiagKind::ParseError]);
            }
            return (None, diags);
        },
    };
    let n = nm[0];
    let m = nm[1];
    // Read the n interval records that follow the preamble.
    let mut ivs: Vec<(usize, usize)> = Vec::new();
    let mut i: usize = 0;
    while i < n
        invariant
            i <= n,
            diags@.len() == 0,
            preamble(lv) == Some(nm@),
            nm@.len() == 2,
            n == nm@[0],
            m == nm@[1],
            lv == line_views(lines@),
            lv.len() == lines@.len(),
            lines@.len() <= usize::MAX,
            1 + i <= lines@.len(),
            ivs@.len() == i as int,
            forall|j: int|
                1 <= j < 1 + i ==> parse_record_spec(#[trigger] lv[j], Some(2)) is Some,
            forall|j: int|
                0 <= j < i ==> #[trigger] ivs@[j] == {
                    let v = parse_record_spec(lv[1 + j], Some(2)).unwrap();
                    (v[0], v[1])
                },
        decreases n - i,
    {
        let idx = 1 + i;
        if idx >= lines.len() {
            diags.push(DiagKind::ParseError);
            proof {
                assert(1 + n > lv.len());
                assert(it_intervals(lv, n) is None);
                assert(diags@ =~= seq![DiagKind::ParseError]);
            }
            return (None, diags);
        }
        proof {
            assert(lv[idx as int] == lines@[idx as int]@);
        }
        match parse_record(&lines[idx], Some(2)) {
            Some(v) => {
                ivs.push((v[0], v[1]));
            },
            None => {
                diags.push(DiagKind::ParseError);
                proof {
                    assert(parse_record_spec(lv[idx as int], Some(2)) is None);
                    assert(it_intervals(lv, n) is None);
                    assert(diags@ =~= seq![DiagKind::ParseError]);
                }
                return (None, diags);
            },
        }
        i += 1;
    }
    proof {
        assert(it_intervals(lv, n) matches Some(s) && s =~= ivs@);
    }
    let tree = match FreqStruct::new(ivs) {
        Some(t) => t,
        None => {
            diags.push(DiagKind::BuildError);
            proof {
                assert(diags@ =~= seq![DiagKind::BuildError]);
            }
            return (None, diags);
        },
    };
    // Replay the m query records in order, one answer each.
    let mut res: Vec<usize> = Vec::new();
    let base = 1 + n;
    let mut qi: usize = 0;
    while qi < m
        invariant
            qi <= m,
            diags@.len() == 0,
            preamble(lv) == Some(nm@),
            nm@.len() == 2,
            n == nm@[0],
            m == nm@[1],
            lv == line_views(lines@),
            lv.len() == lines@.len(),
            lines@.len() <= usize::MAX,
            base == 1 + n,
            n < base <= lines@.len(),
            base + qi <= lines@.len(),
            tree@ == it_intervals(lv, n).unwrap(),
            it_intervals(lv, n) is Some,
            wf_intervals(tree@),
            res@.len() == qi as int,
            forall|j: int|
                base <= j < base + qi ==> parse_record_spec(#[trigger] lv[j], Some(3)) is Some,
            forall|j: int|
                0 <= j < qi ==> #[trigger] res@[j] == {
                    let q = parse_record_spec(lv[base + j], Some(3)).unwrap();
                    freq_answer(tree@, q[0] as usize, q[1] as usize, q[2] as usize)
                },
        decreases m - qi,
    {
        if qi >= lines.len() - base {
            diags.push(DiagKind::ParseError);
            proof {
                assert(base + m > lv.len());
                assert(!it_queries_ok(lv, n, m));
                assert(diags@ =~= seq![DiagKind::ParseError]);
            }
            return (None, diags);
        }
        let idx = base + qi;
        proof {
            assert(lv[idx as int] == lines@[idx as int]@);
        }
        match parse_record(&lines[idx], Some(3)) {
            Some(q) => {
                let val = tree.is_there(q[0], q[1], q[2]);
                res.push(val);
            },
            None => {
                diags.push(DiagKind::ParseError);
                proof {
                    assert(parse_record_spec(lv[idx as int], Some(3)) is None);
                    assert(!it_queries_ok(lv, n, m));
                    assert(diags@ =~= seq![DiagKind::ParseError]);
                }
                return (None, diags);
            },
        }
        qi += 1;
    }
    proof {
        assert(it_queries_ok(lv, n, m));
        assert(res@ =~= it_answers(tree@, lv, n, m));
        assert(diags@ =~= Seq::<DiagKind>::empty());
    }
    (Some(res), diags)
}

/// The verdict of one test case, dispatched on the problem identifier:
/// problem 1 is Range-Max, every other identifier runs Interval-Frequency.
pub open spec fn case_verdict(problem: usize, input: Seq<Seq<u8>>, expected: Seq<Seq<u8>>) -> bool {
    if problem == 1 {
        mm_verdict(input, expected)
    } else {
        it_verdict(input, expected)
    }
}

/// The diagnostics of one test case, dispatched on the problem identifier.
pub open spec fn case_diags(problem: usize, input: Seq<Seq<u8>>) -> Seq<DiagKind> {
    if problem == 1 {
        mm_case_diags(input)
    } else {
        it_case_diags(input)
    }
}

/// Runs one whole test case: replays the input lines through the adapter
/// the problem identifier selects and verifies the collected results
/// against the expected-output lines.
pub fn run_case(problem: usize, input: &Vec<Vec<u8>>, expected: &Vec<Vec<u8>>) -> (out: (
    bool,
    Vec<DiagKind>,
))
    ensures
        out.0 == case_verdict(problem, line_views(input@), line_views(expected@)),
        out.1@ == case_diags(problem, line_views(input@)),
{
    if problem == 1 {
        let (r, d) = min_max_results(input);
        match r {
            Some(res) => (check_outputs(expected, &res), d),
            None => (false, d),
        }
    } else {
        let (r, d) = is_there_results(input);
        match r {
            Some(res) => (check_outputs(expected, &res), d),
            None => (false, d),
        }
    }
}


/// Determinism: the verdict and diagnostics of a case are functions of the
/// fixture lines and the problem identifier alone, so two runs of the
/// harness over the same fixture set report identical lines in the same
/// order.
pub proof fn lemma_determinism(
    problem: usize,
    input: Seq<Seq<u8>>,
    expected: Seq<Seq<u8>>,
    verdict1: bool,
    verdict2: bool,
    diags1: Seq<DiagKind>,
    diags2: Seq<DiagKind>,
)
    requires
        verdict1 == case_verdict(problem, input, expected),
        verdict2 == case_verdict(problem, input, expected),
        diags1 == case_diags(problem, input),
        diags2 == case_diags(problem, input),
    ensures
        verdict1 == verdict2,
        diags1 == diags2,
{
}

/// Whether one query line is a max query whose range yields a defined
/// maximum in state `st`.
pub open spec fn mm_hit(st: Seq<usize>, line: Seq<u8>) -> bool {
    match parse_record_spec(line, None) {
        Some(q) => q[0] == 1 && range_max(st, q[1] as usize, q[2] as usize) is Some,
        None => false,
    }
}

/// How many query lines are max queries with a defined maximum, the array
/// state evolving as the replay proceeds.
pub open spec fn mm_hit_count(a0: Seq<usize>, qs: Seq<Seq<u8>>) -> nat
    decreases qs.len(),
{
    if qs.len() == 0 {
        0
    } else {
        mm_hit_count(a0, qs.drop_last()) + (if mm_hit(mm_state(a0, qs.drop_last()), qs.last()) {
            1nat
        } else {
            0nat
        })
    }
}

/// Order sensitivity, length half: the result sequence of a Range-Max
/// replay holds exactly one entry per max query whose range yielded a
/// defined maximum, in query order.
pub proof fn lemma_results_length(a0: Seq<usize>, qs: Seq<Seq<u8>>)
    ensures
        mm_results(a0, qs).len() == mm_hit_count(a0, qs),
    decreases qs.len(),
{
    if qs.len() > 0 {
        lemma_results_length(a0, qs.drop_last());
    }
}

/// A replay splits at any point: the state and the results of the whole
/// stream are those of the prefix continued by the suffix.
pub proof fn lemma_mm_decompose(a0: Seq<usize>, qs: Seq<Seq<u8>>, j: int)
    requires
        0 <= j <= qs.len(),
    ensures
        mm_state(a0, qs) == mm_state(mm_state(a0, qs.take(j)), qs.skip(j)),
        mm_results(a0, qs) == mm_results(a0, qs.take(j)) + mm_results(
            mm_state(a0, qs.take(j)),
            qs.skip(j),
        ),
    decreases qs.len(),
{
    if j == qs.len() {
        assert(qs.take(j) =~= qs);
        assert(qs.skip(j) =~= Seq::<Seq<u8>>::empty());
        assert(mm_results(a0, qs) =~= mm_results(a0, qs.take(j)) + mm_results(
            mm_state(a0, qs.take(j)),
            qs.skip(j),
        ));
    } else {
        let dl = qs.drop_last();
        lemma_mm_decompose(a0, dl, j);
        let st = mm_state(a0, qs.take(j));
        assert(dl.take(j) =~= qs.take(j));
        assert(qs.skip(j).drop_last() =~= dl.skip(j));
        assert(qs.skip(j).last() == qs.last());
        assert(qs.skip(j).len() > 0);
        assert(mm_state(a0, qs) == mm_state(st, qs.skip(j)));
        assert(mm_results(a0, qs) =~= mm_results(a0, qs.take(j)) + mm_results(st, qs.skip(j)));
    }
}

/// Order sensitivity, reorder half: exchanging two adjacent query lines,
/// neither of which is a well-formed assignment record, exchanges exactly
/// their contributions to the result sequence and changes nothing else.
pub proof fn lemma_adjacent_query_swap(a0: Seq<usize>, qs: Seq<Seq<u8>>, i: int)
    requires
        0 <= i,
        i + 1 < qs.len(),
        mm_neutral(qs[i]),
        mm_neutral(qs[i + 1]),
    ensures
        ({
            let st = mm_state(a0, qs.take(i));
            let swapped = qs.update(i, qs[i + 1]).update(i + 1, qs[i]);
            let tail = mm_results(st, qs.skip(i + 2));
            mm_results(a0, qs) == mm_results(a0, qs.take(i)) + mm_contrib(st, qs[i]) + mm_contrib(
                st,
                qs[i + 1],
            ) + tail && mm_results(a0, swapped) == mm_results(a0, qs.take(i)) + mm_contrib(
                st,
                qs[i + 1],
            ) + mm_contrib(st, qs[i]) + tail
        }),
{
    let st = mm_state(a0, qs.take(i));
    let swapped = qs.update(i, qs[i + 1]).update(i + 1, qs[i]);
    let tail = mm_results(st, qs.skip(i + 2));
    lemma_swap_half(a0, qs, i, qs[i], qs[i + 1]);
    assert(swapped.take(i) =~= qs.take(i));
    assert(swapped[i] == qs[i + 1] && swapped[i + 1] == qs[i]);
    assert(swapped.skip(i + 2) =~= qs.skip(i + 2));
    lemma_swap_half(a0, swapped, i, qs[i + 1], qs[i]);
}

/// One half of the swap argument: a replay whose lines at `i` and `i + 1`
/// are the neutral lines `a` then `b` splits into prefix results, the two
/// contributions at the prefix state, and the suffix results at that same
/// state.
proof fn lemma_swap_half(a0: Seq<usize>, qs: Seq<Seq<u8>>, i: int, a: Seq<u8>, b: Seq<u8>)
    requires
        0 <= i,
        i + 1 < qs.len(),
        qs[i] == a,
        qs[i + 1] == b,
        mm_neutral(a),
        mm_neutral(b),
    ensures
        mm_results(a0, qs) == mm_results(a0, qs.take(i)) + mm_contrib(
            mm_state(a0, qs.take(i)),
            a,
        ) + mm_contrib(mm_state(a0, qs.take(i)), b) + mm_results(
            mm_state(a0, qs.take(i)),
            qs.skip(i + 2),
        ),
{
    let st = mm_state(a0, qs.take(i));
    lemma_mm_decompose(a0, qs, i + 2);
    let pre2 = qs.take(i + 2);
    assert(pre2.drop_last() =~= qs.take(i + 1));
    assert(qs.take(i + 1).drop_last() =~= qs.take(i));
    assert(qs.take(i + 1).last() == a);
    assert(pre2.last() == b);
    // Neutral lines leave the state alone, so both contributions are taken
    // at the prefix state.
    assert(mm_state(a0, qs.take(i + 1)) == mm_step(st, a));
    assert(mm_step(st, a) == st);
    assert(mm_state(a0, pre2) == st);
    assert(mm_results(a0, qs.take(i + 1)) == mm_results(a0, qs.take(i)) + mm_contrib(st, a));
    assert(mm_results(a0, pre2) == mm_results(a0, qs.take(i)) + mm_contrib(st, a) + mm_contrib(
        st,
        b,
    ));
    assert(mm_results(a0, qs) =~= mm_results(a0, qs.take(i)) + mm_contrib(st, a) + mm_contrib(
        st,
        b,
    ) + mm_results(st, qs.skip(i + 2)));
}

} // verus!
