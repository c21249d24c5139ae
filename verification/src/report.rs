//! Fixture paths and report lines, built as ASCII bytes: the fixture
//! locator's path template and the reporter's per-case and per-problem
//! lines.

use vstd::prelude::*;

verus! {

/// The decimal digits of `x`, most significant first, no sign and no
/// leading zero (a single `0` for zero itself).
pub open spec fn dec_digits(x: nat) -> Seq<u8>
    decreases x,
{
    if x < 10 {
        seq![(48 + x) as u8]
    } else {
        dec_digits(x / 10).push((48 + x % 10) as u8)
    }
}

/// `"Test "`.
pub open spec fn test_prefix_text() -> Seq<u8> {
    seq![84u8, 101, 115, 116, 32]
}

/// `" - Passed"`.
pub open spec fn passed_text() -> Seq<u8> {
    seq![32u8, 45, 32, 80, 97, 115, 115, 101, 100]
}

/// `" - Failed"`.
pub open spec fn failed_text() -> Seq<u8> {
    seq![32u8, 45, 32, 70, 97, 105, 108, 101, 100]
}

/// `"Testing Problem #"`.
pub open spec fn header_text() -> Seq<u8> {
    seq![84u8, 101, 115, 116, 105, 110, 103, 32, 80, 114, 111, 98, 108, 101, 109, 32, 35]
}

/// `"./Testset_handson2_p"`.
pub open spec fn dir_text() -> Seq<u8> {
    seq![46u8, 47, 84, 101, 115, 116, 115, 101, 116, 95, 104, 97, 110, 100, 115, 111, 110, 50, 95, 112]
}

/// `"/input"`.
pub open spec fn input_text() -> Seq<u8> {
    seq![47u8, 105, 110, 112, 117, 116]
}

/// `"/output"`.
pub open spec fn output_text() -> Seq<u8> {
    seq![47u8, 111, 117, 116, 112, 117, 116]
}

/// `".txt"`.
pub open spec fn ext_text() -> Seq<u8> {
    seq![46u8, 116, 120, 116]
}

/// The reporter's line for one case: `"Test <i> - Passed"` or
/// `"Test <i> - Failed"`.
pub open spec fn result_line(passed: bool, i: nat) -> Seq<u8> {
    test_prefix_text() + dec_digits(i) + (if passed {
        passed_text()
    } else {
        failed_text()
    })
}

/// The reporter's banner for one problem: `"Testing Problem #<p>"`.
pub open spec fn header_line(p: nat) -> Seq<u8> {
    header_text() + dec_digits(p)
}

/// The input fixture path: `"./Testset_handson2_p<p>/input<j>.txt"`.
pub open spec fn input_path(p: nat, j: nat) -> Seq<u8> {
    dir_text() + dec_digits(p) + input_text() + dec_digits(j) + ext_text()
}

/// The expected-output fixture path: `"./Testset_handson2_p<p>/output<j>.txt"`.
pub open spec fn output_path(p: nat, j: nat) -> Seq<u8> {
    dir_text() + dec_digits(p) + output_text() + dec_digits(j) + ext_text()
}

/// Writes `n` in decimal.
pub fn format_usize(n: usize) -> (r: Vec<u8>)
    ensures
        r@ == dec_digits(n as nat),
    decreases n,
{
    if n < 10 {
        let mut r: Vec<u8> = Vec::new();
        r.push(48 + n as u8);
        proof {
            assert(r@ =~= dec_digits(n as nat));
        }
        r
    } else {
        let mut r = format_usize(n / 10);
        r.push(48 + (n % 10) as u8);
        r
    }
}

/// Writes the reporter's line for one case.
pub fn format_result_line(passed: bool, i: usize) -> (r: Vec<u8>)
    ensures
        r@ == result_line(passed, i as nat),
{
    let mut r: Vec<u8> = vec![84u8, 101, 115, 116, 32];
    let mut d = format_usize(i);
    r.append(&mut d);
    let mut suffix: Vec<u8> = if passed {
        vec![32u8, 45, 32, 80, 97, 115, 115, 101, 100]
    } else {
        vec![32u8, 45, 32, 70, 97, 105, 108, 101, 100]
    };
    r.append(&mut suffix);
    proof {
        assert(r@ =~= result_line(passed, i as nat));
    }
    r
}

/// Writes the reporter's banner for one problem.
pub fn format_header_line(p: usize) -> (r: Vec<u8>)
    ensures
        r@ == header_line(p as nat),
{
    let mut r: Vec<u8> = vec![
        84u8,
        101,
        115,
        116,
        105,
        110,
        103,
        32,
        80,
        114,
        111,
        98,
        108,
        101,
        109,
        32,
        35,
    ];
    let mut d = format_usize(p);
    r.append(&mut d);
    proof {
        assert(r@ =~= header_line(p as nat));
    }
    r
}

fn push_dir_text(r: &mut Vec<u8>)
    ensures
        final(r)@ == old(r)@ + dir_text(),
{
    let mut d: Vec<u8> = vec![
        46u8,
        47,
        84,
        101,
        115,
        116,
        115,
        101,
        116,
        95,
        104,
        97,
        110,
        100,
        115,
        111,
        110,
        50,
        95,
        112,
    ];
    r.append(&mut d);
    proof {
        assert(r@ =~= old(r)@ + dir_text());
    }
}

/// Writes the input fixture path for problem `p`, test index `j`.
pub fn format_input_path(p: usize, j: usize) -> (r: Vec<u8>)
    ensures
        r@ == input_path(p as nat, j as nat),
{
    let mut r: Vec<u8> = Vec::new();
    push_dir_text(&mut r);
    let mut dp = format_usize(p);
    r.append(&mut dp);
    let mut mid: Vec<u8> = vec![47u8, 105, 110, 112, 117, 116];
    r.append(&mut mid);
    let mut dj = format_usize(j);
    r.append(&mut dj);
    let mut ext: Vec<u8> = vec![46u8, 116, 120, 116];
    r.append(&mut ext);
    proof {
        assert(r@ =~= input_path(p as nat, j as nat));
    }
    r
}

/// Writes the expected-output fixture path for problem `p`, test index `j`.
pub fn format_output_path(p: usize, j: usize) -> (r: Vec<u8>)
    ensures
        r@ == output_path(p as nat, j as nat),
{
    let mut r: Vec<u8> = Vec::new();
    push_dir_text(&mut r);
    let mut dp = format_usize(p);
    r.append(&mut dp);
    let mut mid: Vec<u8> = vec![47u8, 111, 117, 116, 112, 117, 116];
    r.append(&mut mid);
    let mut dj = format_usize(j);
    r.append(&mut dj);
    let mut ext: Vec<u8> = vec![46u8, 116, 120, 116];
    r.append(&mut ext);
    proof {
        assert(r@ =~= output_path(p as nat, j as nat));
    }
    r
}

} // verus!
