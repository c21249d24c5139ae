//! The record parser: turns one text line (as bytes) into a fixed-arity
//! sequence of non-negative integers, enforcing an exact expected arity.

use vstd::prelude::*;

verus! {

/// The ASCII whitespace bytes that separate tokens on a line.
pub open spec fn is_ws(b: u8) -> bool {
    b == 32u8 || b == 9u8 || b == 10u8 || b == 11u8 || b == 12u8 || b == 13u8
}

/// ASCII decimal digit.
pub open spec fn is_digit(b: u8) -> bool {
    48u8 <= b && b <= 57u8
}

/// The views of a vector of byte lines, as a sequence of byte sequences.
pub open spec fn line_views(ls: Seq<Vec<u8>>) -> Seq<Seq<u8>> {
    ls.map(|i: int, l: Vec<u8>| l@)
}

/// The whitespace-separated tokens of a line, in order, defined byte by byte
/// from the back: a whitespace byte closes the current token, a non-whitespace
/// byte either starts a new token (at the start of the line or after
/// whitespace) or extends the last one.
pub open spec fn tokenize(s: Seq<u8>) -> Seq<Seq<u8>>
    decreases s.len(),
{
    if s.len() == 0 {
        Seq::empty()
    } else {
        let pre = tokenize(s.drop_last());
        let b = s.last();
        if is_ws(b) {
            pre
        } else if s.len() == 1 || is_ws(s[s.len() - 2]) {
            pre.push(seq![b])
        } else {
            pre.update(pre.len() - 1, pre.last().push(b))
        }
    }
}

/// The value of a sequence of decimal digit bytes, most significant first.
pub open spec fn digits_value(t: Seq<u8>) -> nat
    decreases t.len(),
{
    if t.len() == 0 {
        0
    } else {
        digits_value(t.drop_last()) * 10 + (if is_digit(t.last()) { (t.last() - 48) as nat } else { 0 })
    }
}

/// A token may carry one optional leading `+` sign before its digits.
pub open spec fn digits_part(t: Seq<u8>) -> Seq<u8> {
    if t.len() > 0 && t[0] == 43u8 {
        t.drop_first()
    } else {
        t
    }
}

pub open spec fn all_digits(t: Seq<u8>) -> bool {
    forall|i: int| 0 <= i < t.len() ==> is_digit(#[trigger] t[i])
}

/// Whether a token is a well-formed non-negative integer that fits in `usize`:
/// an optional `+` sign, then one or more decimal digits, value in range.
pub open spec fn token_is_uint(t: Seq<u8>) -> bool {
    digits_part(t).len() > 0 && all_digits(digits_part(t)) && digits_value(digits_part(t))
        <= usize::MAX
}

/// The numeric value of a well-formed token.
pub open spec fn token_uint(t: Seq<u8>) -> nat {
    digits_value(digits_part(t))
}

/// The expected arity of a record: either given by the caller, or derived
/// from the leading discriminator token (`0` asks for four fields, `1` for
/// three, anything else is invalid).
pub open spec fn record_arity(s: Seq<u8>, expected: Option<usize>) -> Option<usize> {
    match expected {
        Some(k) => Some(k),
        None => {
            let ts = tokenize(s);
            if ts.len() == 0 || !token_is_uint(ts[0]) {
                None
            } else if token_uint(ts[0]) == 0 {
                Some(4)
            } else if token_uint(ts[0]) == 1 {
                Some(3)
            } else {
                None
            }
        },
    }
}

/// What parsing one line must produce: the token values, in order, exactly
/// when the token count equals the expected arity and every token is a
/// well-formed non-negative integer; a failure otherwise.
pub open spec fn parse_record_spec(s: Seq<u8>, expected: Option<usize>) -> Option<Seq<usize>> {
    match record_arity(s, expected) {
        None => None,
        Some(k) => {
            let ts = tokenize(s);
            if ts.len() == k && (forall|i: int| 0 <= i < ts.len() ==> token_is_uint(#[trigger] ts[i])) {
                Some(ts.map(|i: int, t: Seq<u8>| token_uint(t) as usize))
            } else {
                None
            }
        },
    }
}

/// A record of derived arity opens with its discriminator: `0` announces a
/// four-field record, `1` a three-field one, and nothing else parses.
pub proof fn lemma_query_shape(l: Seq<u8>)
    requires
        parse_record_spec(l, None) is Some,
    ensures
        ({
            let q = parse_record_spec(l, None).unwrap();
            (q[0] == 0 ==> q.len() == 4) && (q[0] == 1 ==> q.len() == 3) && (q[0] == 0 || q[0]
                == 1)
        }),
{
    let ts = tokenize(l);
    assert(token_is_uint(ts[0]));
    assert(token_uint(ts[0]) <= usize::MAX);
}

/// A record parses only at its exact expected arity: a line whose token
/// count disagrees is refused whole, never truncated or padded.
pub proof fn lemma_parse_strictness(s: Seq<u8>, k: usize)
    ensures
        tokenize(s).len() != k ==> parse_record_spec(s, Some(k)) is None,
        parse_record_spec(s, Some(k)) matches Some(v) ==> v.len() == k && tokenize(s).len() == k,
{
}

fn is_ws_byte(b: u8) -> (res: bool)
    ensures
        res == is_ws(b),
{
    b == 32 || b == 9 || b == 10 || b == 11 || b == 12 || b == 13
}

/// Splits a line into its whitespace-separated tokens.
fn tokenize_line(line: &Vec<u8>) -> (r: Vec<Vec<u8>>)
    ensures
        line_views(r@) == tokenize(line@),
{
    let mut r: Vec<Vec<u8>> = Vec::new();
    let mut cur: Vec<u8> = Vec::new();
    let n = line.len();
    let mut i: usize = 0;
    while i < n
        invariant
            n == line@.len(),
            i <= n,
            cur@.len() > 0 <==> (i > 0 && !is_ws(line@[i as int - 1])),
            cur@.len() == 0 ==> tokenize(line@.take(i as int)) == line_views(r@),
            cur@.len() > 0 ==> tokenize(line@.take(i as int)) == line_views(r@).push(cur@),
        decreases n - i,
    {
        let ghost prefix = line@.take(i as int);
        let ghost prefix1 = line@.take(i as int + 1);
        proof {
            assert(prefix1.drop_last() =~= prefix);
            assert(prefix1.last() == line@[i as int]);
        }
        let b = line[i];
        if is_ws_byte(b) {
            if cur.len() > 0 {
                let ghost old_r = r@;
                let ghost done = cur@;
                r.push(cur);
                cur = Vec::new();
                proof {
                    assert(line_views(r@) =~= line_views(old_r).push(done));
                }
            }
        } else {
            if cur.len() == 0 {
                cur.push(b);
                proof {
                    assert(cur@ =~= seq![b]);
                }
            } else {
                let ghost old_cur = cur@;
                cur.push(b);
                proof {
                    let pre = tokenize(prefix);
                    assert(pre == line_views(r@).push(old_cur));
                    assert(pre.update(pre.len() - 1, pre.last().push(b)) =~= line_views(r@).push(
                        cur@,
                    ));
                }
            }
        }
        i += 1;
    }
    proof {
        assert(line@.take(n as int) =~= line@);
    }
    if cur.len() > 0 {
        let ghost old_r = r@;
        let ghost done = cur@;
        r.push(cur);
        proof {
            assert(line_views(r@) =~= line_views(old_r).push(done));
        }
    }
    r
}

/// Truncating a digit string can only lower its value.
proof fn lemma_digits_value_mono(t: Seq<u8>, j: int)
    requires
        0 <= j <= t.len(),
    ensures
        digits_value(t.take(j)) <= digits_value(t),
    decreases t.len(),
{
    if j < t.len() {
        assert(t.drop_last().take(j) =~= t.take(j));
        lemma_digits_value_mono(t.drop_last(), j);
    } else {
        assert(t.take(j) =~= t);
    }
}

/// Parses one token as a non-negative integer, exactly as `token_is_uint`
/// and `token_uint` describe it.
pub(crate) fn parse_token(t: &Vec<u8>) -> (r: Option<usize>)
    ensures
        token_is_uint(t@) ==> r == Some(token_uint(t@) as usize),
        !token_is_uint(t@) ==> r is None,
{
    let n = t.len();
    let start: usize = if n > 0 && t[0] == 43 {
        1
    } else {
        0
    };
    let ghost dp = digits_part(t@);
    proof {
        assert(dp =~= t@.skip(start as int));
    }
    if start == n {
        return None;
    }
    let mut acc: usize = 0;
    let mut i: usize = start;
    while i < n
        invariant
            start <= i <= n,
            n == t@.len(),
            dp == digits_part(t@),
            dp =~= t@.skip(start as int),
            forall|j: int| 0 <= j < i - start ==> is_digit(#[trigger] dp[j]),
            acc == digits_value(dp.take(i as int - start as int)),
        decreases n - i,
    {
        let b = t[i];
        proof {
            assert(dp[i as int - start as int] == t@[i as int]);
        }
        if b < 48 || b > 57 {
            return None;
        }
        let d = (b - 48) as usize;
        let wide: u128 = acc as u128 * 10 + d as u128;
        proof {
            assert(dp.take(i as int - start as int + 1).drop_last() =~= dp.take(
                i as int - start as int,
            ));
        }
        if wide > usize::MAX as u128 {
            proof {
                lemma_digits_value_mono(dp, i as int - start as int + 1);
            }
            return None;
        }
        acc = wide as usize;
        i += 1;
    }
    proof {
        assert(dp.take(n as int - start as int) =~= dp);
    }
    Some(acc)
}

/// Parses one line into a record of `expected` (or derived) arity, exactly
/// as `parse_record_spec` describes it.  A failure stands for one diagnostic
/// on the caller's side.
pub fn parse_record(line: &Vec<u8>, expected: Option<usize>) -> (r: Option<Vec<usize>>)
    ensures
        r is Some <==> parse_record_spec(line@, expected) is Some,
        r matches Some(v) ==> parse_record_spec(line@, expected) == Some(v@),
{
    let tokens = tokenize_line(line);
    let ghost ts = tokenize(line@);
    proof {
        assert(line_views(tokens@).len() == ts.len());
    }
    let k: usize = match expected {
        Some(k) => k,
        None => {
            if tokens.len() == 0 {
                return None;
            }
            proof {
                assert(line_views(tokens@)[0] == tokens@[0]@);
            }
            match parse_token(&tokens[0]) {
                Some(d) => {
                    if d == 0 {
                        4
                    } else if d == 1 {
                        3
                    } else {
                        return None;
                    }
                },
                None => {
                    return None;
                },
            }
        },
    };
    if tokens.len() != k {
        return None;
    }
    let mut vals: Vec<usize> = Vec::new();
    let mut i: usize = 0;
    while i < k
        invariant
            i <= k,
            ts == tokenize(line@),
            k == ts.len(),
            tokens@.len() == ts.len(),
            line_views(tokens@) == ts,
            record_arity(line@, expected) == Some(k as usize),
            vals@.len() == i,
            forall|j: int|
                0 <= j < i ==> token_is_uint(#[trigger] ts[j]) && vals@[j] == token_uint(
                    ts[j],
                ) as usize,
        decreases k - i,
    {
        proof {
            assert(line_views(tokens@)[i as int] == tokens@[i as int]@);
        }
        match parse_token(&tokens[i]) {
            Some(v) => {
                vals.push(v);
            },
            None => {
                proof {
                    assert(!token_is_uint(tokenize(line@)[i as int]));
                    assert(parse_record_spec(line@, expected) is None);
                }
                return None;
            },
        }
        i += 1;
    }
    proof {
        assert(vals@ =~= ts.map(|j: int, t: Seq<u8>| token_uint(t) as usize));
    }
    Some(vals)
}

} // verus!
