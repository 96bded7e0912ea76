//! Verified text utilities: substring search over character sequences and
//! decimal formatting of integers.
//!
//! Payload isolation (finding an assignment marker inside script text) and
//! pagination-header inspection are plain substring problems, so they are
//! solved here once, against an exact specification of "first occurrence".

use vstd::prelude::*;
use vstd::string::StrSliceExecFns;
use vstd::string::StringExecFns;

verus! {

broadcast use vstd::string::group_string_axioms;

/// The pattern occurs in `s` starting at position `i`.
pub open spec fn matches_at(s: Seq<char>, pat: Seq<char>, i: int) -> bool {
    0 <= i && i + pat.len() <= s.len() && s.subrange(i, i + pat.len() as int) == pat
}

/// The pattern occurs somewhere in `s`.
pub open spec fn contains_seq(s: Seq<char>, pat: Seq<char>) -> bool {
    exists|i: int| matches_at(s, pat, i)
}

/// Position of the first occurrence of `pat` in `s`, if any.
pub open spec fn spec_find(s: Seq<char>, pat: Seq<char>) -> Option<int>
    decreases s.len(),
{
    if pat.len() == 0 {
        Some(0)
    } else if s.len() < pat.len() {
        None
    } else if s.subrange(0, pat.len() as int) == pat {
        Some(0)
    } else {
        match spec_find(s.drop_first(), pat) {
            Some(i) => Some(i + 1),
            None => None,
        }
    }
}

/// Occurrences shift by one position when the first character is dropped.
proof fn lemma_matches_at_shift(s: Seq<char>, pat: Seq<char>, i: int)
    requires
        s.len() > 0,
        1 <= i,
    ensures
        matches_at(s, pat, i) <==> matches_at(s.drop_first(), pat, i - 1),
{
    if i + pat.len() <= s.len() {
        assert(s.drop_first().subrange(i - 1, i - 1 + pat.len() as int) =~= s.subrange(
            i,
            i + pat.len() as int,
        ));
    }
}

/// An occurrence inside a contiguous piece of `s` is an occurrence of the
/// whole, shifted by the piece's start, and conversely.
pub proof fn lemma_matches_at_subrange(s: Seq<char>, pat: Seq<char>, a: int, b: int, j: int)
    requires
        0 <= a <= b <= s.len(),
        0 <= j,
    ensures
        matches_at(s.subrange(a, b), pat, j) <==> (j + pat.len() <= b - a && matches_at(
            s,
            pat,
            a + j,
        )),
{
    if j + pat.len() <= b - a {
        assert(s.subrange(a, b).subrange(j, j + pat.len() as int) =~= s.subrange(
            a + j,
            a + j + pat.len() as int,
        ));
    }
}

/// `spec_find` returns the first occurrence, and `None` exactly when there
/// is no occurrence at all.
pub proof fn lemma_spec_find_first(s: Seq<char>, pat: Seq<char>)
    ensures
        match spec_find(s, pat) {
            Some(i) => matches_at(s, pat, i) && (forall|j: int|
                0 <= j < i ==> !matches_at(s, pat, j)),
            None => !contains_seq(s, pat),
        },
    decreases s.len(),
{
    if pat.len() == 0 {
        assert(s.subrange(0, 0) =~= pat);
        assert(matches_at(s, pat, 0));
    } else if s.len() < pat.len() {
        assert forall|i: int| !matches_at(s, pat, i) by {}
    } else if s.subrange(0, pat.len() as int) == pat {
        assert(matches_at(s, pat, 0));
    } else {
        lemma_spec_find_first(s.drop_first(), pat);
        assert(!matches_at(s, pat, 0));
        match spec_find(s.drop_first(), pat) {
            Some(i) => {
                lemma_matches_at_shift(s, pat, i + 1);
                assert forall|j: int| 0 <= j < i + 1 implies !matches_at(s, pat, j) by {
                    if 1 <= j {
                        lemma_matches_at_shift(s, pat, j);
                    }
                }
            },
            None => {
                assert forall|j: int| !matches_at(s, pat, j) by {
                    if 1 <= j {
                        lemma_matches_at_shift(s, pat, j);
                    }
                }
            },
        }
    }
}

/// Position of the first occurrence of `pat` in `hay`, or `None` when the
/// pattern does not occur.
pub fn find_in(hay: &Vec<char>, pat: &Vec<char>) -> (r: Option<usize>)
    ensures
        match r {
            Some(i) => spec_find(hay@, pat@) == Some(i as int) && matches_at(hay@, pat@, i as int),
            None => spec_find(hay@, pat@) is None && !contains_seq(hay@, pat@),
        },
{
    proof {
        lemma_spec_find_first(hay@, pat@);
    }
    let n = hay.len();
    let m = pat.len();
    if m == 0 {
        proof {
            assert(hay@.subrange(0, 0) =~= pat@);
        }
        return Some(0);
    }
    if n < m {
        return None;
    }
    let mut i: usize = 0;
    while i <= n - m
        invariant
            m >= 1,
            m <= n,
            n == hay@.len(),
            m == pat@.len(),
            i <= n - m + 1,
            forall|j: int| 0 <= j < i ==> !matches_at(hay@, pat@, j),
        decreases n - i,
    {
        let mut k: usize = 0;
        let mut mismatch = false;
        while k < m && !mismatch
            invariant
                m >= 1,
                i + m <= n,
                n == hay@.len(),
                m == pat@.len(),
                k <= m,
                !mismatch ==> forall|l: int| 0 <= l < k ==> hay@[i + l] == pat@[l],
                mismatch ==> !matches_at(hay@, pat@, i as int),
            decreases m - k + (if mismatch {
                0int
            } else {
                1int
            }),
        {
            if hay[i + k] != pat[k] {
                proof {
                    assert(hay@.subrange(i as int, i + m as int)[k as int] == hay@[i + k]);
                }
                mismatch = true;
            } else {
                k += 1;
            }
        }
        if !mismatch {
            proof {
                assert(hay@.subrange(i as int, i + m as int) =~= pat@);
                assert(matches_at(hay@, pat@, i as int));
                lemma_spec_find_first(hay@, pat@);
                match spec_find(hay@, pat@) {
                    None => {
                        assert(contains_seq(hay@, pat@));
                    },
                    Some(i0) => {
                        if i0 < i {
                            assert(!matches_at(hay@, pat@, i0));
                        } else if i0 > i {
                            assert(!matches_at(hay@, pat@, i as int));
                        }
                    },
                }
            }
            return Some(i);
        }
        i += 1;
    }
    proof {
        assert forall|j: int| !matches_at(hay@, pat@, j) by {
            if 0 <= j < i {
            } else if j + pat@.len() > hay@.len() {
            }
        }
    }
    None
}

/// The characters of a string slice, as an indexable vector.
pub fn chars_vec(s: &str) -> (v: Vec<char>)
    ensures
        v@ == s@,
{
    let mut v: Vec<char> = Vec::new();
    for c in it: s.chars()
        invariant
            it.seq() == s@,
            v@.len() == it.index(),
            forall|i: int| 0 <= i < v@.len() ==> v@[i] == it.seq()[i],
    {
        v.push(c);
    }
    proof {
        assert(v@ =~= s@);
    }
    v
}

/// The single character spelling a decimal digit.
pub open spec fn dec_digit(d: nat) -> Seq<char> {
    if d == 0 {
        "0"@
    } else if d == 1 {
        "1"@
    } else if d == 2 {
        "2"@
    } else if d == 3 {
        "3"@
    } else if d == 4 {
        "4"@
    } else if d == 5 {
        "5"@
    } else if d == 6 {
        "6"@
    } else if d == 7 {
        "7"@
    } else if d == 8 {
        "8"@
    } else {
        "9"@
    }
}

/// The usual decimal spelling of a natural number, most significant digit
/// first and without leading zeros (`0` spells as "0").
pub open spec fn dec_str(n: nat) -> Seq<char>
    decreases n,
{
    if n < 10 {
        dec_digit(n)
    } else {
        dec_str(n / 10) + dec_digit(n % 10)
    }
}

fn digit_str(d: u64) -> (r: &'static str)
    requires
        d < 10,
    ensures
        r@ == dec_digit(d as nat),
{
    match d {
        0 => "0",
        1 => "1",
        2 => "2",
        3 => "3",
        4 => "4",
        5 => "5",
        6 => "6",
        7 => "7",
        8 => "8",
        _ => "9",
    }
}

/// The decimal spelling of `n`.
pub fn u64_to_string(n: u64) -> (r: String)
    ensures
        r@ == dec_str(n as nat),
    decreases n,
{
    if n < 10 {
        String::from_str(digit_str(n))
    } else {
        proof {
            assert(n / 10 < n) by (nonlinear_arith)
                requires
                    n >= 10,
            ;
        }
        let mut s = u64_to_string(n / 10);
        s.append(digit_str(n % 10));
        s
    }
}

/// The contiguous piece of `v` from `from` (inclusive) to `to` (exclusive).
pub fn subrange_vec(v: &Vec<char>, from: usize, to: usize) -> (r: Vec<char>)
    requires
        from <= to <= v@.len(),
    ensures
        r@ == v@.subrange(from as int, to as int),
{
    let mut r: Vec<char> = Vec::new();
    let mut i: usize = from;
    while i < to
        invariant
            from <= i <= to <= v@.len(),
            r@ == v@.subrange(from as int, i as int),
        decreases to - i,
    {
        r.push(v[i]);
        proof {
            assert(r@ =~= v@.subrange(from as int, i + 1));
        }
        i += 1;
    }
    r
}

} // verus!
