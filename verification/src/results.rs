//! Result-file bookkeeping for the comparison harness.
//!
//! A result file is named `{impl}_{case}.json`, or
//! `{impl}_{case}_{YYYYMMDD}_{HHMMSS}.json` once a run stamp is appended.
//! This module recovers the test-case name from a file name, orders file
//! names so the newest run wins, and tallies how many result/reference pairs
//! agree. File names are handled as byte strings.

use vstd::prelude::*;

verus! {

/// An ASCII decimal digit.
pub open spec fn is_digit(b: u8) -> bool {
    48 <= b <= 57
}

/// The name ends in a run stamp `_YYYYMMDD_HHMMSS`: an underscore, eight
/// digits, an underscore, six digits, the eight digits forming a whole
/// underscore-separated field (they start the name or follow an underscore).
pub open spec fn has_stamp_suffix(rest: Seq<u8>) -> bool {
    let n = rest.len() as int;
    &&& n >= 15
    &&& (forall|i: int| n - 15 <= i < n - 7 ==> is_digit(#[trigger] rest[i]))
    &&& rest[n - 7] == 95
    &&& (forall|i: int| n - 6 <= i < n ==> is_digit(#[trigger] rest[i]))
    &&& (n == 15 || rest[n - 16] == 95)
}

/// The name with a trailing run stamp removed, underscore included; a name
/// without a stamp stays whole.
pub open spec fn stamp_stripped(rest: Seq<u8>) -> Seq<u8> {
    if has_stamp_suffix(rest) {
        if rest.len() == 15 {
            Seq::empty()
        } else {
            rest.subrange(0, rest.len() - 16)
        }
    } else {
        rest
    }
}

/// The `.json` suffix.
pub open spec fn json_suffix() -> Seq<u8> {
    seq![46u8, 106u8, 115u8, 111u8, 110u8]
}

/// The test case a result file records, given the `{impl}_` prefix: the
/// name between prefix and `.json` extension, any run stamp removed —
/// nothing when the name does not carry both prefix and extension.
pub open spec fn result_case_of(name: Seq<u8>, prefix: Seq<u8>) -> Option<Seq<u8>> {
    if name.len() >= prefix.len() + 5
        && name.subrange(0, prefix.len() as int) == prefix
        && name.subrange(name.len() - 5, name.len() as int) == json_suffix()
    {
        Some(stamp_stripped(name.subrange(prefix.len() as int, name.len() - 5)))
    } else {
        None
    }
}

/// Every byte in `[lo, hi)` is an ASCII digit.
fn all_digits_range(v: &Vec<u8>, lo: usize, hi: usize) -> (r: bool)
    requires
        lo <= hi <= v@.len(),
    ensures
        r == (forall|i: int| lo <= i < hi ==> is_digit(#[trigger] v@[i])),
{
    let mut i = lo;
    while i < hi
        invariant
            lo <= i <= hi <= v@.len(),
            forall|k: int| lo <= k < i ==> is_digit(#[trigger] v@[k]),
        decreases hi - i,
    {
        let b = v[i];
        if b < 48 || b > 57 {
            assert(!is_digit(v@[i as int]));
            return false;
        }
        i = i + 1;
    }
    true
}

/// A copy of the bytes in `[lo, hi)`.
fn subrange_vec(v: &Vec<u8>, lo: usize, hi: usize) -> (r: Vec<u8>)
    requires
        lo <= hi <= v@.len(),
    ensures
        r@ == v@.subrange(lo as int, hi as int),
{
    let mut r: Vec<u8> = Vec::new();
    let mut i = lo;
    while i < hi
        invariant
            lo <= i <= hi <= v@.len(),
            r@.len() == i - lo,
            forall|k: int| 0 <= k < r@.len() ==> #[trigger] r@[k] == v@[lo + k],
        decreases hi - i,
    {
        r.push(v[i]);
        i = i + 1;
    }
    proof {
        assert(r@ =~= v@.subrange(lo as int, hi as int));
    }
    r
}

/// Recovers the test-case name from a result file name, given the
/// implementation prefix (the implementation's name with its trailing
/// underscore): the bytes between the prefix and the `.json` extension,
/// with any trailing run stamp removed. Nothing when the name lacks the
/// prefix or the extension.
pub fn result_case_of_filename(name: &Vec<u8>, prefix: &Vec<u8>) -> (r: Option<Vec<u8>>)
    ensures
        match r {
            Some(case) => result_case_of(name@, prefix@) == Some(case@),
            None => result_case_of(name@, prefix@) is None,
        },
{
    let np = prefix.len();
    let n = name.len();
    if np > n || n - np < 5 {
        return None;
    }
    let mut i: usize = 0;
    while i < np
        invariant
            i <= np,
            np == prefix@.len(),
            n == name@.len(),
            n >= np + 5,
            forall|k: int| 0 <= k < i ==> #[trigger] name@[k] == prefix@[k],
        decreases np - i,
    {
        if name[i] != prefix[i] {
            proof {
                assert(name@.subrange(0, np as int)[i as int] == name@[i as int]);
            }
            return None;
        }
        i = i + 1;
    }
    proof {
        assert(name@.subrange(0, np as int) =~= prefix@);
    }
    if name[n - 5] != 46 || name[n - 4] != 106 || name[n - 3] != 115 || name[n - 2] != 111
        || name[n - 1] != 110 {
        proof {
            let suffix = name@.subrange(n - 5, n as int);
            assert(suffix[0] == name@[n - 5]);
            assert(suffix[1] == name@[n - 4]);
            assert(suffix[2] == name@[n - 3]);
            assert(suffix[3] == name@[n - 2]);
            assert(suffix[4] == name@[n - 1]);
            assert(json_suffix()[0] == 46u8);
            assert(json_suffix()[1] == 106u8);
            assert(json_suffix()[2] == 115u8);
            assert(json_suffix()[3] == 111u8);
            assert(json_suffix()[4] == 110u8);
        }
        return None;
    }
    proof {
        assert(name@.subrange(n - 5, n as int) =~= json_suffix());
    }
    let rest = subrange_vec(name, np, n - 5);
    let m = rest.len();
    let stamped: bool = if m >= 15 {
        let eight_digits = all_digits_range(&rest, m - 15, m - 7);
        let six_digits = all_digits_range(&rest, m - 6, m);
        let underscore = rest[m - 7] == 95;
        let field_start = m == 15 || rest[m - 16] == 95;
        eight_digits && six_digits && underscore && field_start
    } else {
        false
    };
    proof {
        assert(stamped == has_stamp_suffix(rest@));
    }
    if stamped {
        if m == 15 {
            let empty: Vec<u8> = Vec::new();
            proof {
                assert(empty@ =~= stamp_stripped(rest@));
            }
            Some(empty)
        } else {
            let kept = subrange_vec(&rest, 0, m - 16);
            Some(kept)
        }
    } else {
        Some(rest)
    }
}

/// Strict lexicographic order on byte strings: `a` sorts after `b`. A run
/// stamp grows with the clock, so of two stamped names for one test case the
/// later one is the newer.
pub open spec fn lex_gt(a: Seq<u8>, b: Seq<u8>) -> bool
    decreases b.len(),
{
    if b.len() == 0 {
        a.len() > 0
    } else if a.len() == 0 {
        false
    } else if a[0] != b[0] {
        a[0] > b[0]
    } else {
        lex_gt(a.subrange(1, a.len() as int), b.subrange(1, b.len() as int))
    }
}

proof fn lemma_lex_gt_skip(a: Seq<u8>, b: Seq<u8>, i: int)
    requires
        0 <= i <= a.len(),
        i <= b.len(),
        forall|k: int| 0 <= k < i ==> a[k] == b[k],
    ensures
        lex_gt(a, b) == lex_gt(a.subrange(i, a.len() as int), b.subrange(i, b.len() as int)),
    decreases i,
{
    if i == 0 {
        assert(a.subrange(0, a.len() as int) =~= a);
        assert(b.subrange(0, b.len() as int) =~= b);
    } else {
        let a1 = a.subrange(1, a.len() as int);
        let b1 = b.subrange(1, b.len() as int);
        lemma_lex_gt_skip(a1, b1, i - 1);
        assert(a1.subrange(i - 1, a1.len() as int) =~= a.subrange(i, a.len() as int));
        assert(b1.subrange(i - 1, b1.len() as int) =~= b.subrange(i, b.len() as int));
    }
}

/// Decides whether `a` sorts strictly after `b`, byte for byte.
pub fn bytes_lex_gt(a: &Vec<u8>, b: &Vec<u8>) -> (r: bool)
    ensures
        r == lex_gt(a@, b@),
{
    let na = a.len();
    let nb = b.len();
    let mut i: usize = 0;
    while i < na && i < nb
        invariant
            i <= na,
            i <= nb,
            na == a@.len(),
            nb == b@.len(),
            forall|k: int| 0 <= k < i ==> a@[k] == b@[k],
        decreases na - i,
    {
        let x = a[i];
        let y = b[i];
        if x != y {
            proof {
                lemma_lex_gt_skip(a@, b@, i as int);
                assert(a@.subrange(i as int, na as int)[0] == a@[i as int]);
                assert(b@.subrange(i as int, nb as int)[0] == b@[i as int]);
            }
            return x > y;
        }
        i = i + 1;
    }
    proof {
        lemma_lex_gt_skip(a@, b@, i as int);
    }
    na > nb
}

/// How many result/reference pairs agree on their window count.
pub open spec fn matching_count(pairs: Seq<(usize, usize)>) -> int
    decreases pairs.len(),
{
    if pairs.len() == 0 {
        0
    } else {
        matching_count(pairs.drop_last()) + if pairs.last().0 == pairs.last().1 {
            1int
        } else {
            0int
        }
    }
}

/// Tallies the validation: of the window counts each result reports beside
/// its reference, how many pairs agree.
pub fn count_matching_counts(pairs: &Vec<(usize, usize)>) -> (n: usize)
    ensures
        n == matching_count(pairs@),
        n <= pairs@.len(),
{
    let mut n: usize = 0;
    let mut i: usize = 0;
    while i < pairs.len()
        invariant
            i <= pairs@.len(),
            n <= i,
            n == matching_count(pairs@.subrange(0, i as int)),
        decreases pairs@.len() - i,
    {
        let (got, want) = pairs[i];
        proof {
            let pre = pairs@.subrange(0, i as int + 1);
            assert(pre.drop_last() =~= pairs@.subrange(0, i as int));
            assert(pre.last() == pairs@[i as int]);
        }
        if got == want {
            n = n + 1;
        }
        i = i + 1;
    }
    proof {
        assert(pairs@.subrange(0, pairs@.len() as int) =~= pairs@);
    }
    n
}

} // verus!
