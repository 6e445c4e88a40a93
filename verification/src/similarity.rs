//! Whole-string similarity: normalized edit distance, scaled to micros.
//!
//! A score of 1_000_000 micros stands for 1.0 (the strings are equal);
//! 0 stands for no similarity at all.

use vstd::arithmetic::div_mod::{lemma_div_is_ordered, lemma_div_multiples_vanish};
use vstd::prelude::*;

verus! {

/// One full unit of similarity, scaled: 1.0 == 1_000_000 micros.
pub const SIMILARITY_UNIT: i64 = 1000000;

pub open spec fn min3(x: int, y: int, z: int) -> int {
    if x <= y && x <= z {
        x
    } else if y <= z {
        y
    } else {
        z
    }
}

/// Edit distance between two character sequences: the least number of
/// single-character insertions, deletions and substitutions that turns
/// one into the other.
pub open spec fn levenshtein(a: Seq<char>, b: Seq<char>) -> nat
    decreases a.len() + b.len(),
{
    if a.len() == 0 {
        b.len()
    } else if b.len() == 0 {
        a.len()
    } else {
        let del: int = levenshtein(a.drop_last(), b) as int + 1;
        let ins: int = levenshtein(a, b.drop_last()) as int + 1;
        let sub: int = levenshtein(a.drop_last(), b.drop_last()) as int + (
        if a.last() == b.last() {
            0int
        } else {
            1int
        });
        min3(del, ins, sub) as nat
    }
}

/// The edit distance does not depend on the order of its arguments.
pub proof fn lemma_levenshtein_symmetric(a: Seq<char>, b: Seq<char>)
    ensures
        levenshtein(a, b) == levenshtein(b, a),
    decreases a.len() + b.len(),
{
    if a.len() != 0 && b.len() != 0 {
        lemma_levenshtein_symmetric(a.drop_last(), b);
        lemma_levenshtein_symmetric(a, b.drop_last());
        lemma_levenshtein_symmetric(a.drop_last(), b.drop_last());
    }
}

/// A sequence is at edit distance zero from itself.
pub proof fn lemma_levenshtein_self(a: Seq<char>)
    ensures
        levenshtein(a, a) == 0,
    decreases a.len(),
{
    if a.len() != 0 {
        lemma_levenshtein_self(a.drop_last());
    }
}

/// The edit distance never exceeds the length of the longer sequence.
pub proof fn lemma_levenshtein_le_max(a: Seq<char>, b: Seq<char>)
    ensures
        levenshtein(a, b) <= vstd::math::max(a.len() as int, b.len() as int),
    decreases a.len() + b.len(),
{
    if a.len() != 0 && b.len() != 0 {
        lemma_levenshtein_le_max(a.drop_last(), b.drop_last());
    }
}

/// Normalized similarity between two character sequences, in micros:
/// `(max_len - levenshtein) / max_len`, and one full unit when both
/// sequences are empty.
pub open spec fn whole_string_similarity_micros(a: Seq<char>, b: Seq<char>) -> int {
    let m = vstd::math::max(a.len() as int, b.len() as int);
    if m == 0 {
        SIMILARITY_UNIT as int
    } else {
        ((m - levenshtein(a, b)) * (SIMILARITY_UNIT as int)) / m
    }
}

/// The whole-string similarity is symmetric.
pub proof fn lemma_whole_string_similarity_symmetric(a: Seq<char>, b: Seq<char>)
    ensures
        whole_string_similarity_micros(a, b) == whole_string_similarity_micros(b, a),
{
    lemma_levenshtein_symmetric(a, b);
}

/// A sequence compared against itself scores one full unit.
pub proof fn lemma_whole_string_similarity_identical(a: Seq<char>)
    ensures
        whole_string_similarity_micros(a, a) == SIMILARITY_UNIT,
{
    lemma_levenshtein_self(a);
    if a.len() > 0 {
        let m = a.len() as int;
        lemma_div_multiples_vanish(SIMILARITY_UNIT as int, m);
        assert(m * (SIMILARITY_UNIT as int) == (m - 0) * (SIMILARITY_UNIT as int));
    }
}

/// The whole-string similarity lies between zero and one full unit.
pub proof fn lemma_whole_string_similarity_bounds(a: Seq<char>, b: Seq<char>)
    ensures
        0 <= whole_string_similarity_micros(a, b) <= SIMILARITY_UNIT,
{
    let m = vstd::math::max(a.len() as int, b.len() as int);
    if m != 0 {
        lemma_levenshtein_le_max(a, b);
        let d = levenshtein(a, b) as int;
        assert(0 <= (m - d) * (SIMILARITY_UNIT as int)) by (nonlinear_arith)
            requires 0 <= d <= m;
        assert((m - d) * (SIMILARITY_UNIT as int) <= m * (SIMILARITY_UNIT as int))
            by (nonlinear_arith)
            requires 0 <= d <= m;
        lemma_div_is_ordered(0, (m - d) * (SIMILARITY_UNIT as int), m);
        lemma_div_is_ordered(
            (m - d) * (SIMILARITY_UNIT as int),
            m * (SIMILARITY_UNIT as int),
            m,
        );
        lemma_div_multiples_vanish(SIMILARITY_UNIT as int, m);
    }
}

/// Dynamic-programming computation of the edit distance. The row vector
/// holds, after processing `i` characters of `a`, the distances from
/// `a.take(i)` to every prefix of `b`.
fn levenshtein_row(a: &Vec<char>, b: &Vec<char>) -> (r: u128)
    ensures
        r == levenshtein(a@, b@),
{
    let n = b.len();
    let mut row: Vec<u128> = Vec::new();
    row.push(0);
    proof {
        assert(a@.take(0) =~= Seq::<char>::empty());
        assert(b@.take(0) =~= Seq::<char>::empty());
    }
    let mut j: usize = 0;
    while j < n
        invariant
            j <= n,
            n == b@.len(),
            row@.len() == j + 1,
            forall|k: int| 0 <= k <= j ==> row@[k] == levenshtein(a@.take(0), b@.take(k)),
        decreases n - j,
    {
        proof {
            assert(a@.take(0) =~= Seq::<char>::empty());
            assert(b@.take(j + 1).len() == j + 1);
        }
        row.push((j + 1) as u128);
        j = j + 1;
    }
    let m = a.len();
    let mut i: usize = 0;
    while i < m
        invariant
            i <= m,
            m == a@.len(),
            n == b@.len(),
            row@.len() == n + 1,
            forall|k: int|
                0 <= k <= n ==> row@[k] == levenshtein(a@.take(i as int), b@.take(k)),
        decreases m - i,
    {
        let ip = i + 1;
        let mut prev: u128 = row[0];
        proof {
            assert(a@.take(ip as int).len() == ip);
            assert(b@.take(0) =~= Seq::<char>::empty());
        }
        row.set(0, ip as u128);
        let mut j: usize = 0;
        while j < n
            invariant
                i + 1 == ip <= m,
                j <= n,
                m == a@.len(),
                n == b@.len(),
                row@.len() == n + 1,
                prev == levenshtein(a@.take(i as int), b@.take(j as int)),
                forall|k: int|
                    0 <= k <= j ==> row@[k] == levenshtein(a@.take(ip as int), b@.take(k)),
                forall|k: int|
                    j < k <= n ==> row@[k] == levenshtein(a@.take(i as int), b@.take(k)),
            decreases n - j,
        {
            let jp = j + 1;
            let cur: u128 = row[jp];
            let cost: u128 = if a[i] == b[j] {
                0
            } else {
                1
            };
            proof {
                lemma_levenshtein_le_max(a@.take(i as int), b@.take(jp as int));
                lemma_levenshtein_le_max(a@.take(ip as int), b@.take(j as int));
                lemma_levenshtein_le_max(a@.take(i as int), b@.take(j as int));
            }
            let del: u128 = cur + 1;
            let ins: u128 = row[jp - 1] + 1;
            let sub: u128 = prev + cost;
            let best: u128 = if del <= ins && del <= sub {
                del
            } else if ins <= sub {
                ins
            } else {
                sub
            };
            proof {
                let ai = a@.take(ip as int);
                let bj = b@.take(jp as int);
                assert(ai.drop_last() =~= a@.take(i as int));
                assert(bj.drop_last() =~= b@.take(j as int));
                assert(ai.last() == a@[i as int]);
                assert(bj.last() == b@[j as int]);
                assert(best == levenshtein(ai, bj));
            }
            row.set(jp, best);
            prev = cur;
            j = jp;
        }
        i = ip;
    }
    proof {
        assert(a@.take(m as int) =~= a@);
        assert(b@.take(n as int) =~= b@);
    }
    row[n]
}

/// Edit distance between two character vectors.
pub fn levenshtein_distance(a: &Vec<char>, b: &Vec<char>) -> (r: usize)
    ensures
        r == levenshtein(a@, b@),
{
    let m = a.len();
    let n = b.len();
    let r = levenshtein_row(a, b);
    proof {
        lemma_levenshtein_le_max(a@, b@);
        assert(r <= vstd::math::max(m as int, n as int));
    }
    r as usize
}

/// Whole-string similarity between two character vectors, in micros.
/// `1_000_000` means the strings are equal; the value never goes below
/// zero nor above one full unit.
pub fn whole_string_similarity(a: &Vec<char>, b: &Vec<char>) -> (r: i64)
    ensures
        r == whole_string_similarity_micros(a@, b@),
        0 <= r <= SIMILARITY_UNIT,
{
    proof {
        lemma_whole_string_similarity_bounds(a@, b@);
    }
    let m: u128 = if a.len() >= b.len() {
        a.len() as u128
    } else {
        b.len() as u128
    };
    if m == 0 {
        return SIMILARITY_UNIT;
    }
    let d = levenshtein_row(a, b);
    proof {
        lemma_levenshtein_le_max(a@, b@);
    }
    let num: u128 = (m - d) * 1000000;
    let q: u128 = num / m;
    q as i64
}

} // verus!
