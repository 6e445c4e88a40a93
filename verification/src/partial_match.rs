//! Partial-match similarity: identifier sections scored with
//! positional and length correction, in micros.
//!
//! A search term is split into sections at dots; a haystack is split at
//! dots and, separately, at dashes. Every pair of sections longer than
//! three characters is scored, the scores are summed, and the sum is
//! divided by the count of strictly positive pair scores. The better of
//! the two haystack splits is the result. Scores may go slightly
//! negative: weak partial matches are penalized rather than ignored.

use crate::similarity::{
    lemma_whole_string_similarity_bounds, whole_string_similarity, whole_string_similarity_micros,
};
use crate::text::{is_prefix_of, starts_with_chars};
use vstd::arithmetic::div_mod::{
    lemma_div_is_ordered, lemma_div_multiples_vanish, lemma_div_nonincreasing,
};
use vstd::prelude::*;

verus! {

/// Longest input, in characters, that the fixed-point pair-score
/// accumulator is proved not to overflow on.
pub const MAX_SCORED_LEN: usize = 1000000;

/// Fixed-point natural logarithm of a small integer, in micros,
/// rounded to the nearest whole micro.
pub open spec fn ln_table(k: nat) -> nat {
    if k <= 1 {
        0
    } else if k == 2 {
        693147
    } else if k == 3 {
        1098612
    } else if k == 4 {
        1386294
    } else if k == 5 {
        1609438
    } else if k == 6 {
        1791759
    } else if k == 7 {
        1945910
    } else if k == 8 {
        2079442
    } else if k == 9 {
        2197225
    } else if k == 10 {
        2302585
    } else if k == 11 {
        2397895
    } else if k == 12 {
        2484907
    } else if k == 13 {
        2564949
    } else if k == 14 {
        2639057
    } else if k == 15 {
        2708050
    } else if k == 16 {
        2772589
    } else if k == 17 {
        2833213
    } else if k == 18 {
        2890372
    } else if k == 19 {
        2944439
    } else if k == 20 {
        2995732
    } else if k == 21 {
        3044522
    } else if k == 22 {
        3091042
    } else if k == 23 {
        3135494
    } else if k == 24 {
        3178054
    } else if k == 25 {
        3218876
    } else if k == 26 {
        3258097
    } else if k == 27 {
        3295837
    } else if k == 28 {
        3332205
    } else if k == 29 {
        3367296
    } else if k == 30 {
        3401197
    } else if k == 31 {
        3433987
    } else if k == 32 {
        3465736
    } else if k == 33 {
        3496508
    } else if k == 34 {
        3526361
    } else if k == 35 {
        3555348
    } else if k == 36 {
        3583519
    } else if k == 37 {
        3610918
    } else if k == 38 {
        3637586
    } else if k == 39 {
        3663562
    } else if k == 40 {
        3688879
    } else if k == 41 {
        3713572
    } else if k == 42 {
        3737670
    } else if k == 43 {
        3761200
    } else if k == 44 {
        3784190
    } else if k == 45 {
        3806662
    } else if k == 46 {
        3828641
    } else if k == 47 {
        3850148
    } else if k == 48 {
        3871201
    } else if k == 49 {
        3891820
    } else if k == 50 {
        3912023
    } else if k == 51 {
        3931826
    } else if k == 52 {
        3951244
    } else if k == 53 {
        3970292
    } else if k == 54 {
        3988984
    } else if k == 55 {
        4007333
    } else if k == 56 {
        4025352
    } else if k == 57 {
        4043051
    } else if k == 58 {
        4060443
    } else if k == 59 {
        4077537
    } else if k == 60 {
        4094345
    } else if k == 61 {
        4110874
    } else if k == 62 {
        4127134
    } else if k == 63 {
        4143135
    } else if k == 64 {
        4158883
    } else {
        4158883
    }
}

/// Fixed-point natural logarithm in micros: table values up to 64,
/// halving above, one logarithm-of-two step per halving.
pub open spec fn ln_micros(k: nat) -> nat
    decreases k,
{
    if k <= 64 {
        ln_table(k)
    } else {
        ln_micros((k + 1) / 2) + 693147
    }
}

/// The fixed-point logarithm stays below its argument scaled to micros.
proof fn lemma_ln_micros_below(k: nat)
    requires
        k >= 1,
    ensures
        ln_micros(k) < k * 1000000,
    decreases k,
{
    if k > 64 {
        lemma_ln_micros_below((k + 1) / 2);
        assert((k + 1) / 2 <= k - 1);
        assert(((k + 1) / 2) * 1000000 <= (k - 1) * 1000000) by (nonlinear_arith)
            requires (k + 1) / 2 <= k - 1;
        assert((k - 1) * 1000000 + 693147 < k * 1000000) by (nonlinear_arith)
            requires k >= 65;
    }
}

/// How many halving steps the fixed-point logarithm takes above the
/// table range.
spec fn halving_steps(k: nat) -> nat
    decreases k,
{
    if k <= 64 {
        0
    } else {
        1 + halving_steps((k + 1) / 2)
    }
}

proof fn lemma_ln_micros_steps(k: nat)
    ensures
        ln_micros(k) <= 4158883 + 693147 * halving_steps(k),
    decreases k,
{
    if k > 64 {
        lemma_ln_micros_steps((k + 1) / 2);
    }
}

proof fn lemma_halving_steps_le(k: nat, b: nat)
    requires
        k <= 64 * vstd::arithmetic::power2::pow2(b),
    ensures
        halving_steps(k) <= b,
    decreases b,
{
    vstd::arithmetic::power2::lemma_pow2_pos(b);
    if k > 64 {
        assert(b >= 1) by {
            if b == 0 {
                vstd::arithmetic::power2::lemma2_to64();
            }
        }
        let p = vstd::arithmetic::power2::pow2((b - 1) as nat);
        assert(vstd::arithmetic::power2::pow2(b) == 2 * p) by {
            vstd::arithmetic::power2::lemma_pow2_unfold(b);
        }
        assert((k + 1) / 2 <= 64 * p) by (nonlinear_arith)
            requires k <= 128 * p, p >= 1;
        lemma_halving_steps_le((k + 1) / 2, (b - 1) as nat);
    }
}

/// The fixed-point logarithm of any machine-sized integer stays well
/// under fifty million micros.
proof fn lemma_ln_micros_upper(k: nat)
    requires
        k <= 0xffff_ffff_ffff_ffff,
    ensures
        ln_micros(k) <= 48520291,
{
    lemma_ln_micros_steps(k);
    vstd::arithmetic::power2::lemma2_to64();
    vstd::arithmetic::power2::lemma_pow2_unfold(64);
    assert(k <= 64 * vstd::arithmetic::power2::pow2(64));
    lemma_halving_steps_le(k, 64);
}

fn ln_table_micros(k: usize) -> (r: u64)
    ensures
        r == ln_table(k as nat),
{
    if k <= 1 {
        0
    } else if k == 2 {
        693147
    } else if k == 3 {
        1098612
    } else if k == 4 {
        1386294
    } else if k == 5 {
        1609438
    } else if k == 6 {
        1791759
    } else if k == 7 {
        1945910
    } else if k == 8 {
        2079442
    } else if k == 9 {
        2197225
    } else if k == 10 {
        2302585
    } else if k == 11 {
        2397895
    } else if k == 12 {
        2484907
    } else if k == 13 {
        2564949
    } else if k == 14 {
        2639057
    } else if k == 15 {
        2708050
    } else if k == 16 {
        2772589
    } else if k == 17 {
        2833213
    } else if k == 18 {
        2890372
    } else if k == 19 {
        2944439
    } else if k == 20 {
        2995732
    } else if k == 21 {
        3044522
    } else if k == 22 {
        3091042
    } else if k == 23 {
        3135494
    } else if k == 24 {
        3178054
    } else if k == 25 {
        3218876
    } else if k == 26 {
        3258097
    } else if k == 27 {
        3295837
    } else if k == 28 {
        3332205
    } else if k == 29 {
        3367296
    } else if k == 30 {
        3401197
    } else if k == 31 {
        3433987
    } else if k == 32 {
        3465736
    } else if k == 33 {
        3496508
    } else if k == 34 {
        3526361
    } else if k == 35 {
        3555348
    } else if k == 36 {
        3583519
    } else if k == 37 {
        3610918
    } else if k == 38 {
        3637586
    } else if k == 39 {
        3663562
    } else if k == 40 {
        3688879
    } else if k == 41 {
        3713572
    } else if k == 42 {
        3737670
    } else if k == 43 {
        3761200
    } else if k == 44 {
        3784190
    } else if k == 45 {
        3806662
    } else if k == 46 {
        3828641
    } else if k == 47 {
        3850148
    } else if k == 48 {
        3871201
    } else if k == 49 {
        3891820
    } else if k == 50 {
        3912023
    } else if k == 51 {
        3931826
    } else if k == 52 {
        3951244
    } else if k == 53 {
        3970292
    } else if k == 54 {
        3988984
    } else if k == 55 {
        4007333
    } else if k == 56 {
        4025352
    } else if k == 57 {
        4043051
    } else if k == 58 {
        4060443
    } else if k == 59 {
        4077537
    } else if k == 60 {
        4094345
    } else if k == 61 {
        4110874
    } else if k == 62 {
        4127134
    } else if k == 63 {
        4143135
    } else if k == 64 {
        4158883
    } else {
        4158883
    }
}

/// Fixed-point natural logarithm in micros, executable.
pub fn natural_log_micros(k: usize) -> (r: u64)
    requires
        k >= 1,
    ensures
        r == ln_micros(k as nat),
    decreases k,
{
    if k <= 64 {
        ln_table_micros(k)
    } else {
        let h = k / 2 + k % 2;
        proof {
            assert(h == (k + 1) / 2);
        }
        let r = natural_log_micros(h);
        proof {
            lemma_ln_micros_upper(h as nat);
        }
        r + 693147
    }
}

/// Prefix bonus: when the haystack section starts with the search-term
/// section, `(len(hs) - ln(len(hs) - len(st) + 1)) / len(hs)`, in
/// micros; zero otherwise.
pub open spec fn starts_with_score(st: Seq<char>, hs: Seq<char>) -> int
    recommends
        hs.len() > 0,
{
    if is_prefix_of(st, hs) {
        (hs.len() * 1000000 - ln_micros((hs.len() - st.len() + 1) as nat)) as int / hs.len() as int
    } else {
        0
    }
}

pub proof fn lemma_starts_with_score_bounds(st: Seq<char>, hs: Seq<char>)
    requires
        st.len() >= 1,
        hs.len() >= 1,
    ensures
        0 <= starts_with_score(st, hs) <= 1000000,
{
    if is_prefix_of(st, hs) {
        let l = hs.len() as int;
        let d1 = (hs.len() - st.len() + 1) as nat;
        lemma_ln_micros_below(d1);
        assert(d1 * 1000000 <= l * 1000000) by (nonlinear_arith)
            requires d1 <= l;
        let num = l * 1000000 - ln_micros(d1);
        lemma_div_is_ordered(0, num, l);
        lemma_div_is_ordered(num, l * 1000000, l);
        lemma_div_multiples_vanish(1000000, l);
    }
}

/// The prefix bonus and the whole-string similarity blended:
/// `(1.3 * bonus + 0.7 * whole) / 2` when the bonus is positive, the
/// whole-string similarity alone otherwise.
pub open spec fn blended_similarity(st: Seq<char>, hs: Seq<char>) -> int {
    let sw = starts_with_score(st, hs);
    let ss = whole_string_similarity_micros(st, hs);
    if sw > 0 {
        (13 * sw + 7 * ss) / 20
    } else {
        ss
    }
}

pub proof fn lemma_blended_similarity_bounds(st: Seq<char>, hs: Seq<char>)
    requires
        st.len() >= 1,
        hs.len() >= 1,
    ensures
        0 <= blended_similarity(st, hs) <= 1000000,
{
    lemma_starts_with_score_bounds(st, hs);
    lemma_whole_string_similarity_bounds(st, hs);
    let sw = starts_with_score(st, hs);
    let ss = whole_string_similarity_micros(st, hs);
    if sw > 0 {
        lemma_div_is_ordered(0, 13 * sw + 7 * ss, 20);
        lemma_div_is_ordered(13 * sw + 7 * ss, 20 * 1000000int, 20);
        lemma_div_multiples_vanish(1000000, 20);
    }
}

/// Penalty for short comparisons: `1 - 1 / (len(st) + len(hs))`, in
/// micros.
pub open spec fn length_correction(st_len: int, hs_len: int) -> int
    recommends
        st_len + hs_len > 0,
{
    1000000int - 1000000int / (st_len + hs_len)
}

pub proof fn lemma_length_correction_bounds(st_len: int, hs_len: int)
    requires
        st_len + hs_len > 0,
    ensures
        0 <= length_correction(st_len, hs_len) <= 1000000,
{
    lemma_div_is_ordered(0, 1000000, st_len + hs_len);
    lemma_div_nonincreasing(1000000, st_len + hs_len);
}

/// Weight of a haystack section by its position: `((ix + 1) / n)^2` in
/// micros, where `n` counts the haystack's sections. Sections nearer the
/// end weigh more.
pub open spec fn position_correction(ix: nat, n: nat) -> int
    recommends
        ix < n,
{
    let lin = ((ix + 1) * 1000000) as int / n as int;
    (lin * lin) / 1000000
}

pub proof fn lemma_position_correction_bounds(ix: nat, n: nat)
    requires
        ix < n,
    ensures
        0 <= position_correction(ix, n) <= 1000000,
{
    let lin = ((ix + 1) * 1000000) as int / n as int;
    assert((ix + 1) * 1000000 <= n * 1000000) by (nonlinear_arith)
        requires ix + 1 <= n;
    lemma_div_is_ordered(0, ((ix + 1) * 1000000) as int, n as int);
    lemma_div_is_ordered(((ix + 1) * 1000000) as int, n as int * 1000000, n as int);
    lemma_div_multiples_vanish(1000000, n as int);
    assert(0 <= lin * lin <= 1000000 * 1000000) by (nonlinear_arith)
        requires 0 <= lin <= 1000000;
    lemma_div_is_ordered(0, lin * lin, 1000000);
    lemma_div_is_ordered(lin * lin, 1000000 * 1000000int, 1000000);
    lemma_div_multiples_vanish(1000000, 1000000);
}

/// Score of one search-term section against one haystack section. A
/// corrected similarity above 0.6 counts fully; anything weaker counts
/// as a small negative penalty that grows with how wrong the match is.
pub open spec fn pair_score(st: Seq<char>, n: nat, ix: nat, hs: Seq<char>) -> int
    recommends
        st.len() > 3,
        hs.len() > 3,
        ix < n,
{
    let sim = blended_similarity(st, hs);
    let lc = length_correction(st.len() as int, hs.len() as int);
    let pc = position_correction(ix, n);
    let lcs = (sim * lc) / 1000000;
    let fcs = (lcs * pc) / 1000000;
    if lcs > 600000 {
        fcs
    } else {
        -((50000 * (1000000 - fcs)) / 1000000)
    }
}

/// Every pair score lies between minus one twentieth and one full unit.
pub proof fn lemma_pair_score_bounds(st: Seq<char>, n: nat, ix: nat, hs: Seq<char>)
    requires
        st.len() > 3,
        hs.len() > 3,
        ix < n,
    ensures
        -50000 <= pair_score(st, n, ix, hs) <= 1000000,
        0 <= (blended_similarity(st, hs) * length_correction(
            st.len() as int,
            hs.len() as int,
        )) / 1000000 <= 1000000,
        0 <= ((blended_similarity(st, hs) * length_correction(st.len() as int, hs.len() as int))
            / 1000000 * position_correction(ix, n)) / 1000000 <= 1000000,
{
    lemma_blended_similarity_bounds(st, hs);
    lemma_length_correction_bounds(st.len() as int, hs.len() as int);
    lemma_position_correction_bounds(ix, n);
    let sim = blended_similarity(st, hs);
    let lc = length_correction(st.len() as int, hs.len() as int);
    let pc = position_correction(ix, n);
    assert(0 <= sim * lc <= 1000000 * 1000000) by (nonlinear_arith)
        requires 0 <= sim <= 1000000, 0 <= lc <= 1000000;
    lemma_div_is_ordered(0, sim * lc, 1000000);
    lemma_div_is_ordered(sim * lc, 1000000 * 1000000int, 1000000);
    lemma_div_multiples_vanish(1000000, 1000000);
    let lcs = (sim * lc) / 1000000;
    assert(0 <= lcs * pc <= 1000000 * 1000000) by (nonlinear_arith)
        requires 0 <= lcs <= 1000000, 0 <= pc <= 1000000;
    lemma_div_is_ordered(0, lcs * pc, 1000000);
    lemma_div_is_ordered(lcs * pc, 1000000 * 1000000int, 1000000);
    let fcs = (lcs * pc) / 1000000;
    if !(lcs > 600000) {
        assert(0 <= 50000 * (1000000 - fcs) <= 50000 * 1000000) by (nonlinear_arith)
            requires 0 <= fcs <= 1000000;
        lemma_div_is_ordered(0, 50000 * (1000000 - fcs), 1000000);
        lemma_div_is_ordered(50000 * (1000000 - fcs), 1000000 * 50000int, 1000000);
        lemma_div_multiples_vanish(50000, 1000000);
    }
}

/// Executable pair score, in micros.
fn pair_score_micros(st: &Vec<char>, n: usize, ix: usize, hs: &Vec<char>) -> (r: i64)
    requires
        st@.len() > 3,
        st@.len() <= MAX_SCORED_LEN,
        hs@.len() > 3,
        hs@.len() <= MAX_SCORED_LEN,
        ix < n,
        n <= MAX_SCORED_LEN + 1,
    ensures
        r == pair_score(st@, n as nat, ix as nat, hs@),
        -50000 <= r <= 1000000,
{
    proof {
        lemma_pair_score_bounds(st@, n as nat, ix as nat, hs@);
        lemma_starts_with_score_bounds(st@, hs@);
        lemma_blended_similarity_bounds(st@, hs@);
        lemma_length_correction_bounds(st@.len() as int, hs@.len() as int);
        lemma_position_correction_bounds(ix as nat, n as nat);
    }
    let hs_len = hs.len() as u64;
    let st_len = st.len() as u64;
    let sw: u64 = if starts_with_chars(hs, st) {
        let d1 = hs.len() - st.len() + 1;
        let lnv = natural_log_micros(d1);
        proof {
            lemma_ln_micros_below(d1 as nat);
            assert(d1 * 1000000 <= hs_len * 1000000) by (nonlinear_arith)
                requires d1 <= hs_len;
        }
        (hs_len * 1000000 - lnv) / hs_len
    } else {
        0
    };
    proof {
        assert(sw == starts_with_score(st@, hs@));
    }
    let ss: i64 = whole_string_similarity(st, hs);
    let sim: u64 = if sw > 0 {
        (13 * sw + 7 * (ss as u64)) / 20
    } else {
        ss as u64
    };
    proof {
        assert(sim == blended_similarity(st@, hs@));
    }
    let lc: u64 = 1000000 - 1000000 / (st_len + hs_len);
    let pcl: u64 = ((ix as u64 + 1) * 1000000) / (n as u64);
    let pc: u64 = (pcl * pcl) / 1000000;
    proof {
        assert(lc == length_correction(st@.len() as int, hs@.len() as int));
        assert(pc == position_correction(ix as nat, n as nat));
    }
    let lcs: u64 = (sim * lc) / 1000000;
    let fcs: u64 = (lcs * pc) / 1000000;
    if lcs > 600000 {
        fcs as i64
    } else {
        -(((50000 * (1000000 - fcs)) / 1000000) as i64)
    }
}

/// Only sections longer than three characters on both sides are scored:
/// shorter tokens are too noisy to say anything.
pub open spec fn pair_eligible(st: Seq<char>, hs: Seq<char>) -> bool {
    st.len() > 3 && hs.len() > 3
}

/// Sum of the scores of one search-term section against every eligible
/// haystack section; `n` counts all the haystack's sections.
pub open spec fn section_sum(st: Seq<char>, hss: Seq<Seq<char>>, n: nat) -> int
    decreases hss.len(),
{
    if hss.len() == 0 {
        0
    } else {
        section_sum(st, hss.drop_last(), n) + (
        if pair_eligible(st, hss.last()) {
            pair_score(st, n, (hss.len() - 1) as nat, hss.last())
        } else {
            0
        })
    }
}

/// How many of those scores are strictly positive.
pub open spec fn section_pos_count(st: Seq<char>, hss: Seq<Seq<char>>, n: nat) -> nat
    decreases hss.len(),
{
    if hss.len() == 0 {
        0
    } else {
        section_pos_count(st, hss.drop_last(), n) + (
        if pair_eligible(st, hss.last()) && pair_score(
            st,
            n,
            (hss.len() - 1) as nat,
            hss.last(),
        ) > 0 {
            1nat
        } else {
            0nat
        })
    }
}

/// Sum of the pair scores over every search-term section.
pub open spec fn terms_sum(sts: Seq<Seq<char>>, hss: Seq<Seq<char>>, n: nat) -> int
    decreases sts.len(),
{
    if sts.len() == 0 {
        0
    } else {
        terms_sum(sts.drop_last(), hss, n) + section_sum(sts.last(), hss, n)
    }
}

/// How many pair scores are strictly positive, over every search-term
/// section.
pub open spec fn terms_pos_count(sts: Seq<Seq<char>>, hss: Seq<Seq<char>>, n: nat) -> nat
    decreases sts.len(),
{
    if sts.len() == 0 {
        0
    } else {
        terms_pos_count(sts.drop_last(), hss, n) + section_pos_count(sts.last(), hss, n)
    }
}

/// Signed division that truncates toward zero, as machine division does.
pub open spec fn truncated_div(s: int, c: int) -> int {
    if s >= 0 {
        s / c
    } else {
        -((-s) / c)
    }
}

/// Aggregate score of a set of search-term sections against one split of
/// the haystack: the sum of all pair scores divided by the count of
/// strictly positive ones, zero when no pair scored positive. Duplicate
/// search-term sections are scored once.
pub open spec fn aggregate_micros(sts_raw: Seq<Seq<char>>, hss: Seq<Seq<char>>) -> int {
    let sts = crate::text::first_occurrences(sts_raw);
    let n = hss.len();
    let c = terms_pos_count(sts, hss, n);
    if c == 0 {
        0
    } else {
        truncated_div(terms_sum(sts, hss, n), c as int)
    }
}

/// Partial-match similarity: the better aggregate of the dot split and
/// the dash split of the haystack, against the dot sections of the
/// search term.
pub open spec fn partial_match_micros(st: Seq<char>, hs: Seq<char>) -> int {
    let sts = crate::text::split_seq(st, '.');
    let d = aggregate_micros(sts, crate::text::split_seq(hs, '.'));
    let h = aggregate_micros(sts, crate::text::split_seq(hs, '-'));
    if d >= h {
        d
    } else {
        h
    }
}

proof fn lemma_section_sum_bounds(st: Seq<char>, hss: Seq<Seq<char>>, n: nat)
    requires
        n >= hss.len(),
    ensures
        -(hss.len() * 50000) <= section_sum(st, hss, n),
        section_sum(st, hss, n) <= section_pos_count(st, hss, n) * 1000000,
        section_pos_count(st, hss, n) <= hss.len(),
    decreases hss.len(),
{
    if hss.len() != 0 {
        lemma_section_sum_bounds(st, hss.drop_last(), n);
        if pair_eligible(st, hss.last()) {
            lemma_pair_score_bounds(st, n, (hss.len() - 1) as nat, hss.last());
        }
    }
}

proof fn lemma_terms_bounds(sts: Seq<Seq<char>>, hss: Seq<Seq<char>>, n: nat)
    requires
        n >= hss.len(),
    ensures
        -(sts.len() * hss.len() * 50000) <= terms_sum(sts, hss, n),
        terms_sum(sts, hss, n) <= terms_pos_count(sts, hss, n) * 1000000,
        terms_pos_count(sts, hss, n) <= sts.len() * hss.len(),
    decreases sts.len(),
{
    if sts.len() != 0 {
        lemma_terms_bounds(sts.drop_last(), hss, n);
        lemma_section_sum_bounds(sts.last(), hss, n);
        let k = sts.len() - 1;
        let h = hss.len() as int;
        assert((k + 1) * h * 50000 == k * h * 50000 + h * 50000) by (nonlinear_arith);
        assert((k + 1) * h == k * h + h) by (nonlinear_arith);
    }
}

/// A split never yields more parts than characters plus one, and no part
/// longer than the input.
proof fn lemma_split_bounds(s: Seq<char>, sep: char)
    ensures
        crate::text::split_seq(s, sep).len() <= s.len() + 1,
        forall|k: int|
            0 <= k < crate::text::split_seq(s, sep).len() ==> #[trigger] crate::text::split_seq(
                s,
                sep,
            )[k].len() <= s.len(),
    decreases s.len(),
{
    if s.len() != 0 {
        lemma_split_bounds(s.drop_last(), sep);
        crate::text::lemma_split_seq_len(s.drop_last(), sep);
    }
}

/// Dropping duplicates keeps the count and the lengths bounded.
proof fn lemma_first_occurrences_bounds(s: Seq<Seq<char>>, m: nat)
    requires
        forall|k: int| 0 <= k < s.len() ==> #[trigger] s[k].len() <= m,
    ensures
        crate::text::first_occurrences(s).len() <= s.len(),
        forall|k: int|
            0 <= k < crate::text::first_occurrences(s).len()
                ==> #[trigger] crate::text::first_occurrences(s)[k].len() <= m,
    decreases s.len(),
{
    if s.len() != 0 {
        assert(forall|k: int| 0 <= k < s.drop_last().len() ==> #[trigger] s.drop_last()[k].len() <= m);
        lemma_first_occurrences_bounds(s.drop_last(), m);
        assert(s.last().len() <= m);
    }
}

/// Aggregate score of the search-term sections against one split of the
/// haystack, executable.
fn aggregate_sections_micros(sts_raw: &Vec<Vec<char>>, hss: &Vec<Vec<char>>) -> (r: i64)
    requires
        sts_raw@.len() <= MAX_SCORED_LEN + 1,
        hss@.len() <= MAX_SCORED_LEN + 1,
        forall|k: int|
            0 <= k < sts_raw@.len() ==> #[trigger] sts_raw.deep_view()[k].len() <= MAX_SCORED_LEN,
        forall|k: int|
            0 <= k < hss@.len() ==> #[trigger] hss.deep_view()[k].len() <= MAX_SCORED_LEN,
    ensures
        r == aggregate_micros(sts_raw.deep_view(), hss.deep_view()),
        r <= 1000000,
{
    proof {
        lemma_first_occurrences_bounds(sts_raw.deep_view(), MAX_SCORED_LEN as nat);
    }
    let sts = crate::text::dedup_tokens(sts_raw);
    let ghost gsts = sts.deep_view();
    let ghost ghss = hss.deep_view();
    let n = hss.len();
    let t = sts.len();
    let mut sum: i64 = 0;
    let mut cnt: u64 = 0;
    let mut i: usize = 0;
    while i < t
        invariant
            i <= t,
            t == gsts.len() <= MAX_SCORED_LEN + 1,
            n == ghss.len() <= MAX_SCORED_LEN + 1,
            gsts == sts.deep_view(),
            ghss == hss.deep_view(),
            t == sts@.len(),
            n == hss@.len(),
            forall|k: int| 0 <= k < t ==> #[trigger] gsts[k].len() <= MAX_SCORED_LEN,
            forall|k: int| 0 <= k < n ==> #[trigger] ghss[k].len() <= MAX_SCORED_LEN,
            sum == terms_sum(gsts.take(i as int), ghss, n as nat),
            cnt == terms_pos_count(gsts.take(i as int), ghss, n as nat),
        decreases t - i,
    {
        let mut j: usize = 0;
        while j < n
            invariant
                i < t,
                j <= n,
                t == gsts.len() <= MAX_SCORED_LEN + 1,
                n == ghss.len() <= MAX_SCORED_LEN + 1,
                gsts == sts.deep_view(),
                ghss == hss.deep_view(),
                t == sts@.len(),
                n == hss@.len(),
                forall|k: int| 0 <= k < t ==> #[trigger] gsts[k].len() <= MAX_SCORED_LEN,
                forall|k: int| 0 <= k < n ==> #[trigger] ghss[k].len() <= MAX_SCORED_LEN,
                sum == terms_sum(gsts.take(i as int), ghss, n as nat) + section_sum(
                    gsts[i as int],
                    ghss.take(j as int),
                    n as nat,
                ),
                cnt == terms_pos_count(gsts.take(i as int), ghss, n as nat) + section_pos_count(
                    gsts[i as int],
                    ghss.take(j as int),
                    n as nat,
                ),
            decreases n - j,
        {
            proof {
                assert(ghss.take(j + 1).drop_last() =~= ghss.take(j as int));
                assert(ghss.take(j + 1).last() == ghss[j as int]);
                lemma_terms_bounds(gsts.take(i as int), ghss, n as nat);
                lemma_section_sum_bounds(gsts[i as int], ghss.take(j as int), n as nat);
                lemma_section_sum_bounds(gsts[i as int], ghss.take(j + 1), n as nat);
                assert(gsts.take(i as int).len() * ghss.len() <= (MAX_SCORED_LEN + 1) * (
                MAX_SCORED_LEN + 1)) by (nonlinear_arith)
                    requires
                        gsts.take(i as int).len() <= MAX_SCORED_LEN + 1,
                        ghss.len() <= MAX_SCORED_LEN + 1,
                ;
                assert(terms_pos_count(gsts.take(i as int), ghss, n as nat) * 1000000 <= (
                MAX_SCORED_LEN + 1) * (MAX_SCORED_LEN + 1) * 1000000) by (nonlinear_arith)
                    requires
                        terms_pos_count(gsts.take(i as int), ghss, n as nat) <= (MAX_SCORED_LEN
                            + 1) * (MAX_SCORED_LEN + 1),
                ;
                assert(gsts.take(i as int).len() * ghss.len() * 50000 <= (MAX_SCORED_LEN + 1) * (
                MAX_SCORED_LEN + 1) * 50000) by (nonlinear_arith)
                    requires
                        gsts.take(i as int).len() * ghss.len() <= (MAX_SCORED_LEN + 1) * (
                        MAX_SCORED_LEN + 1),
                ;
                assert((MAX_SCORED_LEN + 1) * (MAX_SCORED_LEN + 1) < 0x20000000000int)
                    by (nonlinear_arith);
                let tp = terms_pos_count(gsts.take(i as int), ghss, n as nat);
                let sp = section_pos_count(gsts[i as int], ghss.take(j as int), n as nat);
                assert(tp + sp < 0x20000000000int + 0x20000000000int);
                assert((tp + sp) * 1000000 < 0x40000000000int * 1000000) by (nonlinear_arith)
                    requires tp + sp < 0x40000000000int;
                assert(sum <= (tp + sp) * 1000000);
                assert(gsts.take(i as int).len() * ghss.len() * 50000 + ghss.take(
                    j as int,
                ).len() * 50000 < 0x40000000000int * 50000) by (nonlinear_arith)
                    requires
                        gsts.take(i as int).len() * ghss.len() < 0x20000000000int,
                        ghss.take(j as int).len() < 0x20000000000int,
                ;
            }
            let st_len = sts[i].len();
            let hs_len = hss[j].len();
            if st_len > 3 && hs_len > 3 {
                proof {
                    crate::text::lemma_vec_char_deep_view(sts@[i as int]);
                    crate::text::lemma_vec_char_deep_view(hss@[j as int]);
                }
                let p = pair_score_micros(&sts[i], n, j, &hss[j]);
                sum = sum + p;
                if p > 0 {
                    cnt = cnt + 1;
                }
            }
            j = j + 1;
        }
        proof {
            assert(gsts.take(i + 1).drop_last() =~= gsts.take(i as int));
            assert(gsts.take(i + 1).last() == gsts[i as int]);
            assert(ghss.take(n as int) =~= ghss);
        }
        i = i + 1;
    }
    proof {
        assert(gsts.take(t as int) =~= gsts);
        lemma_terms_bounds(gsts, ghss, n as nat);
        assert(gsts.len() * ghss.len() <= (MAX_SCORED_LEN + 1) * (MAX_SCORED_LEN + 1))
            by (nonlinear_arith)
            requires
                gsts.len() <= MAX_SCORED_LEN + 1,
                ghss.len() <= MAX_SCORED_LEN + 1,
        ;
        assert(gsts.len() * ghss.len() * 50000 <= (MAX_SCORED_LEN + 1) * (MAX_SCORED_LEN + 1)
            * 50000) by (nonlinear_arith)
            requires
                gsts.len() * ghss.len() <= (MAX_SCORED_LEN + 1) * (MAX_SCORED_LEN + 1),
        ;
        assert((MAX_SCORED_LEN + 1) * (MAX_SCORED_LEN + 1) * 50000 < 0x7fffffffffffffffint)
            by (nonlinear_arith);
    }
    if cnt == 0 {
        proof {
            assert(terms_sum(gsts, ghss, n as nat) <= 0);
        }
        return 0;
    }
    if sum >= 0 {
        let q = (sum as u64) / cnt;
        proof {
            let s = terms_sum(gsts, ghss, n as nat);
            let c = terms_pos_count(gsts, ghss, n as nat) as int;
            lemma_div_is_ordered(s, c * 1000000, c);
            lemma_div_multiples_vanish(1000000, c);
        }
        q as i64
    } else {
        let q = ((-sum) as u64) / cnt;
        proof {
            let s = terms_sum(gsts, ghss, n as nat);
            let c = terms_pos_count(gsts, ghss, n as nat) as int;
            lemma_div_is_ordered(0, -s, c);
        }
        -(q as i64)
    }
}

proof fn lemma_section_sum_short(st: Seq<char>, hss: Seq<Seq<char>>, n: nat)
    requires
        forall|k: int| 0 <= k < hss.len() ==> #[trigger] hss[k].len() <= 3,
    ensures
        section_sum(st, hss, n) == 0,
        section_pos_count(st, hss, n) == 0,
    decreases hss.len(),
{
    if hss.len() != 0 {
        assert(forall|k: int|
            0 <= k < hss.drop_last().len() ==> #[trigger] hss.drop_last()[k].len() <= 3);
        lemma_section_sum_short(st, hss.drop_last(), n);
        assert(hss.last().len() <= 3);
    }
}

proof fn lemma_terms_short(sts: Seq<Seq<char>>, hss: Seq<Seq<char>>, n: nat)
    requires
        forall|k: int| 0 <= k < hss.len() ==> #[trigger] hss[k].len() <= 3,
    ensures
        terms_sum(sts, hss, n) == 0,
        terms_pos_count(sts, hss, n) == 0,
    decreases sts.len(),
{
    if sts.len() != 0 {
        lemma_terms_short(sts.drop_last(), hss, n);
        lemma_section_sum_short(sts.last(), hss, n);
    }
}

/// A haystack whose sections are all three characters or shorter, under
/// the dot split and under the dash split alike, scores exactly zero
/// against any search term: such sections never reach a pair score.
pub proof fn lemma_short_sections_score_zero(st: Seq<char>, hs: Seq<char>)
    requires
        forall|k: int|
            0 <= k < crate::text::split_seq(hs, '.').len() ==> #[trigger] crate::text::split_seq(
                hs,
                '.',
            )[k].len() <= 3,
        forall|k: int|
            0 <= k < crate::text::split_seq(hs, '-').len() ==> #[trigger] crate::text::split_seq(
                hs,
                '-',
            )[k].len() <= 3,
    ensures
        partial_match_micros(st, hs) == 0,
{
    let sts = crate::text::first_occurrences(crate::text::split_seq(st, '.'));
    let dot = crate::text::split_seq(hs, '.');
    let dash = crate::text::split_seq(hs, '-');
    lemma_terms_short(sts, dot, dot.len());
    lemma_terms_short(sts, dash, dash.len());
}

/// Partial-match similarity between a search term and a haystack, in
/// micros: the search term is split at dots, the haystack at dots and at
/// dashes, and the better of the two aggregates wins. The result never
/// exceeds one full unit; it may go slightly negative.
pub fn partial_match_similarity(search_term: &str, haystack: &str) -> (r: i64)
    requires
        search_term@.len() <= MAX_SCORED_LEN,
        haystack@.len() <= MAX_SCORED_LEN,
    ensures
        r == partial_match_micros(search_term@, haystack@),
        r <= 1000000,
{
    let st = crate::text::str_chars(search_term);
    let hs = crate::text::str_chars(haystack);
    partial_match_chars(&st, &hs)
}

/// Partial-match similarity over character vectors.
pub fn partial_match_chars(st: &Vec<char>, hs: &Vec<char>) -> (r: i64)
    requires
        st@.len() <= MAX_SCORED_LEN,
        hs@.len() <= MAX_SCORED_LEN,
    ensures
        r == partial_match_micros(st@, hs@),
        r <= 1000000,
{
    let sts = crate::text::split_chars(st, '.');
    let hs_dot = crate::text::split_chars(hs, '.');
    let hs_dash = crate::text::split_chars(hs, '-');
    proof {
        lemma_split_bounds(st@, '.');
        lemma_split_bounds(hs@, '.');
        lemma_split_bounds(hs@, '-');
    }
    let d = aggregate_sections_micros(&sts, &hs_dot);
    let h = aggregate_sections_micros(&sts, &hs_dash);
    if d >= h {
        d
    } else {
        h
    }
}

} // verus!
