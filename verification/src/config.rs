//! Validation of configured confidence thresholds: a plain decimal
//! number between zero and one, turned into micros.

use crate::text::{split_chars, split_seq, str_chars};
use vstd::prelude::*;

verus! {

pub open spec fn is_digit(c: char) -> bool {
    '0' <= c && c <= '9'
}

pub open spec fn all_digits(s: Seq<char>) -> bool {
    forall|i: int| 0 <= i < s.len() ==> is_digit(#[trigger] s[i])
}

/// The number a digit string stands for.
pub open spec fn digits_value(s: Seq<char>) -> nat
    decreases s.len(),
{
    if s.len() == 0 {
        0
    } else {
        (digits_value(s.drop_last()) * 10 + ((s.last() as u32) - 48)) as nat
    }
}

pub open spec fn pow10(n: nat) -> nat
    decreases n,
{
    if n == 0 {
        1
    } else {
        10 * pow10((n - 1) as nat)
    }
}

proof fn lemma_digits_value_bound(s: Seq<char>)
    requires
        all_digits(s),
    ensures
        digits_value(s) < pow10(s.len()),
    decreases s.len(),
{
    if s.len() != 0 {
        assert(all_digits(s.drop_last()));
        lemma_digits_value_bound(s.drop_last());
        let d = digits_value(s.drop_last());
        assert(d * 10 + 9 < 10 * pow10((s.len() - 1) as nat)) by (nonlinear_arith)
            requires d < pow10((s.len() - 1) as nat);
        assert(is_digit(s.last()));
    }
}

/// The first six fractional digits, scaled to micros.
pub open spec fn frac_micros(s: Seq<char>) -> nat {
    let k = if s.len() < 6 {
        s.len()
    } else {
        6nat
    };
    digits_value(s.take(k as int)) * pow10((6 - k) as nat)
}

proof fn lemma_pow10_add(a: nat, b: nat)
    ensures
        pow10(a) * pow10(b) == pow10(a + b),
    decreases a,
{
    if a == 0 {
    } else {
        lemma_pow10_add((a - 1) as nat, b);
        assert((10 * pow10((a - 1) as nat)) * pow10(b) == 10 * (pow10((a - 1) as nat) * pow10(
            b,
        ))) by (nonlinear_arith);
        assert(pow10(a + b) == 10 * pow10((a + b - 1) as nat));
        assert(10 * (pow10((a - 1) as nat) * pow10(b)) == 10 * pow10((a - 1 + b) as nat));
    }
}

proof fn lemma_frac_micros_bound(s: Seq<char>)
    requires
        all_digits(s),
    ensures
        frac_micros(s) < 1000000,
{
    let k = if s.len() < 6 {
        s.len()
    } else {
        6nat
    };
    assert(all_digits(s.take(k as int)));
    lemma_digits_value_bound(s.take(k as int));
    lemma_pow10_add(k, (6 - k) as nat);
    assert(pow10(6) == 1000000) by {
        assert(pow10(0) == 1);
        assert(pow10(1) == 10);
        assert(pow10(2) == 100);
        assert(pow10(3) == 1000);
        assert(pow10(4) == 10000);
        assert(pow10(5) == 100000);
    }
    let d = digits_value(s.take(k as int));
    assert(d * pow10((6 - k) as nat) < pow10(k) * pow10((6 - k) as nat)) by (nonlinear_arith)
        requires d < pow10(k), pow10((6 - k) as nat) >= 1;
    assert(pow10((6 - k) as nat) >= 1) by {
        lemma_pow10_pos((6 - k) as nat);
    }
}

proof fn lemma_pow10_pos(n: nat)
    ensures
        pow10(n) >= 1,
    decreases n,
{
    if n != 0 {
        lemma_pow10_pos((n - 1) as nat);
    }
}

/// The micros a configured confidence string stands for: an optional
/// sign, then plain decimal notation with at least one digit and at
/// most one dot, read to the sixth fractional place; accepted only for
/// values between zero and one inclusive.
pub open spec fn confidence_micros_of(s: Seq<char>) -> Option<i64> {
    let has_sign = s.len() > 0 && (s[0] == '+' || s[0] == '-');
    let neg = s.len() > 0 && s[0] == '-';
    let body = if has_sign {
        s.drop_first()
    } else {
        s
    };
    let parts = split_seq(body, '.');
    if parts.len() > 2 {
        None
    } else {
        let ip = parts[0];
        let fp = if parts.len() == 2 {
            parts[1]
        } else {
            Seq::<char>::empty()
        };
        if !all_digits(ip) || !all_digits(fp) || ip.len() + fp.len() == 0 {
            None
        } else {
            let total = digits_value(ip) * 1000000 + frac_micros(fp);
            if neg {
                if total == 0 {
                    Some(0i64)
                } else {
                    None
                }
            } else if total <= 1000000 {
                Some(total as i64)
            } else {
                None
            }
        }
    }
}

fn digits_ok(v: &Vec<char>) -> (r: bool)
    ensures
        r == all_digits(v@),
{
    let n = v.len();
    let mut i: usize = 0;
    while i < n
        invariant
            i <= n,
            n == v@.len(),
            forall|k: int| 0 <= k < i ==> is_digit(#[trigger] v@[k]),
        decreases n - i,
    {
        let c = v[i];
        if c < '0' || c > '9' {
            return false;
        }
        i = i + 1;
    }
    true
}

/// The integer part's value, capped at two: enough to decide whether
/// the value can still lie between zero and one.
fn int_value_capped(v: &Vec<char>) -> (r: u32)
    requires
        all_digits(v@),
    ensures
        digits_value(v@) >= 2 ==> r == 2,
        digits_value(v@) < 2 ==> r == digits_value(v@),
{
    let n = v.len();
    let mut r: u32 = 0;
    let mut i: usize = 0;
    proof {
        assert(v@.take(0) =~= Seq::<char>::empty());
    }
    while i < n
        invariant
            i <= n,
            n == v@.len(),
            all_digits(v@),
            digits_value(v@.take(i as int)) >= 2 ==> r == 2,
            digits_value(v@.take(i as int)) < 2 ==> r == digits_value(v@.take(i as int)),
        decreases n - i,
    {
        proof {
            assert(v@.take(i + 1).drop_last() =~= v@.take(i as int));
            assert(v@.take(i + 1).last() == v@[i as int]);
            assert(is_digit(v@[i as int]));
        }
        let c = v[i];
        let d: u32 = (c as u32) - 48;
        let t: u32 = r * 10 + d;
        r = if t >= 2 {
            2
        } else {
            t
        };
        i = i + 1;
    }
    proof {
        assert(v@.take(n as int) =~= v@);
    }
    r
}

/// The first six fractional digits as micros.
fn frac_micros_value(v: &Vec<char>) -> (r: u32)
    requires
        all_digits(v@),
    ensures
        r == frac_micros(v@),
        r < 1000000,
{
    proof {
        lemma_frac_micros_bound(v@);
    }
    let n = v.len();
    let k = if n < 6 {
        n
    } else {
        6
    };
    let mut r: u32 = 0;
    let mut i: usize = 0;
    proof {
        assert(v@.take(0) =~= Seq::<char>::empty());
    }
    while i < k
        invariant
            i <= k <= 6,
            k <= n == v@.len(),
            all_digits(v@),
            r == digits_value(v@.take(i as int)),
            r < 1000000,
        decreases k - i,
    {
        proof {
            assert(v@.take(i + 1).drop_last() =~= v@.take(i as int));
            assert(v@.take(i + 1).last() == v@[i as int]);
            assert(is_digit(v@[i as int]));
            assert(all_digits(v@.take(i + 1)));
            lemma_digits_value_bound(v@.take(i + 1));
            assert(pow10(6) == 1000000) by {
                assert(pow10(0) == 1);
                assert(pow10(1) == 10);
                assert(pow10(2) == 100);
                assert(pow10(3) == 1000);
                assert(pow10(4) == 10000);
                assert(pow10(5) == 100000);
            }
            assert(pow10((i + 1) as nat) <= pow10(6)) by {
                lemma_pow10_mono((i + 1) as nat, 6);
            }
        }
        let c = v[i];
        let d: u32 = (c as u32) - 48;
        r = r * 10 + d;
        i = i + 1;
    }
    let ghost k0 = k as nat;
    let mut j: usize = k;
    proof {
        assert(pow10(0) == 1);
        assert(digits_value(v@.take(k as int)) * 1 == digits_value(v@.take(k as int)));
    }
    while j < 6
        invariant
            k <= j <= 6,
            k0 == k,
            r == digits_value(v@.take(k as int)) * pow10((j - k) as nat),
            r < 1000000,
            all_digits(v@),
            k <= v@.len(),
            (k == 6 || k == v@.len()),
            k <= 6,
        decreases 6 - j,
    {
        proof {
            assert(pow10((j + 1 - k) as nat) == 10 * pow10((j - k) as nat));
            lemma_pow10_pos((j + 1 - k) as nat);
            let dv = digits_value(v@.take(k as int));
            assert(dv * pow10((j - k) as nat) * 10 == dv * pow10((j + 1 - k) as nat))
                by (nonlinear_arith)
                requires pow10((j + 1 - k) as nat) == 10 * pow10((j - k) as nat);
            assert(all_digits(v@.take(k as int)));
            lemma_digits_value_bound(v@.take(k as int));
            assert(dv * pow10((j + 1 - k) as nat) < pow10(k as nat) * pow10((j + 1 - k) as nat))
                by (nonlinear_arith)
                requires dv < pow10(k as nat), pow10((j + 1 - k) as nat) >= 1;
            lemma_pow10_add(k as nat, (j + 1 - k) as nat);
            lemma_pow10_mono((j + 1) as nat, 6);
            assert(pow10(6) == 1000000) by {
                assert(pow10(0) == 1);
                assert(pow10(1) == 10);
                assert(pow10(2) == 100);
                assert(pow10(3) == 1000);
                assert(pow10(4) == 10000);
                assert(pow10(5) == 100000);
            }
        }
        r = r * 10;
        j = j + 1;
    }
    r
}

proof fn lemma_pow10_mono(a: nat, b: nat)
    requires
        a <= b,
    ensures
        pow10(a) <= pow10(b),
    decreases b,
{
    if a < b {
        lemma_pow10_mono(a, (b - 1) as nat);
        lemma_pow10_pos((b - 1) as nat);
    }
}

/// Reads a configured confidence string as micros, accepting exactly
/// the values between zero and one inclusive.
pub fn parse_confidence_micros(s: &str) -> (r: Option<i64>)
    ensures
        r == confidence_micros_of(s@),
{
    let cs = str_chars(s);
    let has_sign = cs.len() > 0 && (cs[0] == '+' || cs[0] == '-');
    let neg = cs.len() > 0 && cs[0] == '-';
    let mut head = cs;
    let body = if has_sign {
        head.split_off(1)
    } else {
        head
    };
    proof {
        if has_sign {
            assert(body@ =~= s@.drop_first());
        }
    }
    let parts = split_chars(&body, '.');
    if parts.len() > 2 {
        return None;
    }
    proof {
        crate::text::lemma_split_seq_len(body@, '.');
        crate::text::lemma_vec_char_deep_view(parts@[0]);
        if parts@.len() == 2 {
            crate::text::lemma_vec_char_deep_view(parts@[1]);
        }
    }
    let empty_frac: Vec<char> = Vec::new();
    let ip = &parts[0];
    let fp = if parts.len() == 2 {
        &parts[1]
    } else {
        &empty_frac
    };
    if !digits_ok(ip) || !digits_ok(fp) {
        return None;
    }
    if ip.len() == 0 && fp.len() == 0 {
        return None;
    }
    let iv = int_value_capped(ip);
    let fv = frac_micros_value(fp);
    proof {
        let dv = digits_value(ip@);
        if dv >= 1 {
            assert(dv * 1000000 >= 1000000) by (nonlinear_arith)
                requires dv >= 1;
        }
        if dv >= 2 {
            assert(dv * 1000000 >= 2000000) by (nonlinear_arith)
                requires dv >= 2;
        }
    }
    if neg {
        if iv == 0 && fv == 0 {
            Some(0)
        } else {
            None
        }
    } else if iv == 0 {
        Some(fv as i64)
    } else if iv == 1 && fv == 0 {
        Some(1000000)
    } else {
        None
    }
}

/// Accepts exactly the confidence strings that read as a value between
/// zero and one inclusive.
pub fn valid_confidence_value(s: &str) -> (r: Result<(), String>)
    ensures
        r is Ok <==> confidence_micros_of(s@) is Some,
{
    match parse_confidence_micros(s) {
        Some(_) => Ok(()),
        None => Err(String::from_str("expected value in range 0.0..=1.0")),
    }
}

} // verus!
