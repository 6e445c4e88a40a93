//! Plain text helpers: character vectors, separator splitting, path
//! components and file stems, modelled over character sequences.

use vstd::prelude::*;

verus! {

/// The deep view of a character vector is its plain view.
pub proof fn lemma_vec_char_deep_view(v: Vec<char>)
    ensures
        v.deep_view() == v@,
{
    assert(v.deep_view() =~= v@);
}

/// The characters of a string slice, as a vector.
pub fn str_chars(s: &str) -> (r: Vec<char>)
    ensures
        r@ == s@,
{
    let len = s.unicode_len();
    let mut r: Vec<char> = Vec::new();
    let mut i: usize = 0;
    while i < len
        invariant
            i <= len,
            len == s@.len(),
            r@ == s@.take(i as int),
        decreases len - i,
    {
        let c = s.get_char(i);
        r.push(c);
        proof {
            assert(r@ =~= s@.take(i + 1));
        }
        i = i + 1;
    }
    proof {
        assert(s@.take(len as int) =~= s@);
    }
    r
}

/// Character-for-character equality of two vectors.
pub fn chars_eq(a: &Vec<char>, b: &Vec<char>) -> (r: bool)
    ensures
        r == (a@ == b@),
{
    if a.len() != b.len() {
        return false;
    }
    let n = a.len();
    let mut i: usize = 0;
    while i < n
        invariant
            i <= n,
            n == a@.len() == b@.len(),
            forall|k: int| 0 <= k < i ==> a@[k] == b@[k],
        decreases n - i,
    {
        if a[i] != b[i] {
            return false;
        }
        i = i + 1;
    }
    proof {
        assert(a@ =~= b@);
    }
    true
}

/// Whether `a` is a prefix of `b`.
pub open spec fn is_prefix_of(a: Seq<char>, b: Seq<char>) -> bool {
    a.len() <= b.len() && b.take(a.len() as int) == a
}

pub fn starts_with_chars(b: &Vec<char>, a: &Vec<char>) -> (r: bool)
    ensures
        r == is_prefix_of(a@, b@),
{
    if a.len() > b.len() {
        return false;
    }
    let n = a.len();
    let mut i: usize = 0;
    while i < n
        invariant
            i <= n,
            n == a@.len() <= b@.len(),
            forall|k: int| 0 <= k < i ==> a@[k] == b@[k],
        decreases n - i,
    {
        if a[i] != b[i] {
            proof {
                assert(b@.take(n as int)[i as int] == b@[i as int]);
            }
            return false;
        }
        i = i + 1;
    }
    proof {
        assert(b@.take(n as int) =~= a@);
    }
    true
}

/// Splitting a sequence at every occurrence of a separator, the
/// separators themselves dropped. The result always holds at least one
/// (possibly empty) part; an empty input gives one empty part.
pub open spec fn split_seq<T>(s: Seq<T>, sep: T) -> Seq<Seq<T>>
    decreases s.len(),
{
    if s.len() == 0 {
        seq![Seq::<T>::empty()]
    } else if s.last() == sep {
        split_seq(s.drop_last(), sep).push(Seq::<T>::empty())
    } else {
        let r = split_seq(s.drop_last(), sep);
        r.update(r.len() - 1, r.last().push(s.last()))
    }
}

pub proof fn lemma_split_seq_len<T>(s: Seq<T>, sep: T)
    ensures
        split_seq(s, sep).len() >= 1,
    decreases s.len(),
{
    if s.len() != 0 {
        lemma_split_seq_len(s.drop_last(), sep);
    }
}

/// Splitting a character vector on a separator character.
pub fn split_chars(s: &Vec<char>, sep: char) -> (r: Vec<Vec<char>>)
    ensures
        r.deep_view() == split_seq(s@, sep),
{
    let n = s.len();
    let mut done: Vec<Vec<char>> = Vec::new();
    let mut cur: Vec<char> = Vec::new();
    let mut i: usize = 0;
    while i < n
        invariant
            i <= n,
            n == s@.len(),
            split_seq(s@.take(i as int), sep) == done.deep_view().push(cur@),
        decreases n - i,
    {
        proof {
            assert(s@.take(i + 1).drop_last() =~= s@.take(i as int));
            assert(s@.take(i + 1).last() == s@[i as int]);
            lemma_split_seq_len(s@.take(i as int), sep);
        }
        let ghost prev = split_seq(s@.take(i as int), sep);
        if s[i] == sep {
            let finished = cur;
            cur = Vec::new();
            done.push(finished);
            proof {
                lemma_vec_char_deep_view(finished);
                assert(split_seq(s@.take(i + 1), sep) =~= prev.push(Seq::<char>::empty()));
                assert(done.deep_view() =~= prev);
                assert(split_seq(s@.take(i + 1), sep) == done.deep_view().push(cur@));
            }
        } else {
            cur.push(s[i]);
            proof {
                assert(prev.len() == done.deep_view().len() + 1);
                assert(prev.last() =~= cur@.drop_last());
                assert(cur@.drop_last().push(s@[i as int]) =~= cur@);
                assert(split_seq(s@.take(i + 1), sep) =~= done.deep_view().push(cur@));
            }
        }
        i = i + 1;
    }
    proof {
        assert(s@.take(n as int) =~= s@);
    }
    proof {
        lemma_vec_char_deep_view(cur);
    }
    done.push(cur);
    proof {
        assert(done.deep_view() =~= split_seq(s@, sep));
    }
    done
}

/// The distinct elements of a sequence of character sequences, each kept
/// at its first occurrence, in order.
pub open spec fn first_occurrences(s: Seq<Seq<char>>) -> Seq<Seq<char>>
    decreases s.len(),
{
    if s.len() == 0 {
        Seq::<Seq<char>>::empty()
    } else {
        let r = first_occurrences(s.drop_last());
        if r.contains(s.last()) {
            r
        } else {
            r.push(s.last())
        }
    }
}

/// Whether one of the vectors in `v` holds exactly the characters of `x`.
pub fn contains_chars(v: &Vec<Vec<char>>, x: &Vec<char>) -> (r: bool)
    ensures
        r == v.deep_view().contains(x@),
{
    let n = v.len();
    let mut i: usize = 0;
    while i < n
        invariant
            i <= n,
            n == v@.len(),
            forall|k: int| 0 <= k < i ==> v.deep_view()[k] != x@,
        decreases n - i,
    {
        let hit = chars_eq(&v[i], x);
        proof {
            lemma_vec_char_deep_view(v@[i as int]);
        }
        if hit {
            proof {
                assert(v.deep_view()[i as int] == x@);
            }
            return true;
        }
        i = i + 1;
    }
    proof {
        if v.deep_view().contains(x@) {
            let k = choose|k: int| 0 <= k < v.deep_view().len() && v.deep_view()[k] == x@;
            assert(false);
        }
    }
    false
}

/// The input tokens with duplicates dropped: each distinct token is kept
/// at its first occurrence.
pub fn dedup_tokens(v: &Vec<Vec<char>>) -> (r: Vec<Vec<char>>)
    ensures
        r.deep_view() == first_occurrences(v.deep_view()),
{
    let n = v.len();
    let mut r: Vec<Vec<char>> = Vec::new();
    let mut i: usize = 0;
    while i < n
        invariant
            i <= n,
            n == v@.len(),
            r.deep_view() == first_occurrences(v.deep_view().take(i as int)),
        decreases n - i,
    {
        let ghost prefix = v.deep_view().take(i as int);
        proof {
            assert(v.deep_view().take(i + 1).drop_last() =~= prefix);
            assert(v.deep_view().take(i + 1).last() == v.deep_view()[i as int]);
        }
        let tok = v[i].clone();
        proof {
            assert(tok@ == v.deep_view()[i as int]);
        }
        if !contains_chars(&r, &tok) {
            r.push(tok);
            proof {
                assert(r.deep_view() =~= first_occurrences(v.deep_view().take(i + 1)));
            }
        }
        i = i + 1;
    }
    proof {
        assert(v.deep_view().take(n as int) =~= v.deep_view());
    }
    r
}

/// The final component of a path: the characters after the last `/`,
/// or the whole path when it has no `/`.
pub open spec fn last_component(p: Seq<char>) -> Seq<char>
    decreases p.len(),
{
    if p.len() == 0 {
        p
    } else if p.last() == '/' {
        Seq::<char>::empty()
    } else {
        last_component(p.drop_last()).push(p.last())
    }
}

pub fn last_component_chars(p: &Vec<char>) -> (r: Vec<char>)
    ensures
        r@ == last_component(p@),
{
    let n = p.len();
    let mut cur: Vec<char> = Vec::new();
    let mut i: usize = 0;
    while i < n
        invariant
            i <= n,
            n == p@.len(),
            cur@ == last_component(p@.take(i as int)),
        decreases n - i,
    {
        proof {
            assert(p@.take(i + 1).drop_last() =~= p@.take(i as int));
            assert(p@.take(i + 1).last() == p@[i as int]);
        }
        if p[i] == '/' {
            cur = Vec::new();
        } else {
            cur.push(p[i]);
        }
        i = i + 1;
    }
    proof {
        assert(p@.take(n as int) =~= p@);
    }
    cur
}

/// The index of the last `.` of a file name, leading dots not counted:
/// only positions from one on qualify. Negative when there is none, so
/// that a name such as `.bashrc` has no extension.
pub open spec fn rightmost_dot(c: Seq<char>) -> int
    decreases c.len(),
{
    if c.len() <= 1 {
        -1
    } else if c.last() == '.' {
        c.len() - 1
    } else {
        rightmost_dot(c.drop_last())
    }
}

proof fn lemma_rightmost_dot_range(c: Seq<char>)
    ensures
        -1 <= rightmost_dot(c) < c.len(),
    decreases c.len(),
{
    if c.len() > 1 && c.last() != '.' {
        lemma_rightmost_dot_range(c.drop_last());
    }
}

/// The stem of a file name: what stands before the last dot, or the
/// whole name when there is no dot to cut at.
pub open spec fn stem_of_name(c: Seq<char>) -> Seq<char> {
    let d = rightmost_dot(c);
    if d < 0 {
        c
    } else {
        c.take(d)
    }
}

/// The extension of a file name: what stands after the last dot, absent
/// when there is no dot to cut at.
pub open spec fn extension_of_name(c: Seq<char>) -> Option<Seq<char>> {
    let d = rightmost_dot(c);
    if d < 0 {
        None
    } else {
        Some(c.skip(d + 1))
    }
}

/// The stem of a path: its last component, cut before the last dot.
pub open spec fn stem_of_path(p: Seq<char>) -> Seq<char> {
    stem_of_name(last_component(p))
}

fn rightmost_dot_chars(c: &Vec<char>) -> (r: Option<usize>)
    ensures
        match r {
            Some(d) => rightmost_dot(c@) == d,
            None => rightmost_dot(c@) < 0,
        },
{
    let n = c.len();
    let mut j: usize = n;
    proof {
        assert(c@.take(n as int) =~= c@);
    }
    while j > 1
        invariant
            j <= n,
            n == c@.len(),
            rightmost_dot(c@) == rightmost_dot(c@.take(j as int)),
        decreases j,
    {
        proof {
            assert(c@.take(j as int).drop_last() =~= c@.take(j - 1));
            assert(c@.take(j as int).last() == c@[j - 1]);
        }
        if c[j - 1] == '.' {
            return Some(j - 1);
        }
        j = j - 1;
    }
    None
}

/// The stem of a file name, as a character vector.
pub fn stem_of_name_chars(c: &Vec<char>) -> (r: Vec<char>)
    ensures
        r@ == stem_of_name(c@),
{
    proof {
        lemma_rightmost_dot_range(c@);
    }
    match rightmost_dot_chars(c) {
        Some(d) => {
            let mut r = c.clone();
            r.truncate(d);
            proof {
                assert(r@ =~= c@.take(d as int));
            }
            r
        },
        None => c.clone(),
    }
}

/// Whether a file name carries the `desktop` extension.
pub fn has_desktop_extension(c: &Vec<char>) -> (r: bool)
    ensures
        r == (extension_of_name(c@) == Some("desktop"@)),
{
    proof {
        lemma_rightmost_dot_range(c@);
    }
    let pat = str_chars("desktop");
    match rightmost_dot_chars(c) {
        Some(d) => {
            let mut tmp = c.clone();
            let ext = tmp.split_off(d + 1);
            proof {
                assert(ext@ =~= c@.skip(d + 1));
            }
            chars_eq(&ext, &pat)
        },
        None => false,
    }
}

} // verus!
