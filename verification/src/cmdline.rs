//! Defensive parsing of a process's raw argument record.
//!
//! The record is conventionally NUL-separated, but a process may
//! rewrite its own argument vector: sometimes everything is stuffed
//! into one space-joined field, and sometimes there is nothing at all.

use crate::find_command::FindError;
use crate::text::split_seq;
use vstd::prelude::*;

verus! {

/// The deep view of a byte vector is its plain view.
proof fn lemma_vec_u8_deep_view(v: Vec<u8>)
    ensures
        v.deep_view() == v@,
{
    assert(v.deep_view() =~= v@);
}

/// Splitting a byte vector on a separator byte.
fn split_bytes(s: &Vec<u8>, sep: u8) -> (r: Vec<Vec<u8>>)
    ensures
        r.deep_view() == split_seq(s@, sep),
{
    let n = s.len();
    let mut done: Vec<Vec<u8>> = Vec::new();
    let mut cur: Vec<u8> = Vec::new();
    let mut i: usize = 0;
    while i < n
        invariant
            i <= n,
            n == s@.len(),
            split_seq(s@.take(i as int), sep) == done.deep_view().push(cur@),
        decreases n - i,
    {
        proof {
            assert(s@.take(i + 1).drop_last() =~= s@.take(i as int));
            assert(s@.take(i + 1).last() == s@[i as int]);
            crate::text::lemma_split_seq_len(s@.take(i as int), sep);
        }
        let ghost prev = split_seq(s@.take(i as int), sep);
        if s[i] == sep {
            let finished = cur;
            cur = Vec::new();
            proof {
                lemma_vec_u8_deep_view(finished);
            }
            done.push(finished);
            proof {
                assert(split_seq(s@.take(i + 1), sep) =~= prev.push(Seq::<u8>::empty()));
                assert(done.deep_view() =~= prev);
                assert(split_seq(s@.take(i + 1), sep) == done.deep_view().push(cur@));
            }
        } else {
            cur.push(s[i]);
            proof {
                assert(prev.len() == done.deep_view().len() + 1);
                assert(prev.last() =~= cur@.drop_last());
                assert(cur@.drop_last().push(s@[i as int]) =~= cur@);
                assert(split_seq(s@.take(i + 1), sep) =~= done.deep_view().push(cur@));
            }
        }
        i = i + 1;
    }
    proof {
        assert(s@.take(n as int) =~= s@);
        lemma_vec_u8_deep_view(cur);
    }
    done.push(cur);
    proof {
        assert(done.deep_view() =~= split_seq(s@, sep));
    }
    done
}

/// The tokens that are not empty, in order.
pub open spec fn nonempty_tokens(ts: Seq<Seq<u8>>) -> Seq<Seq<u8>>
    decreases ts.len(),
{
    if ts.len() == 0 {
        Seq::<Seq<u8>>::empty()
    } else {
        let r = nonempty_tokens(ts.drop_last());
        if ts.last().len() > 0 {
            r.push(ts.last())
        } else {
            r
        }
    }
}

fn filter_nonempty(ts: Vec<Vec<u8>>) -> (r: Vec<Vec<u8>>)
    ensures
        r.deep_view() == nonempty_tokens(ts.deep_view()),
{
    let n = ts.len();
    let mut r: Vec<Vec<u8>> = Vec::new();
    let mut i: usize = 0;
    while i < n
        invariant
            i <= n,
            n == ts@.len(),
            r.deep_view() == nonempty_tokens(ts.deep_view().take(i as int)),
        decreases n - i,
    {
        proof {
            assert(ts.deep_view().take(i + 1).drop_last() =~= ts.deep_view().take(i as int));
            assert(ts.deep_view().take(i + 1).last() == ts.deep_view()[i as int]);
            lemma_vec_u8_deep_view(ts@[i as int]);
        }
        if ts[i].len() > 0 {
            let t = ts[i].clone();
            proof {
                lemma_vec_u8_deep_view(t);
            }
            r.push(t);
            proof {
                assert(r.deep_view() =~= nonempty_tokens(ts.deep_view().take(i + 1)));
            }
        }
        i = i + 1;
    }
    proof {
        assert(ts.deep_view().take(n as int) =~= ts.deep_view());
    }
    r
}

/// Whether the bytes hold the given byte.
fn bytes_contain(v: &Vec<u8>, b: u8) -> (r: bool)
    ensures
        r == v@.contains(b),
{
    let n = v.len();
    let mut i: usize = 0;
    while i < n
        invariant
            i <= n,
            n == v@.len(),
            forall|k: int| 0 <= k < i ==> v@[k] != b,
        decreases n - i,
    {
        if v[i] == b {
            return true;
        }
        i = i + 1;
    }
    proof {
        if v@.contains(b) {
            let k = choose|k: int| 0 <= k < v@.len() && v@[k] == b;
            assert(false);
        }
    }
    false
}

/// What decoding bytes as text yields, invalid sequences replaced. The
/// result depends on the bytes alone.
pub uninterp spec fn lossy_of(bytes: Seq<u8>) -> Seq<char>;

/// Relies on String::from_utf8_lossy: the text of the bytes, invalid
/// sequences replaced. Bytes under 0x80 are plain ASCII and decode as
/// themselves.
#[verifier::external_body]
fn bytes_to_string_lossy(b: &Vec<u8>) -> (r: String)
    ensures
        r@ == lossy_of(b@),
        (forall|i: int| 0 <= i < b@.len() ==> b@[i] < 0x80) ==> r@ == b@.map(
            |i: int, x: u8| x as char,
        ),
{
    String::from_utf8_lossy(b).into_owned()
}

/// The argument tokens of a raw record, still as bytes, and whether
/// they had to be recovered from a single space-joined field. An empty
/// record, or one without a single non-empty token, has no retrievable
/// arguments and counts as a zombie process.
pub open spec fn cmdline_tokens_model(bytes: Seq<u8>) -> Result<(Seq<Seq<u8>>, bool), FindError> {
    if bytes.len() == 0 {
        Err(FindError::ProcessIsZombie)
    } else {
        let toks = nonempty_tokens(split_seq(bytes, 0u8));
        if toks.len() == 0 {
            Err(FindError::ProcessIsZombie)
        } else if toks.len() == 1 && toks[0].contains(32u8) {
            let rts = nonempty_tokens(split_seq(toks[0], 32u8));
            if rts.len() == 0 {
                Err(FindError::ProcessIsZombie)
            } else {
                Ok((rts, true))
            }
        } else {
            Ok((toks, false))
        }
    }
}

/// The argument tokens as text.
pub open spec fn args_text(args: Seq<Seq<u8>>) -> Seq<Seq<char>> {
    args.map(|i: int, a: Seq<u8>| lossy_of(a))
}

/// A parsed argument record: the argument vector, and whether it was
/// recovered by re-splitting a single space-joined field.
#[derive(Debug)]
pub struct ParsedCmdline {
    pub args: Vec<String>,
    pub space_recovered: bool,
}

/// Parses a raw process-argument record: NUL-separated fields, empty
/// fields dropped. A single field holding spaces is assumed to be a
/// rewritten argument vector and is re-split on spaces. A record with
/// no retrievable arguments fails as a zombie process; the returned
/// vector is never empty.
pub fn parse_cmdline_record(bytes: &Vec<u8>) -> (r: Result<ParsedCmdline, FindError>)
    ensures
        match r {
            Ok(p) => cmdline_tokens_model(bytes@) matches Ok(m) && p.args.deep_view()
                == args_text(m.0) && p.space_recovered == m.1 && p.args@.len() > 0,
            Err(e) => cmdline_tokens_model(bytes@) == Err::<(Seq<Seq<u8>>, bool), FindError>(e),
        },
{
    if bytes.len() == 0 {
        return Err(FindError::ProcessIsZombie);
    }
    let toks = filter_nonempty(split_bytes(bytes, 0));
    if toks.len() == 0 {
        return Err(FindError::ProcessIsZombie);
    }
    if toks.len() == 1 && bytes_contain(&toks[0], 32) {
        proof {
            lemma_vec_u8_deep_view(toks@[0]);
        }
        let rts = filter_nonempty(split_bytes(&toks[0], 32));
        if rts.len() == 0 {
            return Err(FindError::ProcessIsZombie);
        }
        let args = tokens_to_strings(&rts);
        Ok(ParsedCmdline { args, space_recovered: true })
    } else {
        let args = tokens_to_strings(&toks);
        Ok(ParsedCmdline { args, space_recovered: false })
    }
}

fn tokens_to_strings(ts: &Vec<Vec<u8>>) -> (r: Vec<String>)
    ensures
        r.deep_view() == args_text(ts.deep_view()),
        r@.len() == ts@.len(),
{
    let n = ts.len();
    let mut r: Vec<String> = Vec::new();
    let mut i: usize = 0;
    while i < n
        invariant
            i <= n,
            n == ts@.len(),
            r@.len() == i,
            r.deep_view() == args_text(ts.deep_view().take(i as int)),
        decreases n - i,
    {
        proof {
            lemma_vec_u8_deep_view(ts@[i as int]);
        }
        let s = bytes_to_string_lossy(&ts[i]);
        proof {
            assert(s@ == lossy_of(ts.deep_view()[i as int]));
        }
        let ghost old_r = r;
        r.push(s);
        proof {
            assert forall|k: int| 0 <= k < i + 1 implies r.deep_view()[k] == args_text(
                ts.deep_view().take(i + 1),
            )[k] by {
                assert(ts.deep_view().take(i + 1)[k] == ts.deep_view()[k]);
                if k < i {
                    assert(r@[k] == old_r@[k]);
                    assert(r.deep_view()[k] == old_r.deep_view()[k]);
                    assert(old_r.deep_view()[k] == args_text(ts.deep_view().take(i as int))[k]);
                    assert(ts.deep_view().take(i as int)[k] == ts.deep_view()[k]);
                } else {
                    assert(r.deep_view()[k] == r@[k].deep_view());
                }
            }
            assert(r.deep_view() =~= args_text(ts.deep_view().take(i + 1)));
        }
        i = i + 1;
    }
    proof {
        assert(ts.deep_view().take(n as int) =~= ts.deep_view());
    }
    r
}

/// What substituting the executable into a recovered argument vector
/// yields: when the first argument does not name an existing file and
/// an executable link was resolved, the link replaces the first
/// argument; otherwise the vector stands unchanged.
pub open spec fn substituted_args(
    args: Seq<Seq<char>>,
    first_exists: bool,
    exe: Option<Seq<char>>,
) -> Seq<Seq<char>> {
    if !first_exists && args.len() > 0 {
        match exe {
            Some(e) => args.update(0, e),
            None => args,
        }
    } else {
        args
    }
}

/// Replaces the first argument of a space-recovered vector by the
/// process's resolved executable link, where the caller found that the
/// first argument names no existing file. `first_exists` is the
/// caller's answer to that check; `exe` the resolved link, if any.
pub fn substitute_recovered_executable(
    args: Vec<String>,
    first_exists: bool,
    exe: Option<String>,
) -> (r: Vec<String>)
    ensures
        r.deep_view() == substituted_args(args.deep_view(), first_exists, exe.deep_view()),
        r@.len() == args@.len(),
{
    let ghost orig = args.deep_view();
    let mut args = args;
    if !first_exists && args.len() > 0 {
        match exe {
            Some(e) => {
                args.set(0, e);
                proof {
                    assert(args.deep_view() =~= substituted_args(
                        orig,
                        first_exists,
                        Some(e@),
                    ));
                }
            },
            None => {},
        }
    }
    args
}

} // verus!
