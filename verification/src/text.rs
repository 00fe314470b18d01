//! Verified text manipulation shared by the wire surface.
//!
//! Substring replacement (left-to-right, non-overlapping, as `str::replace`
//! performs it), splitting on a separator character, and newline-joining —
//! the pieces behind the index view, the info sheet, and the converter
//! command template.

use vstd::prelude::*;

verus! {

use vstd::assert_seqs_equal;
use vstd::string::StrSliceExecFns;
use vstd::string::StringExecFns;
use crate::registry::{path_views, lemma_path_views_push};

/// `s` with every occurrence of `pat` replaced by `rep`, scanning left to
/// right without overlap; `s` unchanged when `pat` is empty.
pub open spec fn replaced(s: Seq<char>, pat: Seq<char>, rep: Seq<char>) -> Seq<char>
    decreases s.len(),
{
    if pat.len() == 0 || s.len() < pat.len() {
        s
    } else if s.take(pat.len() as int) == pat {
        rep + replaced(s.skip(pat.len() as int), pat, rep)
    } else {
        seq![s[0]] + replaced(s.skip(1), pat, rep)
    }
}

/// The pieces of `s` between occurrences of `c`: always at least one
/// piece, and one more piece than separators.
pub open spec fn split_on(s: Seq<char>, c: char) -> Seq<Seq<char>>
    decreases s.len(),
{
    if s.len() == 0 {
        seq![Seq::<char>::empty()]
    } else {
        let rest = split_on(s.drop_last(), c);
        if s.last() == c {
            rest.push(Seq::<char>::empty())
        } else {
            rest.update(rest.len() - 1, rest.last().push(s.last()))
        }
    }
}

/// Splitting never yields an empty sequence of pieces.
pub proof fn lemma_split_nonempty(s: Seq<char>, c: char)
    ensures
        split_on(s, c).len() >= 1,
    decreases s.len(),
{
    if s.len() > 0 {
        lemma_split_nonempty(s.drop_last(), c);
    }
}

/// Each line followed by a newline, in order.
pub open spec fn lines_of(rows: Seq<Seq<char>>) -> Seq<char>
    decreases rows.len(),
{
    if rows.len() == 0 {
        Seq::empty()
    } else {
        lines_of(rows.drop_last()) + rows.last() + seq!['\n']
    }
}

/// Whether `pat` occurs in `s` at character position `i`.
fn has_pat_at(s: &str, n: usize, i: usize, pat: &str, m: usize) -> (r: bool)
    requires
        n == s@.len(),
        m == pat@.len(),
        i + m <= n,
    ensures
        r == (s@.subrange(i as int, i + m) == pat@),
{
    let mut k: usize = 0;
    while k < m
        invariant
            k <= m,
            n == s@.len(),
            m == pat@.len(),
            i + m <= n,
            forall|t: int| 0 <= t < k ==> s@[i + t] == pat@[t],
        decreases m - k,
    {
        if s.get_char(i + k) != pat.get_char(k) {
            proof {
                assert(s@.subrange(i as int, i + m)[k as int] != pat@[k as int]);
            }
            return false;
        }
        k += 1;
    }
    proof {
        assert_seqs_equal!(s@.subrange(i as int, i + m), pat@);
    }
    true
}

/// `s` with every occurrence of `pat` replaced by `rep`, as
/// [`replaced`] states it.
pub fn replace_all(s: &str, pat: &str, rep: &str) -> (r: String)
    ensures
        r@ == replaced(s@, pat@, rep@),
{
    let n = s.unicode_len();
    let m = pat.unicode_len();
    if m == 0 {
        return String::from_str(s);
    }
    let mut out = String::new();
    let mut i: usize = 0;
    proof {
        assert(s@.skip(0) =~= s@);
        assert(out@ + replaced(s@, pat@, rep@) =~= replaced(s@, pat@, rep@));
    }
    while i < n
        invariant
            i <= n,
            n == s@.len(),
            m == pat@.len(),
            m >= 1,
            replaced(s@, pat@, rep@) == out@ + replaced(s@.skip(i as int), pat@, rep@),
        decreases n - i,
    {
        let ghost tail = s@.skip(i as int);
        if m <= n - i && has_pat_at(s, n, i, pat, m) {
            proof {
                assert(tail.take(m as int) =~= s@.subrange(i as int, i + m));
                assert(tail.skip(m as int) =~= s@.skip(i + m));
                assert(replaced(tail, pat@, rep@)
                    == rep@ + replaced(s@.skip(i + m), pat@, rep@));
            }
            out.append(rep);
            proof {
                assert((out@ + replaced(s@.skip(i + m), pat@, rep@))
                    =~= replaced(s@, pat@, rep@));
            }
            i += m;
        } else {
            proof {
                if m <= n - i {
                    assert(tail.take(m as int) =~= s@.subrange(i as int, i + m));
                    assert(tail.take(m as int) != pat@);
                    assert(replaced(tail, pat@, rep@)
                        == seq![tail[0]] + replaced(tail.skip(1), pat@, rep@));
                } else {
                    assert(tail.len() < pat@.len());
                    assert(replaced(tail, pat@, rep@) == tail);
                    assert(tail.skip(1).len() < pat@.len());
                    assert(replaced(tail.skip(1), pat@, rep@) == tail.skip(1));
                    assert(tail =~= seq![tail[0]] + tail.skip(1));
                }
                assert(tail.skip(1) =~= s@.skip(i + 1));
                assert(s@.subrange(i as int, i + 1) =~= seq![tail[0]]);
            }
            out.append(s.substring_char(i, i + 1));
            proof {
                assert((out@ + replaced(s@.skip(i + 1), pat@, rep@))
                    =~= replaced(s@, pat@, rep@));
            }
            i += 1;
        }
    }
    proof {
        assert(s@.skip(n as int) =~= Seq::<char>::empty());
        assert(replaced(s@.skip(n as int), pat@, rep@) == s@.skip(n as int));
        assert(out@ =~= replaced(s@, pat@, rep@));
    }
    out
}

/// The pieces of `s` between occurrences of `c`, as [`split_on`] states.
pub fn split_on_char(s: &str, c: char) -> (r: Vec<String>)
    ensures
        path_views(r@) == split_on(s@, c),
        r@.len() >= 1,
{
    let n = s.unicode_len();
    let mut out: Vec<String> = Vec::new();
    let mut cur = String::new();
    let mut i: usize = 0;
    while i < n
        invariant
            i <= n,
            n == s@.len(),
            path_views(out@).push(cur@) == split_on(s@.take(i as int), c),
        decreases n - i,
    {
        let ch = s.get_char(i);
        proof {
            assert(s@.take(i + 1).drop_last() =~= s@.take(i as int));
            assert(s@.take(i + 1).last() == s@[i as int]);
            lemma_split_nonempty(s@.take(i as int), c);
        }
        if ch == c {
            let ghost prev_out = out@;
            let ghost prev_cur = cur@;
            out.push(cur);
            cur = String::new();
            proof {
                lemma_path_views_push(prev_out, prev_out.push(out@.last()).last());
                assert(path_views(out@) =~= path_views(prev_out).push(prev_cur));
                assert(path_views(out@).push(cur@) =~= split_on(s@.take(i + 1), c));
            }
        } else {
            let ghost prev_cur = cur@;
            cur.append(s.substring_char(i, i + 1));
            proof {
                assert(s@.subrange(i as int, i + 1) =~= seq![s@[i as int]]);
                assert(cur@ =~= prev_cur.push(s@[i as int]));
                let prev = split_on(s@.take(i as int), c);
                assert(prev.last() == prev_cur);
                assert(path_views(out@).push(cur@)
                    =~= prev.update(prev.len() - 1, prev.last().push(s@[i as int])));
            }
        }
        i += 1;
    }
    proof {
        assert(s@.take(n as int) =~= s@);
    }
    let ghost prev_out = out@;
    let ghost prev_cur = cur@;
    out.push(cur);
    proof {
        lemma_path_views_push(prev_out, out@.last());
        assert(path_views(out@) =~= path_views(prev_out).push(prev_cur));
    }
    out
}

/// Each row of `rows` followed by a newline, as [`lines_of`] states.
pub fn join_lines(rows: &Vec<String>) -> (r: String)
    ensures
        r@ == lines_of(path_views(rows@)),
{
    let mut out = String::new();
    let mut i: usize = 0;
    while i < rows.len()
        invariant
            i <= rows@.len(),
            out@ == lines_of(path_views(rows@).take(i as int)),
        decreases rows@.len() - i,
    {
        out.append(rows[i].as_str());
        out.append("\n");
        proof {
            reveal_strlit("\n");
            assert(path_views(rows@).take(i + 1).drop_last()
                =~= path_views(rows@).take(i as int));
            assert(path_views(rows@).take(i + 1).last() == rows@[i as int]@);
            assert(out@ =~= lines_of(path_views(rows@).take(i + 1)));
        }
        i += 1;
    }
    proof {
        assert(path_views(rows@).take(rows@.len() as int) =~= path_views(rows@));
    }
    out
}

} // verus!
