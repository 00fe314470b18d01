//! Path arithmetic for the completion check.
//!
//! When a worker reports completion, the coordinator derives the expected
//! output file from the assigned input path: take the path's file name,
//! replace its extension with the configured one (stripped of any dots),
//! and join the result onto the completed-files directory. Paths are plain
//! character strings; a separator is `'/'`.

use vstd::prelude::*;

verus! {

use vstd::string::StrSliceExecFns;
use vstd::string::StringExecFns;

/// The part of `s` after its last `'/'` — all of `s` when it has none.
pub open spec fn file_name_of(s: Seq<char>) -> Seq<char>
    decreases s.len(),
{
    if s.len() == 0 {
        s
    } else if s.last() == '/' {
        Seq::empty()
    } else {
        file_name_of(s.drop_last()).push(s.last())
    }
}

/// Index of the last `'.'` in `s`, or `-1` when it has none.
pub open spec fn last_dot_of(s: Seq<char>) -> int
    decreases s.len(),
{
    if s.len() == 0 {
        -1
    } else if s.last() == '.' {
        s.len() - 1
    } else {
        last_dot_of(s.drop_last())
    }
}

/// The file name without its extension: everything before the last `'.'`,
/// unless that dot is absent or leads the name (a dotfile keeps its name).
pub open spec fn stem_of(name: Seq<char>) -> Seq<char> {
    let d = last_dot_of(name);
    if d <= 0 {
        name
    } else {
        name.take(d)
    }
}

/// `ext` with every `'.'` removed.
pub open spec fn dotless_of(ext: Seq<char>) -> Seq<char>
    decreases ext.len(),
{
    if ext.len() == 0 {
        ext
    } else if ext.last() == '.' {
        dotless_of(ext.drop_last())
    } else {
        dotless_of(ext.drop_last()).push(ext.last())
    }
}

/// The stem of `name` carrying extension `ext` — just the stem when `ext`
/// is empty.
pub open spec fn with_extension_of(name: Seq<char>, ext: Seq<char>) -> Seq<char> {
    if ext.len() == 0 {
        stem_of(name)
    } else {
        stem_of(name) + seq!['.'] + ext
    }
}

/// `dir` and `name` joined by a single separator.
pub open spec fn joined_of(dir: Seq<char>, name: Seq<char>) -> Seq<char> {
    if dir.len() > 0 && dir.last() == '/' {
        dir + name
    } else {
        dir + seq!['/'] + name
    }
}

/// The file expected in the completed directory once the job at `path` has
/// been converted to extension `ext`.
pub open spec fn output_path_of(dir: Seq<char>, path: Seq<char>, ext: Seq<char>) -> Seq<char> {
    joined_of(dir, with_extension_of(file_name_of(path), dotless_of(ext)))
}

proof fn lemma_file_name_after_slash(s: Seq<char>, k: int)
    requires
        0 <= k < s.len(),
        s[k] == '/',
        forall|m: int| k < m < s.len() ==> s[m] != '/',
    ensures
        file_name_of(s) == s.subrange(k + 1, s.len() as int),
    decreases s.len(),
{
    if k == s.len() - 1 {
        assert(s.last() == '/');
        assert(s.subrange(k + 1, s.len() as int) =~= Seq::empty());
    } else {
        assert(s.last() != '/');
        let t = s.drop_last();
        assert(t[k] == '/');
        lemma_file_name_after_slash(t, k);
        assert(t.subrange(k + 1, t.len() as int)
            =~= s.subrange(k + 1, s.len() - 1));
        assert(s.subrange(k + 1, s.len() - 1).push(s.last())
            =~= s.subrange(k + 1, s.len() as int));
    }
}

proof fn lemma_file_name_no_slash(s: Seq<char>)
    requires
        forall|m: int| 0 <= m < s.len() ==> s[m] != '/',
    ensures
        file_name_of(s) == s,
    decreases s.len(),
{
    if s.len() > 0 {
        lemma_file_name_no_slash(s.drop_last());
        assert(s.drop_last().push(s.last()) =~= s);
    }
}

proof fn lemma_last_dot_at(s: Seq<char>, k: int)
    requires
        0 <= k < s.len(),
        s[k] == '.',
        forall|m: int| k < m < s.len() ==> s[m] != '.',
    ensures
        last_dot_of(s) == k,
    decreases s.len(),
{
    if k < s.len() - 1 {
        lemma_last_dot_at(s.drop_last(), k);
    }
}

proof fn lemma_no_dot(s: Seq<char>)
    requires
        forall|m: int| 0 <= m < s.len() ==> s[m] != '.',
    ensures
        last_dot_of(s) == -1,
    decreases s.len(),
{
    if s.len() > 0 {
        lemma_no_dot(s.drop_last());
    }
}

/// The part of `path` after its last `'/'`.
pub fn file_name(path: &str) -> (r: String)
    ensures
        r@ == file_name_of(path@),
{
    let n = path.unicode_len();
    let mut i: usize = n;
    while i > 0
        invariant
            i <= n,
            n == path@.len(),
            forall|m: int| i <= m < n ==> path@[m] != '/',
        decreases i,
    {
        if path.get_char(i - 1) == '/' {
            proof {
                lemma_file_name_after_slash(path@, i - 1);
            }
            return String::from_str(path.substring_char(i, n));
        }
        i -= 1;
    }
    proof {
        lemma_file_name_no_slash(path@);
        assert(path@.subrange(0, n as int) =~= path@);
    }
    String::from_str(path.substring_char(0, n))
}

/// `ext` with every `'.'` removed, as the coordinator normalises the
/// configured output extension before using it.
pub fn strip_dots(ext: &str) -> (r: String)
    ensures
        r@ == dotless_of(ext@),
{
    let n = ext.unicode_len();
    let mut out = String::new();
    let mut i: usize = 0;
    while i < n
        invariant
            i <= n,
            n == ext@.len(),
            out@ == dotless_of(ext@.take(i as int)),
        decreases n - i,
    {
        let c = ext.get_char(i);
        proof {
            assert(ext@.take(i + 1).drop_last() =~= ext@.take(i as int));
            assert(ext@.take(i + 1).last() == ext@[i as int]);
        }
        if c != '.' {
            out.append(ext.substring_char(i, i + 1));
            proof {
                assert(ext@.subrange(i as int, i + 1) =~= seq![ext@[i as int]]);
                assert(out@ =~= dotless_of(ext@.take(i + 1)));
            }
        }
        i += 1;
    }
    proof {
        assert(ext@.take(n as int) =~= ext@);
    }
    out
}

/// The file name of `name` with its extension replaced by `ext` (already
/// dot-stripped); the extension is dropped when `ext` is empty.
pub fn with_extension(name: &str, ext: &str) -> (r: String)
    ensures
        r@ == with_extension_of(name@, ext@),
{
    let n = name.unicode_len();
    let mut d: usize = n;
    let mut found = false;
    let mut i: usize = n;
    while i > 0 && !found
        invariant
            i <= n,
            n == name@.len(),
            !found ==> forall|m: int| i <= m < n ==> name@[m] != '.',
            found ==> 0 <= d < n && last_dot_of(name@) == d,
        decreases (if found { 0int } else { i as int + 1 }),
    {
        if name.get_char(i - 1) == '.' {
            d = i - 1;
            found = true;
            proof {
                lemma_last_dot_at(name@, i - 1);
            }
        } else {
            i -= 1;
        }
    }
    proof {
        if !found {
            lemma_no_dot(name@);
        }
    }
    let stem = if found && d > 0 {
        String::from_str(name.substring_char(0, d))
    } else {
        proof {
            assert(name@.subrange(0, n as int) =~= name@);
        }
        String::from_str(name.substring_char(0, n))
    };
    proof {
        assert(stem@ == stem_of(name@));
    }
    if ext.unicode_len() == 0 {
        stem
    } else {
        let mut out = stem;
        out.append(".");
        out.append(ext);
        proof {
            reveal_strlit(".");
            assert(out@ =~= stem_of(name@) + seq!['.'] + ext@);
        }
        out
    }
}

/// `dir` and `name` joined by a single separator.
pub fn join_path(dir: &str, name: &str) -> (r: String)
    ensures
        r@ == joined_of(dir@, name@),
{
    let n = dir.unicode_len();
    let mut out = String::from_str(dir);
    if n == 0 || dir.get_char(n - 1) != '/' {
        out.append("/");
        proof {
            reveal_strlit("/");
            assert(out@ =~= dir@ + seq!['/']);
        }
    }
    out.append(name);
    proof {
        assert(out@ =~= joined_of(dir@, name@));
    }
    out
}

/// The absolute path the coordinator checks on a completion report: the
/// job's file name, re-extended with the configured output extension, in
/// the completed-files directory.
pub fn expected_output_path(completed_dir: &str, path: &str, ext: &str) -> (r: String)
    ensures
        r@ == output_path_of(completed_dir@, path@, ext@),
{
    let name = file_name(path);
    let clean = strip_dots(ext);
    let renamed = with_extension(name.as_str(), clean.as_str());
    join_path(completed_dir, renamed.as_str())
}

} // verus!
