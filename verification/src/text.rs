use vstd::prelude::*;
use vstd::string::StrSliceExecFns;

verus! {

/// One literal, leftmost, non-overlapping replacement pass: every occurrence
/// of `pat` in `t` is replaced by `to`, scanning left to right. An empty
/// pattern replaces nothing.
pub open spec fn replace_all_spec(t: Seq<char>, pat: Seq<char>, to: Seq<char>) -> Seq<char>
    decreases t.len(),
{
    if pat.len() == 0 || t.len() < pat.len() {
        t
    } else if t.subrange(0, pat.len() as int) == pat {
        to + replace_all_spec(t.skip(pat.len() as int), pat, to)
    } else {
        seq![t[0]] + replace_all_spec(t.skip(1), pat, to)
    }
}

/// `pat` occurs in `t` starting at position `i`.
pub open spec fn occurs_at(t: Seq<char>, pat: Seq<char>, i: int) -> bool {
    &&& 0 <= i
    &&& i + pat.len() <= t.len()
    &&& t.subrange(i, i + pat.len()) == pat
}

/// `pat` occurs somewhere in `t`.
pub open spec fn occurs(t: Seq<char>, pat: Seq<char>) -> bool {
    exists|i: int| occurs_at(t, pat, i)
}

/// A text without any occurrence of the pattern is a fixed point of the
/// replacement pass.
pub proof fn lemma_replace_all_absent(t: Seq<char>, pat: Seq<char>, to: Seq<char>)
    requires
        !occurs(t, pat),
    ensures
        replace_all_spec(t, pat, to) == t,
    decreases t.len(),
{
    if pat.len() == 0 {
        assert(t.subrange(0, 0) =~= pat);
        assert(occurs_at(t, pat, 0));
    } else if t.len() < pat.len() {
    } else {
        assert(!occurs_at(t, pat, 0));
        assert(t.subrange(0, pat.len() as int) != pat);
        assert forall|i: int| !occurs_at(t.skip(1), pat, i) by {
            if occurs_at(t.skip(1), pat, i) {
                assert(t.subrange(i + 1, i + 1 + pat.len()) =~= t.skip(1).subrange(
                    i,
                    i + pat.len(),
                ));
                assert(occurs_at(t, pat, i + 1));
            }
        }
        lemma_replace_all_absent(t.skip(1), pat, to);
        assert(seq![t[0]] + t.skip(1) =~= t);
    }
}

/// Appends every element of `src` to `out`.
pub fn push_all(out: &mut Vec<char>, src: &Vec<char>)
    ensures
        final(out)@ == old(out)@ + src@,
{
    let mut j: usize = 0;
    while j < src.len()
        invariant
            j <= src@.len(),
            out@ == old(out)@ + src@.subrange(0, j as int),
        decreases src@.len() - j,
    {
        out.push(src[j]);
        j += 1;
        proof {
            assert(src@.subrange(0, j as int) =~= src@.subrange(0, j - 1).push(
                src@[j - 1],
            ));
            assert(out@ =~= old(out)@ + src@.subrange(0, j as int));
        }
    }
    proof {
        assert(src@.subrange(0, src@.len() as int) =~= src@);
    }
}

/// The characters of a string slice, in order.
pub fn str_chars(s: &str) -> (r: Vec<char>)
    ensures
        r@ == s@,
{
    let n = s.unicode_len();
    let mut r: Vec<char> = Vec::new();
    let mut i: usize = 0;
    while i < n
        invariant
            i <= n,
            n == s@.len(),
            r@ == s@.subrange(0, i as int),
        decreases n - i,
    {
        let c = s.get_char(i);
        r.push(c);
        i += 1;
        proof {
            assert(s@.subrange(0, i as int) =~= s@.subrange(0, i - 1).push(c));
        }
    }
    proof {
        assert(s@.subrange(0, n as int) =~= s@);
    }
    r
}

/// `s` ends with `suffix`.
pub open spec fn ends_with_spec(s: Seq<char>, suffix: Seq<char>) -> bool {
    s.len() >= suffix.len() && s.subrange(s.len() - suffix.len(), s.len() as int) == suffix
}

/// Does the string end with the given suffix?
pub fn str_ends_with(s: &str, suffix: &str) -> (r: bool)
    ensures
        r == ends_with_spec(s@, suffix@),
{
    let n = s.unicode_len();
    let m = suffix.unicode_len();
    if m > n {
        return false;
    }
    let mut k: usize = 0;
    while k < m
        invariant
            k <= m,
            m <= n,
            n == s@.len(),
            m == suffix@.len(),
            forall|j: int| 0 <= j < k ==> s@[n - m + j] == suffix@[j],
        decreases m - k,
    {
        if s.get_char(n - m + k) != suffix.get_char(k) {
            proof {
                assert(s@.subrange(n - m, n as int)[k as int] == s@[n - m + k]);
            }
            return false;
        }
        k += 1;
    }
    proof {
        assert(s@.subrange(n - m, n as int) =~= suffix@);
    }
    true
}

/// `s` starts with `prefix`.
pub open spec fn starts_with_spec(s: Seq<char>, prefix: Seq<char>) -> bool {
    s.len() >= prefix.len() && s.subrange(0, prefix.len() as int) == prefix
}

/// Does the string start with the given prefix?
pub fn str_starts_with(s: &str, prefix: &str) -> (r: bool)
    ensures
        r == starts_with_spec(s@, prefix@),
{
    let n = s.unicode_len();
    let m = prefix.unicode_len();
    if m > n {
        return false;
    }
    let mut k: usize = 0;
    while k < m
        invariant
            k <= m,
            m <= n,
            n == s@.len(),
            m == prefix@.len(),
            forall|j: int| 0 <= j < k ==> s@[j] == prefix@[j],
        decreases m - k,
    {
        if s.get_char(k) != prefix.get_char(k) {
            proof {
                assert(s@.subrange(0, m as int)[k as int] == s@[k as int]);
            }
            return false;
        }
        k += 1;
    }
    proof {
        assert(s@.subrange(0, m as int) =~= prefix@);
    }
    true
}

/// The file extensions the substitution pass rewrites: structured-data and
/// plain-text files; every other file is left untouched.
pub open spec fn is_text_path_spec(p: Seq<char>) -> bool {
    ||| ends_with_spec(p, ".yml"@)
    ||| ends_with_spec(p, ".yaml"@)
    ||| ends_with_spec(p, ".json"@)
    ||| ends_with_spec(p, ".txt"@)
}

/// Does the substitution pass rewrite a file at this path?
pub fn is_text_path(p: &str) -> (r: bool)
    ensures
        r == is_text_path_spec(p@),
{
    if str_ends_with(p, ".yml") {
        return true;
    }
    if str_ends_with(p, ".yaml") {
        return true;
    }
    if str_ends_with(p, ".json") {
        return true;
    }
    if str_ends_with(p, ".txt") {
        return true;
    }
    false
}

/// `pat` matches `t` exactly at position `i`.
fn match_at(t: &Vec<char>, i: usize, pat: &Vec<char>) -> (r: bool)
    requires
        i + pat@.len() <= t@.len(),
    ensures
        r == (t@.subrange(i as int, i + pat@.len()) == pat@),
{
    let n = t.len();
    let mut j: usize = 0;
    while j < pat.len()
        invariant
            j <= pat@.len(),
            i + pat@.len() <= t@.len(),
            n == t@.len(),
            forall|k: int| 0 <= k < j ==> t@[i + k] == pat@[k],
        decreases pat@.len() - j,
    {
        if t[i + j] != pat[j] {
            proof {
                assert(t@.subrange(i as int, i + pat@.len())[j as int] == t@[i + j]);
            }
            return false;
        }
        j += 1;
    }
    proof {
        assert(t@.subrange(i as int, i + pat@.len()) =~= pat@);
    }
    true
}

/// Rewrites `t` by replacing every occurrence of `pat` with `to`, scanning
/// left to right and never re-scanning replaced output.
pub fn replace_all(t: &Vec<char>, pat: &Vec<char>, to: &Vec<char>) -> (r: Vec<char>)
    ensures
        r@ == replace_all_spec(t@, pat@, to@),
{
    let mut out: Vec<char> = Vec::new();
    if pat.len() == 0 {
        push_all(&mut out, t);
        return out;
    }
    let mut i: usize = 0;
    proof {
        assert(t@.skip(0) =~= t@);
    }
    while i < t.len()
        invariant
            i <= t@.len(),
            pat@.len() >= 1,
            replace_all_spec(t@, pat@, to@) == out@ + replace_all_spec(
                t@.skip(i as int),
                pat@,
                to@,
            ),
        decreases t@.len() - i,
    {
        let remaining = t.len() - i;
        if pat.len() <= remaining && match_at(t, i, pat) {
            proof {
                let s = t@.skip(i as int);
                assert(s.subrange(0, pat@.len() as int) =~= t@.subrange(
                    i as int,
                    i + pat@.len(),
                ));
                assert(s.skip(pat@.len() as int) =~= t@.skip(i + pat@.len()));
                assert(replace_all_spec(s, pat@, to@) == to@ + replace_all_spec(
                    t@.skip(i + pat@.len()),
                    pat@,
                    to@,
                ));
            }
            push_all(&mut out, to);
            i = i + pat.len();
        } else {
            proof {
                let s = t@.skip(i as int);
                if s.len() >= pat@.len() {
                    assert(s.subrange(0, pat@.len() as int) =~= t@.subrange(
                        i as int,
                        i + pat@.len(),
                    ));
                    assert(s.subrange(0, pat@.len() as int) != pat@);
                } else {
                    assert(s.skip(1).len() < pat@.len());
                }
                assert(seq![s[0]] + s.skip(1) =~= s);
                assert(s.skip(1) =~= t@.skip(i + 1));
                assert(replace_all_spec(s, pat@, to@) == seq![t@[i as int]]
                    + replace_all_spec(t@.skip(i + 1), pat@, to@));
            }
            out.push(t[i]);
            i += 1;
        }
    }
    proof {
        assert(t@.skip(t@.len() as int) =~= Seq::<char>::empty());
        assert(out@ + Seq::<char>::empty() =~= out@);
    }
    out
}

} // verus!
