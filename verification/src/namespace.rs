use vstd::prelude::*;
use vstd::string::StrSliceExecFns;

use crate::text::{occurs, push_all, replace_all, replace_all_spec, str_chars,
    lemma_replace_all_absent};

verus! {

/// How a raw key is normalized before it can address a placeholder: ASCII
/// lower-case letters are upper-cased and hyphens become underscores; every
/// other character is kept.
pub open spec fn normalize_char_spec(c: char) -> char {
    if c == '-' {
        '_'
    } else if 'a' <= c && c <= 'z' {
        ((c as u32) - 32) as char
    } else {
        c
    }
}

/// Normalization of a whole key.
pub open spec fn normalize_spec(k: Seq<char>) -> Seq<char> {
    k.map_values(|c: char| normalize_char_spec(c))
}

/// The literal placeholder token that a normalized key addresses.
pub open spec fn token_spec(key: Seq<char>) -> Seq<char> {
    "$$REALM_"@ + key + "$$"@
}

/// Looks a key up in an association sequence, first entry wins.
pub open spec fn ns_get(e: Seq<(Seq<char>, Seq<char>)>, k: Seq<char>) -> Option<Seq<char>>
    decreases e.len(),
{
    if e.len() == 0 {
        None
    } else if e[0].0 == k {
        Some(e[0].1)
    } else {
        ns_get(e.drop_first(), k)
    }
}

/// Binds `k` to `v` in an association sequence: the first entry carrying `k`
/// is replaced in place, or a fresh entry is appended at the end.
pub open spec fn ns_set(e: Seq<(Seq<char>, Seq<char>)>, k: Seq<char>, v: Seq<char>) -> Seq<
    (Seq<char>, Seq<char>),
>
    decreases e.len(),
{
    if e.len() == 0 {
        seq![(k, v)]
    } else if e[0].0 == k {
        seq![(k, v)] + e.drop_first()
    } else {
        seq![e[0]] + ns_set(e.drop_first(), k, v)
    }
}

/// After binding `k`, looking `k` up yields the new value.
pub proof fn lemma_ns_set_get_same(e: Seq<(Seq<char>, Seq<char>)>, k: Seq<char>, v: Seq<char>)
    ensures
        ns_get(ns_set(e, k, v), k) == Some(v),
    decreases e.len(),
{
    if e.len() == 0 {
    } else if e[0].0 == k {
    } else {
        lemma_ns_set_get_same(e.drop_first(), k, v);
        assert((seq![e[0]] + ns_set(e.drop_first(), k, v)).drop_first() =~= ns_set(
            e.drop_first(),
            k,
            v,
        ));
    }
}

/// Binding `k` does not disturb any other key.
pub proof fn lemma_ns_set_get_other(
    e: Seq<(Seq<char>, Seq<char>)>,
    k: Seq<char>,
    v: Seq<char>,
    k2: Seq<char>,
)
    requires
        k2 != k,
    ensures
        ns_get(ns_set(e, k, v), k2) == ns_get(e, k2),
    decreases e.len(),
{
    if e.len() == 0 {
        let s = seq![(k, v)];
        assert(s[0] == (k, v));
        assert(s.drop_first() =~= Seq::<(Seq<char>, Seq<char>)>::empty());
        assert(ns_get(s, k2) == ns_get(s.drop_first(), k2));
        assert(ns_get(s.drop_first(), k2) is None);
        assert(ns_get(e, k2) is None);
    } else if e[0].0 == k {
        let s = seq![(k, v)] + e.drop_first();
        assert(s[0] == (k, v));
        assert(s.drop_first() =~= e.drop_first());
        assert(ns_get(s, k2) == ns_get(e.drop_first(), k2));
    } else {
        lemma_ns_set_get_other(e.drop_first(), k, v, k2);
        let s = seq![e[0]] + ns_set(e.drop_first(), k, v);
        assert(s[0] == e[0]);
        assert(s.drop_first() =~= ns_set(e.drop_first(), k, v));
        if e[0].0 == k2 {
            assert(ns_get(s, k2) == Some(e[0].1));
        } else {
            assert(ns_get(s, k2) == ns_get(ns_set(e.drop_first(), k, v), k2));
        }
    }
}

/// Folds raw (key, value) pairs into a namespace in order, normalizing each
/// key as it is bound: a later pair overrides an earlier one whose key
/// normalizes the same.
pub open spec fn ns_set_all(
    e: Seq<(Seq<char>, Seq<char>)>,
    pairs: Seq<(Seq<char>, Seq<char>)>,
) -> Seq<(Seq<char>, Seq<char>)>
    decreases pairs.len(),
{
    if pairs.len() == 0 {
        e
    } else {
        ns_set_all(ns_set(e, normalize_spec(pairs[0].0), pairs[0].1), pairs.drop_first())
    }
}

/// Folding pairs none of which normalizes to `k` leaves `k`'s binding alone.
pub proof fn lemma_ns_set_all_untouched(
    e: Seq<(Seq<char>, Seq<char>)>,
    pairs: Seq<(Seq<char>, Seq<char>)>,
    k: Seq<char>,
)
    requires
        forall|j: int| 0 <= j < pairs.len() ==> normalize_spec((#[trigger] pairs[j]).0) != k,
    ensures
        ns_get(ns_set_all(e, pairs), k) == ns_get(e, k),
    decreases pairs.len(),
{
    if pairs.len() == 0 {
    } else {
        assert(forall|j: int|
            0 <= j < pairs.drop_first().len() ==> #[trigger] pairs.drop_first()[j] == pairs[j + 1]);
        let e1 = ns_set(e, normalize_spec(pairs[0].0), pairs[0].1);
        lemma_ns_set_get_other(e, normalize_spec(pairs[0].0), pairs[0].1, k);
        lemma_ns_set_all_untouched(e1, pairs.drop_first(), k);
    }
}

/// The last pair whose key normalizes to `k` decides what the fold binds
/// `k` to.
pub proof fn lemma_ns_set_all_last(
    e: Seq<(Seq<char>, Seq<char>)>,
    pairs: Seq<(Seq<char>, Seq<char>)>,
    i: int,
)
    requires
        0 <= i < pairs.len(),
        forall|j: int|
            i < j < pairs.len() ==> normalize_spec((#[trigger] pairs[j]).0) != normalize_spec(
                pairs[i].0,
            ),
    ensures
        ns_get(ns_set_all(e, pairs), normalize_spec(pairs[i].0)) == Some(pairs[i].1),
    decreases pairs.len(),
{
    assert(forall|j: int|
        0 <= j < pairs.drop_first().len() ==> #[trigger] pairs.drop_first()[j] == pairs[j + 1]);
    let e1 = ns_set(e, normalize_spec(pairs[0].0), pairs[0].1);
    if i == 0 {
        lemma_ns_set_get_same(e, normalize_spec(pairs[0].0), pairs[0].1);
        lemma_ns_set_all_untouched(e1, pairs.drop_first(), normalize_spec(pairs[0].0));
    } else {
        lemma_ns_set_all_last(e1, pairs.drop_first(), i - 1);
    }
}

/// The merged replacement namespace: normalized placeholder keys bound to
/// substitution values, kept in first-bound order.
pub struct Namespace {
    entries: Vec<(Vec<char>, Vec<char>)>,
}

impl View for Namespace {
    type V = Seq<(Seq<char>, Seq<char>)>;

    closed spec fn view(&self) -> Seq<(Seq<char>, Seq<char>)> {
        self.entries@.map_values(|p: (Vec<char>, Vec<char>)| (p.0@, p.1@))
    }
}

/// The result of replacing, for each namespace entry in order, every
/// occurrence of the entry's token by the entry's value.
pub open spec fn substitute_spec(t: Seq<char>, e: Seq<(Seq<char>, Seq<char>)>) -> Seq<char>
    decreases e.len(),
{
    if e.len() == 0 {
        t
    } else {
        substitute_spec(replace_all_spec(t, token_spec(e[0].0), e[0].1), e.drop_first())
    }
}

/// A text in which no namespace token occurs at all is left exactly as it is
/// by a substitution pass: replacement consumes tokens and a token-free text
/// is a fixed point.
pub proof fn lemma_substitute_token_free(t: Seq<char>, e: Seq<(Seq<char>, Seq<char>)>)
    requires
        forall|j: int| 0 <= j < e.len() ==> !occurs(t, token_spec(#[trigger] e[j].0)),
    ensures
        substitute_spec(t, e) == t,
    decreases e.len(),
{
    if e.len() == 0 {
    } else {
        assert(!occurs(t, token_spec(e[0].0)));
        lemma_replace_all_absent(t, token_spec(e[0].0), e[0].1);
        assert(forall|j: int|
            0 <= j < e.drop_first().len() ==> e.drop_first()[j] == e[j + 1]);
        lemma_substitute_token_free(t, e.drop_first());
    }
}

/// Normalizes a raw key into placeholder form.
pub fn normalize_key(s: &str) -> (r: Vec<char>)
    ensures
        r@ == normalize_spec(s@),
{
    let n = s.unicode_len();
    let mut r: Vec<char> = Vec::new();
    let mut i: usize = 0;
    while i < n
        invariant
            i <= n,
            n == s@.len(),
            r@.len() == i,
            forall|k: int| 0 <= k < i ==> r@[k] == normalize_char_spec(s@[k]),
        decreases n - i,
    {
        let c = s.get_char(i);
        let d: char = if c == '-' {
            '_'
        } else if 'a' <= c && c <= 'z' {
            ((c as u32) - 32) as u8 as char
        } else {
            c
        };
        assert(d == normalize_char_spec(s@[i as int]));
        r.push(d);
        i += 1;
    }
    proof {
        assert(r@ =~= normalize_spec(s@));
    }
    r
}

/// Builds the literal token addressed by a normalized key.
pub fn token_for(key: &Vec<char>) -> (r: Vec<char>)
    ensures
        r@ == token_spec(key@),
{
    let mut r = str_chars("$$REALM_");
    push_all(&mut r, key);
    let tail = str_chars("$$");
    push_all(&mut r, &tail);
    proof {
        assert(r@ =~= token_spec(key@));
    }
    r
}

/// Compares two character vectors for equality.
pub fn chars_eq(a: &Vec<char>, b: &Vec<char>) -> (r: bool)
    ensures
        r == (a@ == b@),
{
    if a.len() != b.len() {
        assert(a@ != b@);
        return false;
    }
    let mut i: usize = 0;
    while i < a.len()
        invariant
            i <= a@.len(),
            a@.len() == b@.len(),
            forall|k: int| 0 <= k < i ==> a@[k] == b@[k],
        decreases a@.len() - i,
    {
        if a[i] != b[i] {
            return false;
        }
        i += 1;
    }
    proof {
        assert(a@ =~= b@);
    }
    true
}

impl Namespace {
    /// The empty namespace.
    pub fn new() -> (r: Namespace)
        ensures
            r@ == Seq::<(Seq<char>, Seq<char>)>::empty(),
    {
        let r = Namespace { entries: Vec::new() };
        proof {
            assert(r@ =~= Seq::<(Seq<char>, Seq<char>)>::empty());
        }
        r
    }

    /// Binds a raw key, normalized, to a value: an existing binding of the
    /// same normalized key is overridden in place, a new key is appended.
    pub fn set(&mut self, key: &str, value: &str)
        ensures
            final(self)@ == ns_set(old(self)@, normalize_spec(key@), value@),
    {
        let k = normalize_key(key);
        let v = str_chars(value);
        let mut i: usize = 0;
        while i < self.entries.len()
            invariant
                i <= self.entries@.len(),
                k@ == normalize_spec(key@),
                v@ == value@,
                self == old(self),
                forall|j: int| 0 <= j < i ==> #[trigger] self@[j].0 != k@,
            decreases self.entries@.len() - i,
        {
            let hit = chars_eq(&self.entries[i].0, &k);
            if hit {
                self.entries.set(i, (k, v));
                proof {
                    lemma_ns_set_at(old(self)@, k@, v@, i as int);
                    assert(self@ =~= old(self)@.update(i as int, (k@, v@)));
                }
                return;
            }
            i += 1;
        }
        self.entries.push((k, v));
        proof {
            lemma_ns_set_absent(old(self)@, k@, v@);
            assert(self@ =~= old(self)@.push((k@, v@)));
        }
    }

    /// The value bound to a normalized key, if any.
    pub fn get(&self, key: &str) -> (r: Option<Vec<char>>)
        ensures
            match r {
                Some(v) => ns_get(self@, normalize_spec(key@)) == Some(v@),
                None => ns_get(self@, normalize_spec(key@)) is None,
            },
    {
        let k = normalize_key(key);
        let mut i: usize = 0;
        while i < self.entries.len()
            invariant
                i <= self.entries@.len(),
                k@ == normalize_spec(key@),
                forall|j: int| 0 <= j < i ==> #[trigger] self@[j].0 != k@,
        decreases self.entries@.len() - i,
        {
            let hit = chars_eq(&self.entries[i].0, &k);
            if hit {
                proof {
                    lemma_ns_get_at(self@, k@, i as int);
                }
                return Some(self.entries[i].1.clone());
            }
            i += 1;
        }
        proof {
            lemma_ns_get_none(self@, k@);
        }
        None
    }
}

/// When the first `i` entries miss the key and entry `i` carries it, binding
/// updates exactly entry `i`.
pub proof fn lemma_ns_set_at(e: Seq<(Seq<char>, Seq<char>)>, k: Seq<char>, v: Seq<char>, i: int)
    requires
        0 <= i < e.len(),
        forall|j: int| 0 <= j < i ==> #[trigger] e[j].0 != k,
        e[i].0 == k,
    ensures
        ns_set(e, k, v) == e.update(i, (k, v)),
    decreases e.len(),
{
    if i == 0 {
        assert(ns_set(e, k, v) =~= e.update(0, (k, v)));
    } else {
        assert(forall|j: int|
            0 <= j < i - 1 ==> #[trigger] e.drop_first()[j].0 == e[j + 1].0);
        lemma_ns_set_at(e.drop_first(), k, v, i - 1);
        assert(seq![e[0]] + e.drop_first().update(i - 1, (k, v)) =~= e.update(i, (k, v)));
    }
}

/// When no entry carries the key, binding appends a fresh entry.
pub proof fn lemma_ns_set_absent(e: Seq<(Seq<char>, Seq<char>)>, k: Seq<char>, v: Seq<char>)
    requires
        forall|j: int| 0 <= j < e.len() ==> #[trigger] e[j].0 != k,
    ensures
        ns_set(e, k, v) == e.push((k, v)),
    decreases e.len(),
{
    if e.len() == 0 {
        assert(ns_set(e, k, v) =~= e.push((k, v)));
    } else {
        assert(forall|j: int|
            0 <= j < e.drop_first().len() ==> #[trigger] e.drop_first()[j].0 == e[j + 1].0);
        lemma_ns_set_absent(e.drop_first(), k, v);
        assert(seq![e[0]] + e.drop_first().push((k, v)) =~= e.push((k, v)));
    }
}

/// When the first `i` entries miss the key and entry `i` carries it, lookup
/// returns entry `i`'s value.
pub proof fn lemma_ns_get_at(e: Seq<(Seq<char>, Seq<char>)>, k: Seq<char>, i: int)
    requires
        0 <= i < e.len(),
        forall|j: int| 0 <= j < i ==> #[trigger] e[j].0 != k,
        e[i].0 == k,
    ensures
        ns_get(e, k) == Some(e[i].1),
    decreases e.len(),
{
    if i == 0 {
    } else {
        assert(forall|j: int|
            0 <= j < i - 1 ==> #[trigger] e.drop_first()[j].0 == e[j + 1].0);
        lemma_ns_get_at(e.drop_first(), k, i - 1);
    }
}

/// When no entry carries the key, lookup misses.
pub proof fn lemma_ns_get_none(e: Seq<(Seq<char>, Seq<char>)>, k: Seq<char>)
    requires
        forall|j: int| 0 <= j < e.len() ==> #[trigger] e[j].0 != k,
    ensures
        ns_get(e, k) is None,
    decreases e.len(),
{
    if e.len() == 0 {
    } else {
        assert(forall|j: int|
            0 <= j < e.drop_first().len() ==> #[trigger] e.drop_first()[j].0 == e[j + 1].0);
        lemma_ns_get_none(e.drop_first(), k);
    }
}

/// Rewrites a text by one substitution pass over the whole namespace.
pub fn substitute(text: &Vec<char>, ns: &Namespace) -> (r: Vec<char>)
    ensures
        r@ == substitute_spec(text@, ns@),
{
    let mut cur: Vec<char> = Vec::new();
    push_all(&mut cur, text);
    let mut i: usize = 0;
    proof {
        assert(ns@.skip(0) =~= ns@);
    }
    while i < ns.entries.len()
        invariant
            i <= ns.entries@.len(),
            substitute_spec(text@, ns@) == substitute_spec(cur@, ns@.skip(i as int)),
        decreases ns.entries@.len() - i,
    {
        let tok = token_for(&ns.entries[i].0);
        let next = replace_all(&cur, &tok, &ns.entries[i].1);
        proof {
            let rest = ns@.skip(i as int);
            assert(rest[0] == ns@[i as int]);
            assert(rest.drop_first() =~= ns@.skip(i + 1));
            assert(substitute_spec(cur@, rest) == substitute_spec(
                replace_all_spec(cur@, token_spec(rest[0].0), rest[0].1),
                rest.drop_first(),
            ));
        }
        cur = next;
        i += 1;
    }
    proof {
        assert(ns@.skip(ns@.len() as int) =~= Seq::<(Seq<char>, Seq<char>)>::empty());
    }
    cur
}

} // verus!
