use vstd::prelude::*;

use crate::namespace::{lemma_ns_set_absent, lemma_ns_set_at, lemma_ns_set_get_other,
    lemma_ns_set_get_same, lemma_ns_get_at, lemma_ns_get_none, ns_get, ns_set, substitute,
    substitute_spec, Namespace};
use crate::text::{is_text_path, is_text_path_spec};

verus! {

/// An in-memory file tree: relative paths bound to file texts, in bound
/// order. This is the shape every composition step of the build works on.
#[derive(Debug, PartialEq, Eq)]
pub struct FileTree {
    pub entries: Vec<(String, Vec<char>)>,
}

/// The (path, content) pairs of an entry list, as sequences.
pub open spec fn pairs_view(v: Seq<(String, Vec<char>)>) -> Seq<(Seq<char>, Seq<char>)> {
    v.map_values(|p: (String, Vec<char>)| (p.0@, p.1@))
}

impl View for FileTree {
    type V = Seq<(Seq<char>, Seq<char>)>;

    open spec fn view(&self) -> Seq<(Seq<char>, Seq<char>)> {
        pairs_view(self.entries@)
    }
}

/// Merge-copies `layer` onto `base` entry by entry: an existing path is
/// overwritten in place, a new path is appended. Later layers win.
pub open spec fn overlay_spec(
    base: Seq<(Seq<char>, Seq<char>)>,
    layer: Seq<(Seq<char>, Seq<char>)>,
) -> Seq<(Seq<char>, Seq<char>)>
    decreases layer.len(),
{
    if layer.len() == 0 {
        base
    } else {
        overlay_spec(ns_set(base, layer[0].0, layer[0].1), layer.drop_first())
    }
}

/// Removes every entry at `k`.
pub open spec fn ns_remove(e: Seq<(Seq<char>, Seq<char>)>, k: Seq<char>) -> Seq<
    (Seq<char>, Seq<char>),
>
    decreases e.len(),
{
    if e.len() == 0 {
        Seq::<(Seq<char>, Seq<char>)>::empty()
    } else if e[0].0 == k {
        ns_remove(e.drop_first(), k)
    } else {
        seq![e[0]] + ns_remove(e.drop_first(), k)
    }
}

/// Every text-extension entry rewritten by one substitution pass with the
/// given namespace; other entries kept as they are.
pub open spec fn subst_tree_spec(
    t: Seq<(Seq<char>, Seq<char>)>,
    ns: Seq<(Seq<char>, Seq<char>)>,
) -> Seq<(Seq<char>, Seq<char>)> {
    t.map_values(
        |e: (Seq<char>, Seq<char>)|
            (
                e.0,
                if is_text_path_spec(e.0) {
                    substitute_spec(e.1, ns)
                } else {
                    e.1
                },
            ),
    )
}

/// Overlaying entries none of which carries `p` leaves `p`'s binding alone.
pub proof fn lemma_overlay_untouched(
    base: Seq<(Seq<char>, Seq<char>)>,
    layer: Seq<(Seq<char>, Seq<char>)>,
    p: Seq<char>,
)
    requires
        forall|j: int| 0 <= j < layer.len() ==> (#[trigger] layer[j]).0 != p,
    ensures
        ns_get(overlay_spec(base, layer), p) == ns_get(base, p),
    decreases layer.len(),
{
    if layer.len() == 0 {
    } else {
        assert(forall|j: int|
            0 <= j < layer.drop_first().len() ==> #[trigger] layer.drop_first()[j] == layer[j + 1]);
        lemma_ns_set_get_other(base, layer[0].0, layer[0].1, p);
        lemma_overlay_untouched(ns_set(base, layer[0].0, layer[0].1), layer.drop_first(), p);
    }
}

/// The last layer entry at `p` decides what the overlaid tree holds at `p`,
/// whatever the base held there.
pub proof fn lemma_overlay_last(
    base: Seq<(Seq<char>, Seq<char>)>,
    layer: Seq<(Seq<char>, Seq<char>)>,
    p: Seq<char>,
    i: int,
)
    requires
        0 <= i < layer.len(),
        layer[i].0 == p,
        forall|j: int| i < j < layer.len() ==> (#[trigger] layer[j]).0 != p,
    ensures
        ns_get(overlay_spec(base, layer), p) == Some(layer[i].1),
    decreases layer.len(),
{
    assert(forall|j: int|
        0 <= j < layer.drop_first().len() ==> #[trigger] layer.drop_first()[j] == layer[j + 1]);
    let b1 = ns_set(base, layer[0].0, layer[0].1);
    if i == 0 {
        lemma_ns_set_get_same(base, layer[0].0, layer[0].1);
        lemma_overlay_untouched(b1, layer.drop_first(), p);
    } else {
        lemma_overlay_last(b1, layer.drop_first(), p, i - 1);
    }
}

/// A substitution pass maps each path's content and touches nothing else:
/// looking a path up afterwards yields the rewritten text of what was there
/// before, and misses exactly where it missed before.
pub proof fn lemma_subst_tree_get(
    t: Seq<(Seq<char>, Seq<char>)>,
    ns: Seq<(Seq<char>, Seq<char>)>,
    p: Seq<char>,
)
    ensures
        ns_get(subst_tree_spec(t, ns), p) == match ns_get(t, p) {
            Some(c) => Some(
                if is_text_path_spec(p) {
                    substitute_spec(c, ns)
                } else {
                    c
                },
            ),
            None => None::<Seq<char>>,
        },
    decreases t.len(),
{
    if t.len() == 0 {
    } else {
        assert(subst_tree_spec(t, ns)[0].0 == t[0].0);
        if t[0].0 == p {
        } else {
            lemma_subst_tree_get(t.drop_first(), ns, p);
            assert(subst_tree_spec(t, ns).drop_first() =~= subst_tree_spec(t.drop_first(), ns));
        }
    }
}

impl FileTree {
    /// The empty tree.
    pub fn new() -> (r: FileTree)
        ensures
            r@ == Seq::<(Seq<char>, Seq<char>)>::empty(),
    {
        let r = FileTree { entries: Vec::new() };
        proof {
            assert(r@ =~= Seq::<(Seq<char>, Seq<char>)>::empty());
        }
        r
    }

    /// Writes one file: an existing path is overwritten in place, a new
    /// path is appended.
    pub fn put(&mut self, path: String, content: Vec<char>)
        ensures
            final(self)@ == ns_set(old(self)@, path@, content@),
    {
        let ghost p = path@;
        let ghost c = content@;
        let mut i: usize = 0;
        while i < self.entries.len()
            invariant
                i <= self.entries@.len(),
                self == old(self),
                p == path@,
                c == content@,
                forall|j: int| 0 <= j < i ==> (#[trigger] self@[j]).0 != p,
            decreases self.entries@.len() - i,
        {
            let hit = self.entries[i].0.eq(&path);
            if hit {
                self.entries.set(i, (path, content));
                proof {
                    lemma_ns_set_at(old(self)@, p, c, i as int);
                    assert(self@ =~= old(self)@.update(i as int, (p, c)));
                }
                return;
            }
            i += 1;
        }
        self.entries.push((path, content));
        proof {
            lemma_ns_set_absent(old(self)@, p, c);
            assert(self@ =~= old(self)@.push((p, c)));
        }
    }

    /// The text at `path`, if the tree holds a file there.
    pub fn get(&self, path: &String) -> (r: Option<Vec<char>>)
        ensures
            match r {
                Some(c) => ns_get(self@, path@) == Some(c@),
                None => ns_get(self@, path@) is None,
            },
    {
        let mut i: usize = 0;
        while i < self.entries.len()
            invariant
                i <= self.entries@.len(),
                forall|j: int| 0 <= j < i ==> (#[trigger] self@[j]).0 != path@,
            decreases self.entries@.len() - i,
        {
            let hit = self.entries[i].0.eq(path);
            if hit {
                proof {
                    lemma_ns_get_at(self@, path@, i as int);
                }
                return Some(self.entries[i].1.clone());
            }
            i += 1;
        }
        proof {
            lemma_ns_get_none(self@, path@);
        }
        None
    }

    /// Deletes every file at `path`.
    pub fn remove(&mut self, path: &String)
        ensures
            final(self)@ == ns_remove(old(self)@, path@),
    {
        let mut kept: Vec<(String, Vec<char>)> = Vec::new();
        let mut i: usize = 0;
        proof {
            assert(old(self)@.skip(0) =~= old(self)@);
            assert(pairs_view(kept@) =~= Seq::<(Seq<char>, Seq<char>)>::empty());
        }
        while i < self.entries.len()
            invariant
                i <= self.entries@.len(),
                self == old(self),
                ns_remove(old(self)@, path@) == pairs_view(kept@) + ns_remove(
                    old(self)@.skip(i as int),
                    path@,
                ),
            decreases self.entries@.len() - i,
        {
            let ghost acc0 = pairs_view(kept@);
            let ghost pair = self@[i as int];
            proof {
                assert(self@.skip(i as int)[0] == self@[i as int]);
                assert(self@.skip(i as int).drop_first() =~= self@.skip(i + 1));
            }
            let hit = self.entries[i].0.eq(path);
            if !hit {
                kept.push((self.entries[i].0.clone(), self.entries[i].1.clone()));
                proof {
                    assert(pairs_view(kept@) =~= acc0.push(pair));
                    assert(acc0 + (seq![pair] + ns_remove(old(self)@.skip(i + 1), path@))
                        =~= acc0.push(pair) + ns_remove(old(self)@.skip(i + 1), path@));
                }
            }
            i += 1;
        }
        proof {
            assert(old(self)@.skip(old(self)@.len() as int) =~= Seq::<
                (Seq<char>, Seq<char>),
            >::empty());
            assert(pairs_view(kept@) + Seq::<(Seq<char>, Seq<char>)>::empty() =~= pairs_view(
                kept@,
            ));
        }
        self.entries = kept;
    }

    /// Merge-copies another tree onto this one, overwriting on path
    /// collision.
    pub fn overlay(&mut self, layer: &FileTree)
        ensures
            final(self)@ == overlay_spec(old(self)@, layer@),
    {
        let mut i: usize = 0;
        proof {
            assert(layer@.skip(0) =~= layer@);
        }
        while i < layer.entries.len()
            invariant
                i <= layer.entries@.len(),
                overlay_spec(old(self)@, layer@) == overlay_spec(self@, layer@.skip(i as int)),
            decreases layer.entries@.len() - i,
        {
            proof {
                assert(layer@.skip(i as int)[0] == layer@[i as int]);
                assert(layer@.skip(i as int).drop_first() =~= layer@.skip(i + 1));
            }
            self.put(layer.entries[i].0.clone(), layer.entries[i].1.clone());
            i += 1;
        }
        proof {
            assert(layer@.skip(layer@.len() as int) =~= Seq::<(Seq<char>, Seq<char>)>::empty());
        }
    }

    /// Rewrites every text-extension file in place by one substitution pass
    /// with the given namespace; every other file is left untouched.
    pub fn substitute_pass(&mut self, ns: &Namespace)
        ensures
            final(self)@ == subst_tree_spec(old(self)@, ns@),
    {
        let mut i: usize = 0;
        while i < self.entries.len()
            invariant
                i <= self.entries@.len(),
                self@.len() == old(self)@.len(),
                self.entries@.len() == old(self).entries@.len(),
                forall|j: int| i <= j < self@.len() ==> self@[j] == old(self)@[j],
                forall|j: int|
                    0 <= j < i ==> self@[j] == (#[trigger] subst_tree_spec(old(self)@, ns@)[j]),
            decreases self.entries@.len() - i,
        {
            let is_text = is_text_path(self.entries[i].0.as_str());
            if is_text {
                let rewritten = substitute(&self.entries[i].1, ns);
                let path = self.entries[i].0.clone();
                self.entries.set(i, (path, rewritten));
            }
            i += 1;
        }
        proof {
            assert(self@ =~= subst_tree_spec(old(self)@, ns@));
        }
    }
}

} // verus!
