use vstd::prelude::*;

use vstd::string::{StringExecFns, StrSliceExecFns};

use crate::namespace::{lemma_ns_get_at, lemma_ns_get_none, ns_get};
use crate::text::{starts_with_spec, str_starts_with};

verus! {

/// The files lying under a directory prefix, as (path remainder, content)
/// pairs, in recorded order.
pub open spec fn files_under_spec(
    files: Seq<(Seq<char>, Seq<char>)>,
    prefix: Seq<char>,
) -> Seq<(Seq<char>, Seq<char>)>
    decreases files.len(),
{
    if files.len() == 0 {
        Seq::<(Seq<char>, Seq<char>)>::empty()
    } else {
        let rest = files_under_spec(files.drop_first(), prefix);
        if starts_with_spec(files[0].0, prefix) {
            seq![(files[0].0.skip(prefix.len() as int), files[0].1)] + rest
        } else {
            rest
        }
    }
}

/// A snapshot of the part of the filesystem a build decision reads: which
/// paths are plain files (with their text), and which are directories.
/// Callers take the snapshot, the library decides from it; a decision is
/// valid for the state that was snapshotted.
pub struct FsView {
    files: Vec<(String, Vec<char>)>,
    dirs: Vec<String>,
}

impl FsView {
    /// The recorded files as (path, content) pairs, in recorded order.
    pub closed spec fn files_view(&self) -> Seq<(Seq<char>, Seq<char>)> {
        self.files@.map_values(|p: (String, Vec<char>)| (p.0@, p.1@))
    }

    /// The recorded directory paths.
    pub closed spec fn dirs_view(&self) -> Seq<Seq<char>> {
        self.dirs@.map_values(|d: String| d@)
    }

    /// A file exists at `p` in the snapshot.
    pub open spec fn has_file(&self, p: Seq<char>) -> bool {
        exists|i: int| 0 <= i < self.files_view().len() && (#[trigger] self.files_view()[i]).0 == p
    }

    /// A directory exists at `p` in the snapshot.
    pub open spec fn has_dir(&self, p: Seq<char>) -> bool {
        exists|i: int| 0 <= i < self.dirs_view().len() && #[trigger] self.dirs_view()[i] == p
    }

    /// The content of the first recorded file at `p`.
    pub open spec fn file_content(&self, p: Seq<char>) -> Option<Seq<char>> {
        ns_get(self.files_view(), p)
    }

    /// An empty snapshot.
    pub fn new() -> (r: FsView)
        ensures
            r.files_view() == Seq::<(Seq<char>, Seq<char>)>::empty(),
            r.dirs_view() == Seq::<Seq<char>>::empty(),
    {
        let r = FsView { files: Vec::new(), dirs: Vec::new() };
        proof {
            assert(r.files_view() =~= Seq::<(Seq<char>, Seq<char>)>::empty());
            assert(r.dirs_view() =~= Seq::<Seq<char>>::empty());
        }
        r
    }

    /// Records a file and its text.
    pub fn add_file(&mut self, path: String, content: Vec<char>)
        ensures
            final(self).files_view() == old(self).files_view().push((path@, content@)),
            final(self).dirs_view() == old(self).dirs_view(),
    {
        let ghost p = path@;
        let ghost c = content@;
        self.files.push((path, content));
        proof {
            assert(final(self).files_view() =~= old(self).files_view().push((p, c)));
            assert(final(self).dirs_view() =~= old(self).dirs_view());
        }
    }

    /// Records a directory.
    pub fn add_dir(&mut self, path: String)
        ensures
            final(self).dirs_view() == old(self).dirs_view().push(path@),
            final(self).files_view() == old(self).files_view(),
    {
        let ghost p = path@;
        self.dirs.push(path);
        proof {
            assert(final(self).dirs_view() =~= old(self).dirs_view().push(p));
            assert(final(self).files_view() =~= old(self).files_view());
        }
    }

    /// Does the snapshot hold a file at `p`?
    pub fn contains_file(&self, p: &String) -> (r: bool)
        ensures
            r == self.has_file(p@),
    {
        let mut i: usize = 0;
        while i < self.files.len()
            invariant
                i <= self.files@.len(),
                forall|j: int| 0 <= j < i ==> (#[trigger] self.files_view()[j]).0 != p@,
            decreases self.files@.len() - i,
        {
            if self.files[i].0.eq(p) {
                assert(self.files_view()[i as int].0 == p@);
                return true;
            }
            i += 1;
        }
        false
    }

    /// Does the snapshot hold a directory at `p`?
    pub fn contains_dir(&self, p: &String) -> (r: bool)
        ensures
            r == self.has_dir(p@),
    {
        let mut i: usize = 0;
        while i < self.dirs.len()
            invariant
                i <= self.dirs@.len(),
                forall|j: int| 0 <= j < i ==> #[trigger] self.dirs_view()[j] != p@,
            decreases self.dirs@.len() - i,
        {
            if self.dirs[i].eq(p) {
                assert(self.dirs_view()[i as int] == p@);
                return true;
            }
            i += 1;
        }
        false
    }

    /// The text of the file at `p`, if the snapshot holds one.
    pub fn read_file(&self, p: &String) -> (r: Option<Vec<char>>)
        ensures
            match r {
                Some(c) => self.file_content(p@) == Some(c@),
                None => self.file_content(p@) is None,
            },
    {
        let mut i: usize = 0;
        while i < self.files.len()
            invariant
                i <= self.files@.len(),
                forall|j: int| 0 <= j < i ==> (#[trigger] self.files_view()[j]).0 != p@,
            decreases self.files@.len() - i,
        {
            if self.files[i].0.eq(p) {
                proof {
                    lemma_ns_get_at(self.files_view(), p@, i as int);
                }
                return Some(self.files[i].1.clone());
            }
            i += 1;
        }
        proof {
            lemma_ns_get_none(self.files_view(), p@);
        }
        None
    }

    /// Collects the files lying under a directory prefix, each keyed by its
    /// path with the prefix stripped.
    pub fn files_under(&self, prefix: &String) -> (r: Vec<(String, Vec<char>)>)
        ensures
            r@.map_values(|p: (String, Vec<char>)| (p.0@, p.1@)) == files_under_spec(
                self.files_view(),
                prefix@,
            ),
    {
        let m = prefix.as_str().unicode_len();
        let mut out: Vec<(String, Vec<char>)> = Vec::new();
        let mut i: usize = 0;
        proof {
            assert(self.files_view().skip(0) =~= self.files_view());
            assert(out@.map_values(|p: (String, Vec<char>)| (p.0@, p.1@)) =~= Seq::<
                (Seq<char>, Seq<char>),
            >::empty());
        }
        while i < self.files.len()
            invariant
                i <= self.files@.len(),
                m == prefix@.len(),
                files_under_spec(self.files_view(), prefix@) == out@.map_values(
                    |p: (String, Vec<char>)| (p.0@, p.1@),
                ) + files_under_spec(self.files_view().skip(i as int), prefix@),
            decreases self.files@.len() - i,
        {
            proof {
                assert(self.files_view().skip(i as int)[0] == self.files_view()[i as int]);
                assert(self.files_view().skip(i as int).drop_first() =~= self.files_view().skip(
                    i + 1,
                ));
            }
            let ghost f = |p: (String, Vec<char>)| (p.0@, p.1@);
            let ghost acc0 = out@.map_values(f);
            let ghost pair = (self.files_view()[i as int].0.skip(m as int), self.files_view()[
                i as int].1);
            let path = &self.files[i].0;
            if str_starts_with(path.as_str(), prefix.as_str()) {
                let n = path.as_str().unicode_len();
                let rest = path.as_str().substring_char(m, n);
                proof {
                    assert(path@.subrange(m as int, n as int) =~= path@.skip(m as int));
                }
                out.push((String::from_str(rest), self.files[i].1.clone()));
                proof {
                    assert(out@.map_values(f) =~= acc0.push(pair));
                    assert(files_under_spec(self.files_view().skip(i as int), prefix@)
                        == seq![pair] + files_under_spec(
                        self.files_view().skip(i + 1),
                        prefix@,
                    ));
                    assert(acc0 + (seq![pair] + files_under_spec(
                        self.files_view().skip(i + 1),
                        prefix@,
                    )) =~= acc0.push(pair) + files_under_spec(
                        self.files_view().skip(i + 1),
                        prefix@,
                    ));
                }
            }
            i += 1;
        }
        proof {
            assert(self.files_view().skip(self.files_view().len() as int) =~= Seq::<
                (Seq<char>, Seq<char>),
            >::empty());
            assert(out@.map_values(|p: (String, Vec<char>)| (p.0@, p.1@)) + Seq::<
                (Seq<char>, Seq<char>),
            >::empty() =~= out@.map_values(|p: (String, Vec<char>)| (p.0@, p.1@)));
        }
        out
    }
}

/// A file present in the snapshot has a content: existence and lookup agree.
pub proof fn lemma_has_file_content(fs: FsView, p: Seq<char>)
    ensures
        fs.has_file(p) <==> fs.file_content(p) is Some,
{
    lemma_has_key_get(fs.files_view(), p);
}

proof fn lemma_has_key_get(e: Seq<(Seq<char>, Seq<char>)>, k: Seq<char>)
    ensures
        (exists|i: int| 0 <= i < e.len() && (#[trigger] e[i]).0 == k) <==> ns_get(e, k) is Some,
    decreases e.len(),
{
    if e.len() == 0 {
    } else if e[0].0 == k {
    } else {
        lemma_has_key_get(e.drop_first(), k);
        assert(forall|j: int| 0 <= j < e.drop_first().len() ==> #[trigger] e.drop_first()[j] == e[j + 1]);
        if exists|i: int| 0 <= i < e.len() && (#[trigger] e[i]).0 == k {
            let i = choose|i: int| 0 <= i < e.len() && (#[trigger] e[i]).0 == k;
            assert(e.drop_first()[i - 1].0 == k);
        }
        if ns_get(e, k) is Some {
            let i = choose|i: int|
                0 <= i < e.drop_first().len() && (#[trigger] e.drop_first()[i]).0 == k;
            assert(e[i + 1].0 == k);
        }
    }
}

} // verus!
