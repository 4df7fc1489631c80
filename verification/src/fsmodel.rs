//! A model file system: a finite map from paths to file contents.
//!
//! The staging transaction is specified by what its actions do to such a
//! map; running an action list here shows, and tests, exactly the effect
//! the real file system would see.

use vstd::prelude::*;

use crate::staging::{action_src, acts_view, ActionV, FsAction};

verus! {

/// A failed file-system action: nothing was found at `path`.
#[derive(Clone, Debug)]
pub struct FsError {
    pub path: String,
}

/// What one action does to the map; `None` when its source is missing.
pub open spec fn apply_one(m: Map<Seq<char>, Seq<char>>, a: ActionV) -> Option<
    Map<Seq<char>, Seq<char>>,
> {
    match a {
        ActionV::CopyFile { src, dst } => if m.dom().contains(src) {
            Some(m.insert(dst, m[src]))
        } else {
            None
        },
        ActionV::RenameFile { src, dst } => if m.dom().contains(src) {
            Some(m.remove(src).insert(dst, m[src]))
        } else {
            None
        },
        ActionV::RemoveFile { path } => if m.dom().contains(path) {
            Some(m.remove(path))
        } else {
            None
        },
    }
}

/// The map after the whole list, or `None` when some action fails.
pub open spec fn apply_seq(m: Map<Seq<char>, Seq<char>>, acts: Seq<ActionV>) -> Option<
    Map<Seq<char>, Seq<char>>,
>
    decreases acts.len(),
{
    if acts.len() == 0 {
        Some(m)
    } else {
        match apply_one(m, acts.first()) {
            Some(m2) => apply_seq(m2, acts.drop_first()),
            None => None,
        }
    }
}

/// The map a fail-fast run leaves behind: every action up to the first
/// failing one has taken effect.
pub open spec fn apply_prefix(m: Map<Seq<char>, Seq<char>>, acts: Seq<ActionV>) -> Map<
    Seq<char>,
    Seq<char>,
>
    decreases acts.len(),
{
    if acts.len() == 0 {
        m
    } else {
        match apply_one(m, acts.first()) {
            Some(m2) => apply_prefix(m2, acts.drop_first()),
            None => m,
        }
    }
}

/// The first failing action of a fail-fast run, if any.
pub open spec fn first_failure(m: Map<Seq<char>, Seq<char>>, acts: Seq<ActionV>) -> Option<ActionV>
    decreases acts.len(),
{
    if acts.len() == 0 {
        None
    } else {
        match apply_one(m, acts.first()) {
            Some(m2) => first_failure(m2, acts.drop_first()),
            None => Some(acts.first()),
        }
    }
}

/// Applying a concatenation applies the parts in turn.
pub proof fn lemma_apply_seq_concat(m: Map<Seq<char>, Seq<char>>, a: Seq<ActionV>, b: Seq<ActionV>)
    ensures
        apply_seq(m, a + b) == (match apply_seq(m, a) {
            Some(m2) => apply_seq(m2, b),
            None => None,
        }),
    decreases a.len(),
{
    if a.len() == 0 {
        assert(a + b =~= b);
    } else {
        assert((a + b).first() == a.first());
        assert((a + b).drop_first() =~= a.drop_first() + b);
        match apply_one(m, a.first()) {
            Some(m2) => {
                lemma_apply_seq_concat(m2, a.drop_first(), b);
            },
            None => {},
        }
    }
}

/// A single action applies as `apply_one` says.
pub proof fn lemma_apply_seq_singleton(m: Map<Seq<char>, Seq<char>>, a: ActionV)
    ensures
        apply_seq(m, seq![a]) == apply_one(m, a),
{
    let s = seq![a];
    assert(s.first() == a);
    assert(s.drop_first() =~= Seq::<ActionV>::empty());
    match apply_one(m, a) {
        Some(m2) => {
            assert(apply_seq(m2, Seq::<ActionV>::empty()) == Some(m2));
            assert(apply_seq(m2, s.drop_first()) == Some(m2));
        },
        None => {},
    }
}

/// A fail-fast run of a concatenation stops within the first part, or
/// finishes it and goes on.
pub proof fn lemma_apply_prefix_concat(
    m: Map<Seq<char>, Seq<char>>,
    a: Seq<ActionV>,
    b: Seq<ActionV>,
)
    ensures
        apply_prefix(m, a + b) == (match apply_seq(m, a) {
            Some(m2) => apply_prefix(m2, b),
            None => apply_prefix(m, a),
        }),
    decreases a.len(),
{
    if a.len() == 0 {
        assert(a + b =~= b);
    } else {
        assert((a + b).first() == a.first());
        assert((a + b).drop_first() =~= a.drop_first() + b);
        match apply_one(m, a.first()) {
            Some(m2) => {
                lemma_apply_prefix_concat(m2, a.drop_first(), b);
            },
            None => {},
        }
    }
}

/// The first failure of a concatenation lies in the first part that has
/// one.
pub proof fn lemma_first_failure_concat(
    m: Map<Seq<char>, Seq<char>>,
    a: Seq<ActionV>,
    b: Seq<ActionV>,
)
    ensures
        first_failure(m, a + b) == (match apply_seq(m, a) {
            Some(m2) => first_failure(m2, b),
            None => first_failure(m, a),
        }),
    decreases a.len(),
{
    if a.len() == 0 {
        assert(a + b =~= b);
    } else {
        assert((a + b).first() == a.first());
        assert((a + b).drop_first() =~= a.drop_first() + b);
        match apply_one(m, a.first()) {
            Some(m2) => {
                lemma_first_failure_concat(m2, a.drop_first(), b);
            },
            None => {},
        }
    }
}

spec fn map_of(s: Seq<(String, String)>) -> Map<Seq<char>, Seq<char>>
    decreases s.len(),
{
    if s.len() == 0 {
        Map::empty()
    } else {
        map_of(s.drop_last()).insert(s.last().0@, s.last().1@)
    }
}

/// The model file system.
pub struct ModelFs {
    files: Vec<(String, String)>,
}

impl View for ModelFs {
    type V = Map<Seq<char>, Seq<char>>;

    closed spec fn view(&self) -> Map<Seq<char>, Seq<char>> {
        map_of(self.files@)
    }
}

proof fn lemma_map_of_dom(s: Seq<(String, String)>, k: Seq<char>)
    ensures
        map_of(s).dom().contains(k) <==> exists|i: int| 0 <= i < s.len() && s[i].0@ == k,
    decreases s.len(),
{
    if s.len() == 0 {
    } else {
        lemma_map_of_dom(s.drop_last(), k);
        if map_of(s).dom().contains(k) {
            if s.last().0@ == k {
                assert(s[s.len() - 1].0@ == k);
            } else {
                let i = choose|i: int| 0 <= i < s.len() - 1 && s.drop_last()[i].0@ == k;
                assert(s[i].0@ == k);
            }
        }
        if exists|i: int| 0 <= i < s.len() && s[i].0@ == k {
            let i = choose|i: int| 0 <= i < s.len() && s[i].0@ == k;
            if i < s.len() - 1 {
                assert(s.drop_last()[i].0@ == k);
            }
        }
    }
}

proof fn lemma_map_of_get(s: Seq<(String, String)>, i: int)
    requires
        0 <= i < s.len(),
        forall|j: int| i < j < s.len() ==> s[j].0@ != s[i].0@,
    ensures
        map_of(s).dom().contains(s[i].0@),
        map_of(s)[s[i].0@] == s[i].1@,
    decreases s.len(),
{
    if i == s.len() - 1 {
    } else {
        assert(s.drop_last()[i] == s[i]);
        lemma_map_of_get(s.drop_last(), i);
        assert(s.last().0@ != s[i].0@);
    }
}

proof fn lemma_map_of_remove(s: Seq<(String, String)>, i: int)
    requires
        0 <= i < s.len(),
        forall|a: int, b: int| 0 <= a < b < s.len() ==> s[a].0@ != s[b].0@,
    ensures
        map_of(s.remove(i)) =~= map_of(s).remove(s[i].0@),
    decreases s.len(),
{
    if i == s.len() - 1 {
        assert(s.remove(i) =~= s.drop_last());
        lemma_map_of_dom(s.drop_last(), s[i].0@);
        assert forall|j: int| 0 <= j < s.len() - 1 implies s.drop_last()[j].0@ != s[i].0@ by {
            assert(s.drop_last()[j] == s[j]);
        }
        assert(!map_of(s.drop_last()).dom().contains(s[i].0@));
        assert(map_of(s.drop_last()) =~= map_of(s).remove(s[i].0@));
    } else {
        assert(s.remove(i).drop_last() =~= s.drop_last().remove(i));
        assert(s.remove(i).last() == s.last());
        assert forall|a: int, b: int|
            0 <= a < b < s.len() - 1 implies s.drop_last()[a].0@ != s.drop_last()[b].0@ by {
            assert(s.drop_last()[a] == s[a] && s.drop_last()[b] == s[b]);
        }
        assert(s.drop_last()[i] == s[i]);
        lemma_map_of_remove(s.drop_last(), i);
        assert(s.last().0@ != s[i].0@);
        assert(map_of(s.remove(i)) =~= map_of(s.drop_last()).remove(s[i].0@).insert(
            s.last().0@,
            s.last().1@,
        ));
        assert(map_of(s).remove(s[i].0@) =~= map_of(s.drop_last()).insert(
            s.last().0@,
            s.last().1@,
        ).remove(s[i].0@));
    }
}

impl ModelFs {
    /// Keys are unique, so lookups are unambiguous.
    pub closed spec fn wf(&self) -> bool {
        forall|a: int, b: int|
            0 <= a < b < self.files@.len() ==> self.files@[a].0@ != self.files@[b].0@
    }

    /// An empty file system.
    pub fn new() -> (r: Self)
        ensures
            r.wf(),
            r@ == Map::<Seq<char>, Seq<char>>::empty(),
    {
        ModelFs { files: Vec::new() }
    }

    fn find_idx(&self, path: &str) -> (r: Option<usize>)
        ensures
            match r {
                Some(i) => i < self.files@.len() && self.files@[i as int].0@ == path@,
                None => forall|j: int| 0 <= j < self.files@.len() ==> self.files@[j].0@ != path@,
            },
    {
        let key = path.to_owned();
        let n = self.files.len();
        let mut i: usize = 0;
        while i < n
            invariant
                i <= n,
                n == self.files@.len(),
                key@ == path@,
                forall|j: int| 0 <= j < i ==> self.files@[j].0@ != path@,
            decreases n - i,
        {
            if self.files[i].0 == key {
                return Some(i);
            }
            i = i + 1;
        }
        None
    }

    /// Whether a file stands at `path`.
    pub fn file_exists(&self, path: &str) -> (b: bool)
        ensures
            b == self@.dom().contains(path@),
    {
        proof {
            lemma_map_of_dom(self.files@, path@);
        }
        match self.find_idx(path) {
            Some(_) => true,
            None => false,
        }
    }

    /// The content at `path`, if a file stands there.
    pub fn read_file(&self, path: &str) -> (r: Option<String>)
        requires
            self.wf(),
        ensures
            r is Some <==> self@.dom().contains(path@),
            r matches Some(c) ==> c@ == self@[path@],
    {
        proof {
            lemma_map_of_dom(self.files@, path@);
        }
        match self.find_idx(path) {
            Some(i) => {
                proof {
                    lemma_map_of_get(self.files@, i as int);
                }
                Some(self.files[i].1.clone())
            },
            None => None,
        }
    }

    /// Creates or overwrites the file at `path`.
    pub fn write_file(&mut self, path: &str, content: &str)
        requires
            old(self).wf(),
        ensures
            final(self).wf(),
            final(self)@ == old(self)@.insert(path@, content@),
    {
        let ghost s0 = self.files@;
        match self.find_idx(path) {
            Some(i) => {
                proof {
                    lemma_map_of_remove(s0, i as int);
                }
                self.files.remove(i);
                proof {
                    assert forall|a: int, b: int|
                        0 <= a < b < self.files@.len() implies self.files@[a].0@
                        != self.files@[b].0@ by {
                        assert(self.files@[a] == if a < i { s0[a] } else { s0[a + 1] });
                        assert(self.files@[b] == if b < i { s0[b] } else { s0[b + 1] });
                    }
                    assert forall|j: int| 0 <= j < self.files@.len() implies self.files@[j].0@
                        != path@ by {
                        assert(self.files@[j] == if j < i { s0[j] } else { s0[j + 1] });
                    }
                }
            },
            None => {},
        }
        let ghost s1 = self.files@;
        self.files.push((path.to_owned(), content.to_owned()));
        proof {
            assert(self.files@.drop_last() =~= s1);
            assert(self.files@.last().0@ == path@);
            assert(final(self)@ =~= old(self)@.insert(path@, content@));
        }
    }

    /// Deletes the file at `path`; fails when none stands there.
    pub fn remove_file(&mut self, path: &str) -> (r: Result<(), FsError>)
        requires
            old(self).wf(),
        ensures
            final(self).wf(),
            r is Ok <==> old(self)@.dom().contains(path@),
            r is Ok ==> final(self)@ == old(self)@.remove(path@),
            r matches Err(e) ==> final(self)@ == old(self)@ && e.path@ == path@,
    {
        let ghost s0 = self.files@;
        proof {
            lemma_map_of_dom(s0, path@);
        }
        match self.find_idx(path) {
            Some(i) => {
                proof {
                    lemma_map_of_remove(s0, i as int);
                }
                self.files.remove(i);
                proof {
                    assert forall|a: int, b: int|
                        0 <= a < b < self.files@.len() implies self.files@[a].0@
                        != self.files@[b].0@ by {
                        assert(self.files@[a] == if a < i { s0[a] } else { s0[a + 1] });
                        assert(self.files@[b] == if b < i { s0[b] } else { s0[b + 1] });
                    }
                    assert(final(self)@ =~= old(self)@.remove(path@));
                }
                Ok(())
            },
            None => Err(FsError { path: path.to_owned() }),
        }
    }

    /// Carries one action out, fail-fast, as `apply_one` describes.
    pub fn apply(&mut self, act: &FsAction) -> (r: Result<(), FsError>)
        requires
            old(self).wf(),
        ensures
            final(self).wf(),
            r is Ok <==> apply_one(old(self)@, act@) is Some,
            r is Ok ==> Some(final(self)@) == apply_one(old(self)@, act@),
            r matches Err(e) ==> final(self)@ == old(self)@ && e.path@ == action_src(act@),
    {
        match act {
            FsAction::CopyFile { src, dst } => {
                match self.read_file(src.as_str()) {
                    Some(content) => {
                        self.write_file(dst.as_str(), content.as_str());
                        Ok(())
                    },
                    None => Err(FsError { path: src.clone() }),
                }
            },
            FsAction::RenameFile { src, dst } => {
                match self.read_file(src.as_str()) {
                    Some(content) => {
                        let removed = self.remove_file(src.as_str());
                        proof {
                            assert(removed is Ok);
                        }
                        self.write_file(dst.as_str(), content.as_str());
                        Ok(())
                    },
                    None => Err(FsError { path: src.clone() }),
                }
            },
            FsAction::RemoveFile { path } => self.remove_file(path.as_str()),
        }
    }

    /// Carries a whole action list out, stopping at the first failure.
    pub fn apply_all(&mut self, acts: &Vec<FsAction>) -> (r: Result<(), FsError>)
        requires
            old(self).wf(),
        ensures
            final(self).wf(),
            final(self)@ == apply_prefix(old(self)@, acts_view(acts@)),
            r is Ok <==> apply_seq(old(self)@, acts_view(acts@)) is Some,
            r is Ok ==> Some(final(self)@) == apply_seq(old(self)@, acts_view(acts@)),
            r matches Err(e) ==> (first_failure(old(self)@, acts_view(acts@)) matches Some(a)
                && e.path@ == action_src(a)),
    {
        let ghost full = acts_view(acts@);
        let n = acts.len();
        let mut i: usize = 0;
        proof {
            assert(full.skip(0) =~= full);
        }
        while i < n
            invariant
                i <= n,
                n == acts@.len(),
                full == acts_view(acts@),
                self.wf(),
                apply_seq(old(self)@, full) == apply_seq(self@, full.skip(i as int)),
                apply_prefix(old(self)@, full) == apply_prefix(self@, full.skip(i as int)),
                first_failure(old(self)@, full) == first_failure(self@, full.skip(i as int)),
            decreases n - i,
        {
            let ghost rest = full.skip(i as int);
            proof {
                assert(rest.first() == acts@[i as int]@);
                assert(rest.drop_first() =~= full.skip(i + 1));
            }
            match self.apply(&acts[i]) {
                Ok(()) => {},
                Err(e) => {
                    return Err(e);
                },
            }
            i = i + 1;
        }
        proof {
            assert(full.skip(n as int) =~= Seq::<ActionV>::empty());
        }
        Ok(())
    }
}

} // verus!
