//! In-memory model of the backing filesystem: a flat store of files keyed
//! by [`FilePath`], with a cap on how many bytes a single write may
//! persist.  A write over the cap fails atomically, which is how the model
//! renders a mid-stream failure: the partial file is already gone.

use vstd::prelude::*;

use crate::models::{path_eq, FilePath, FsError, PathView};

verus! {

/// One stored file.
pub struct FsFile {
    pub path: FilePath,
    pub data: Vec<u8>,
}

/// The byte store.  Its mathematical value is the map from path values to
/// byte sequences.
pub struct ChunkFs {
    pub files: Vec<FsFile>,
    pub max_write: u64,
}

/// Map described by a sequence of files; a later entry overrides an
/// earlier one with the same path.
pub open spec fn files_map(s: Seq<FsFile>) -> Map<PathView, Seq<u8>>
    decreases s.len(),
{
    if s.len() == 0 {
        Map::empty()
    } else {
        files_map(s.drop_last()).insert(s.last().path@, s.last().data@)
    }
}

/// No two entries share a path.
pub open spec fn distinct_paths(s: Seq<FsFile>) -> bool {
    forall|i: int, j: int| 0 <= i < j < s.len() ==> s[i].path@ != s[j].path@
}

impl View for ChunkFs {
    type V = Map<PathView, Seq<u8>>;

    open spec fn view(&self) -> Map<PathView, Seq<u8>> {
        files_map(self.files@)
    }
}

/// The map of a distinct sequence holds exactly the entries of the
/// sequence.
pub proof fn lemma_files_map(s: Seq<FsFile>)
    requires
        distinct_paths(s),
    ensures
        forall|pv: PathView|
            files_map(s).contains_key(pv) <==> exists|i: int| 0 <= i < s.len() && s[i].path@ == pv,
        forall|i: int|
            0 <= i < s.len() ==> files_map(s).contains_key(#[trigger] s[i].path@) && files_map(
                s,
            )[s[i].path@] == s[i].data@,
    decreases s.len(),
{
    if s.len() > 0 {
        let s0 = s.drop_last();
        assert(distinct_paths(s0)) by {
            assert(forall|i: int, j: int|
                0 <= i < j < s0.len() ==> s0[i] == s[i] && s0[j] == s[j]);
        }
        lemma_files_map(s0);
        assert forall|pv: PathView| files_map(s).contains_key(pv) implies exists|i: int|
            0 <= i < s.len() && s[i].path@ == pv by {
            if pv == s.last().path@ {
                assert(s[s.len() - 1].path@ == pv);
            } else {
                assert(files_map(s0).contains_key(pv));
                assert(exists|k: int| 0 <= k < s0.len() && s0[k].path@ == pv);
                let i = choose|k: int| 0 <= k < s0.len() && s0[k].path@ == pv;
                assert(s0[i] == s[i]);
                assert(s[i].path@ == pv);
            }
        }
        assert forall|i: int| 0 <= i < s.len() implies files_map(s).contains_key(
            #[trigger] s[i].path@,
        ) && files_map(s)[s[i].path@] == s[i].data@ by {
            if i == s.len() - 1 {
            } else {
                assert(s0[i] == s[i]);
                assert(s[i].path@ != s.last().path@);
            }
        }
    }
}

/// Removing entry `i` from a distinct sequence removes its path from the
/// map.
pub proof fn lemma_files_map_remove(s: Seq<FsFile>, i: int)
    requires
        distinct_paths(s),
        0 <= i < s.len(),
    ensures
        files_map(s.remove(i)) == files_map(s).remove(s[i].path@),
        distinct_paths(s.remove(i)),
    decreases s.len(),
{
    let t = s.remove(i);
    assert(distinct_paths(t)) by {
        assert forall|a: int, b: int| 0 <= a < b < t.len() implies t[a].path@ != t[b].path@ by {
            let a0 = if a < i { a } else { a + 1 };
            let b0 = if b < i { b } else { b + 1 };
            assert(t[a] == s[a0] && t[b] == s[b0]);
        }
    }
    if i == s.len() - 1 {
        assert(t =~= s.drop_last());
        lemma_files_map(s.drop_last());
        assert(!files_map(s.drop_last()).contains_key(s[i].path@)) by {
            assert(forall|j: int|
                0 <= j < s.drop_last().len() ==> s.drop_last()[j] == s[j] && s[j].path@ != s[i].path@);
        }
        assert(files_map(t) =~= files_map(s).remove(s[i].path@));
    } else {
        let s0 = s.drop_last();
        assert(distinct_paths(s0)) by {
            assert(forall|a: int, b: int|
                0 <= a < b < s0.len() ==> s0[a] == s[a] && s0[b] == s[b]);
        }
        assert(t.drop_last() =~= s0.remove(i)) by {
            assert forall|j: int| 0 <= j < t.len() - 1 implies t.drop_last()[j] == s0.remove(i)[j] by {
                if j < i {
                    assert(t[j] == s[j] && s0.remove(i)[j] == s0[j] && s0[j] == s[j]);
                } else {
                    assert(t[j] == s[j + 1] && s0.remove(i)[j] == s0[j + 1] && s0[j + 1] == s[j + 1]);
                }
            }
        }
        assert(t.last() == s.last()) by {
            assert(t[t.len() - 1] == s[s.len() - 1]);
        }
        lemma_files_map_remove(s0, i);
        assert(s[i] == s0[i]);
        assert(s.last().path@ != s[i].path@);
        assert(files_map(t) == files_map(s0.remove(i)).insert(s.last().path@, s.last().data@));
        assert(files_map(t) =~= files_map(s).remove(s[i].path@));
    }
}

impl ChunkFs {
    /// Well-formed: one entry per path.
    pub open spec fn wf(self) -> bool {
        distinct_paths(self.files@)
    }

    /// An empty store accepting writes of at most `max_write` bytes each.
    pub fn new(max_write: u64) -> (r: Self)
        ensures
            r.wf(),
            r@ == Map::<PathView, Seq<u8>>::empty(),
            r.max_write == max_write,
    {
        ChunkFs { files: Vec::new(), max_write }
    }

    /// Index of the entry at `path`, if any.
    fn find(&self, path: &FilePath) -> (r: Option<usize>)
        requires
            self.wf(),
        ensures
            match r {
                Some(i) => 0 <= i < self.files@.len() && self.files@[i as int].path@ == path@,
                None => !self@.contains_key(path@),
            },
    {
        proof {
            lemma_files_map(self.files@);
        }
        let mut i: usize = 0;
        while i < self.files.len()
            invariant
                self.wf(),
                0 <= i <= self.files@.len(),
                forall|j: int| 0 <= j < i ==> self.files@[j].path@ != path@,
                forall|pv: PathView|
                    files_map(self.files@).contains_key(pv) <==> exists|k: int|
                        0 <= k < self.files@.len() && self.files@[k].path@ == pv,
            decreases self.files@.len() - i,
        {
            if path_eq(&self.files[i].path, path) {
                return Some(i);
            }
            i = i + 1;
        }
        None
    }

    /// Whether a file is present at `path`.
    pub fn has_file(&self, path: &FilePath) -> (r: bool)
        requires
            self.wf(),
        ensures
            r == self@.contains_key(path@),
    {
        proof {
            lemma_files_map(self.files@);
        }
        self.find(path).is_some()
    }

    /// The bytes stored at `path`.
    pub fn read_file(&self, path: &FilePath) -> (r: Option<&Vec<u8>>)
        requires
            self.wf(),
        ensures
            r is Some <==> self@.contains_key(path@),
            r matches Some(d) ==> d@ == self@[path@],
    {
        proof {
            lemma_files_map(self.files@);
        }
        match self.find(path) {
            Some(i) => Some(&self.files[i].data),
            None => None,
        }
    }

    /// The length of the file at `path`.
    pub fn file_size(&self, path: &FilePath) -> (r: Option<u64>)
        requires
            self.wf(),
        ensures
            r is Some <==> self@.contains_key(path@),
            r matches Some(n) ==> n == self@[path@].len(),
    {
        match self.read_file(path) {
            Some(d) => Some(d.len() as u64),
            None => None,
        }
    }

    /// Removes the file at `path`; reports whether one existed.
    pub fn remove_file(&mut self, path: &FilePath) -> (r: bool)
        requires
            old(self).wf(),
        ensures
            final(self).wf(),
            r == old(self)@.contains_key(path@),
            r ==> final(self)@ == old(self)@.remove(path@),
            !r ==> *final(self) == *old(self),
            final(self).max_write == old(self).max_write,
    {
        match self.find(path) {
            Some(i) => {
                proof {
                    lemma_files_map_remove(self.files@, i as int);
                    lemma_files_map(self.files@);
                }
                self.files.remove(i);
                true
            },
            None => false,
        }
    }

    /// Persists `data` at `path`, replacing any previous file there.  A
    /// payload longer than `max_write` fails without persisting anything,
    /// the way an interrupted stream leaves nothing behind after rollback.
    pub fn write_file(&mut self, path: FilePath, data: Vec<u8>) -> (r: Result<(), FsError>)
        requires
            old(self).wf(),
        ensures
            final(self).wf(),
            r is Ok <==> data@.len() <= old(self).max_write,
            r is Ok ==> final(self)@ == old(self)@.insert(path@, data@),
            r is Err ==> *final(self) == *old(self) && r == Err::<(), FsError>(FsError::NoSpace),
            final(self).max_write == old(self).max_write,
    {
        if data.len() as u64 > self.max_write {
            return Err(FsError::NoSpace);
        }
        let existed = self.remove_file(&path);
        let ghost pruned = self.files@;
        proof {
            lemma_files_map(pruned);
            assert(!files_map(pruned).contains_key(path@));
        }
        let ghost dv = data@;
        self.files.push(FsFile { path, data });
        proof {
            assert(self.files@.drop_last() =~= pruned);
            assert(distinct_paths(self.files@)) by {
                assert forall|i: int, j: int|
                    0 <= i < j < self.files@.len() implies self.files@[i].path@
                    != self.files@[j].path@ by {
                    if j == self.files@.len() - 1 {
                        assert(self.files@[i] == pruned[i]);
                        assert(exists|k: int|
                            0 <= k < pruned.len() && pruned[k].path@ == self.files@[i].path@);
                    } else {
                        assert(self.files@[i] == pruned[i] && self.files@[j] == pruned[j]);
                    }
                }
            }
            assert(self@ =~= old(self)@.insert(self.files@.last().path@, self.files@.last().data@));
        }
        Ok(())
    }

    /// Moves the file at `from` to `to`, replacing any file already at
    /// `to`.
    pub fn rename(&mut self, from: &FilePath, to: FilePath) -> (r: bool)
        requires
            old(self).wf(),
        ensures
            final(self).wf(),
            r == old(self)@.contains_key(from@),
            r ==> final(self)@ == old(self)@.remove(from@).insert(to@, old(self)@[from@]),
            !r ==> *final(self) == *old(self),
            final(self).max_write == old(self).max_write,
    {
        proof {
            lemma_files_map(self.files@);
        }
        match self.find(from) {
            Some(i) => {
                proof {
                    lemma_files_map_remove(self.files@, i as int);
                }
                let moved = self.files.remove(i);
                let ghost mid = self@;
                proof {
                    assert(mid == old(self)@.remove(from@));
                    assert(moved.data@ == old(self)@[from@]);
                }
                let _cleared = self.remove_file(&to);
                let ghost pruned = self.files@;
                proof {
                    lemma_files_map(pruned);
                    assert(!files_map(pruned).contains_key(to@));
                }
                self.files.push(FsFile { path: to, data: moved.data });
                proof {
                    assert(self.files@.drop_last() =~= pruned);
                    assert(distinct_paths(self.files@)) by {
                        assert forall|a: int, b: int|
                            0 <= a < b < self.files@.len() implies self.files@[a].path@
                            != self.files@[b].path@ by {
                            if b == self.files@.len() - 1 {
                                assert(self.files@[a] == pruned[a]);
                                assert(exists|k: int|
                                    0 <= k < pruned.len() && pruned[k].path@
                                        == self.files@[a].path@);
                            } else {
                                assert(self.files@[a] == pruned[a] && self.files@[b] == pruned[b]);
                            }
                        }
                    }
                    assert(self@ =~= old(self)@.remove(from@).insert(to@, old(self)@[from@]));
                }
                true
            },
            None => false,
        }
    }
}

} // verus!
