//! The metadata registry: a durable store of chunk records keyed by a
//! unique name.  Records are kept in listing order — newest first by
//! creation time, ties broken by ascending id — so a listing is
//! deterministic even when timestamps collide.

use vstd::prelude::*;

use crate::models::{opt_view, Chunk, ChunkView, NewChunk, RegistryError};

verus! {

/// The mathematical values of a sequence of records.
pub open spec fn views_of(s: Seq<Chunk>) -> Seq<ChunkView> {
    s.map_values(|c: Chunk| c@)
}

/// `a` comes before `b` in a listing: strictly newer, or as new with the
/// smaller id.
pub open spec fn before(a: ChunkView, b: ChunkView) -> bool {
    a.created_at > b.created_at || (a.created_at == b.created_at && a.id < b.id)
}

/// Every pair of records stands in listing order: creation time
/// descending, ties broken by ascending id.
pub open spec fn list_ordered(s: Seq<ChunkView>) -> bool {
    forall|i: int, j: int| 0 <= i < j < s.len() ==> before(s[i], s[j])
}

/// Some live record bears the name.
pub open spec fn has_name(s: Seq<ChunkView>, n: Seq<char>) -> bool {
    exists|i: int| 0 <= i < s.len() && s[i].name == n
}

/// Index of a record bearing the name (unique when names are unique).
pub open spec fn idx_for(s: Seq<ChunkView>, n: Seq<char>) -> int {
    choose|i: int| 0 <= i < s.len() && s[i].name == n
}

/// The record bearing the name.
pub open spec fn record_for(s: Seq<ChunkView>, n: Seq<char>) -> ChunkView {
    s[idx_for(s, n)]
}

/// The timestamp the registry assigns when asked to create a record at
/// time `now`: never earlier than anything it has already assigned, so
/// timestamps are monotonic non-decreasing.
pub open spec fn stamp(now: i64, clock: i64) -> i64 {
    if now > clock {
        now
    } else {
        clock
    }
}

/// The registry.  Its mathematical value is the sequence of record values
/// in listing order.
pub struct ChunkRegistry {
    pub records: Vec<Chunk>,
    pub next_id: i32,
    pub clock: i64,
}

impl View for ChunkRegistry {
    type V = Seq<ChunkView>;

    open spec fn view(&self) -> Seq<ChunkView> {
        views_of(self.records@)
    }
}

/// Inserting into a record sequence commutes with taking views.
proof fn lemma_views_insert(s: Seq<Chunk>, p: int, c: Chunk)
    requires
        0 <= p <= s.len(),
    ensures
        views_of(s.insert(p, c)) =~= views_of(s).insert(p, c@),
{
    assert forall|i: int| 0 <= i < s.len() + 1 implies views_of(s.insert(p, c))[i] == views_of(
        s,
    ).insert(p, c@)[i] by {
        if i < p {
            assert(s.insert(p, c)[i] == s[i]);
        } else if i == p {
            assert(s.insert(p, c)[i] == c);
        } else {
            assert(s.insert(p, c)[i] == s[i - 1]);
        }
    }
}

/// Removing from a record sequence commutes with taking views.
proof fn lemma_views_remove(s: Seq<Chunk>, p: int)
    requires
        0 <= p < s.len(),
    ensures
        views_of(s.remove(p)) =~= views_of(s).remove(p),
{
    assert forall|i: int| 0 <= i < s.len() - 1 implies views_of(s.remove(p))[i] == views_of(
        s,
    ).remove(p)[i] by {
        if i < p {
            assert(s.remove(p)[i] == s[i]);
        } else {
            assert(s.remove(p)[i] == s[i + 1]);
        }
    }
}

impl ChunkRegistry {
    /// Well-formed: records stand in listing order, names and ids are
    /// unique, every id was assigned below `next_id`, and no timestamp is
    /// ahead of the clock's high-water mark.
    pub open spec fn wf(self) -> bool {
        &&& list_ordered(self@)
        &&& forall|i: int, j: int| 0 <= i < j < self@.len() ==> self@[i].name != self@[j].name
        &&& forall|i: int, j: int| 0 <= i < j < self@.len() ==> self@[i].id != self@[j].id
        &&& forall|i: int| 0 <= i < self@.len() ==> 0 <= #[trigger] self@[i].id < self.next_id
        &&& forall|i: int| 0 <= i < self@.len() ==> #[trigger] self@[i].created_at <= self.clock
        &&& self.next_id >= 1
    }

    /// An empty registry.
    pub fn new() -> (r: Self)
        ensures
            r.wf(),
            r@ == Seq::<ChunkView>::empty(),
            r.next_id == 1,
            r.clock == 0,
    {
        let r = ChunkRegistry { records: Vec::new(), next_id: 1, clock: 0 };
        proof {
            assert(r@ =~= Seq::<ChunkView>::empty());
        }
        r
    }

    /// Index of the record named `filename`, if one is live.
    fn find(&self, filename: &String) -> (r: Option<usize>)
        requires
            self.wf(),
        ensures
            match r {
                Some(i) => 0 <= i < self@.len() && self@[i as int].name == filename@,
                None => !has_name(self@, filename@),
            },
    {
        let mut i: usize = 0;
        while i < self.records.len()
            invariant
                0 <= i <= self.records@.len(),
                forall|j: int| 0 <= j < i ==> views_of(self.records@)[j].name != filename@,
            decreases self.records@.len() - i,
        {
            if self.records[i].filename == *filename {
                return Some(i);
            }
            i = i + 1;
        }
        None
    }

    /// Creates a record for `new_chunk`, stamped at `now` (or at the
    /// registry's high-water mark if that is later), under a fresh id.
    /// Fails with `DuplicateName` when the name already denotes a live
    /// record — the uniqueness boundary — and with `IdSpaceExhausted` when
    /// no fresh id remains; either failure leaves the registry unchanged.
    pub fn insert_chunk(&mut self, new_chunk: NewChunk, now: i64) -> (r: Result<
        Chunk,
        RegistryError,
    >)
        requires
            old(self).wf(),
        ensures
            final(self).wf(),
            r is Ok <==> !has_name(old(self)@, new_chunk.filename@) && old(self).next_id
                < i32::MAX,
            has_name(old(self)@, new_chunk.filename@) ==> r == Err::<Chunk, RegistryError>(
                RegistryError::DuplicateName,
            ) && *final(self) == *old(self),
            !has_name(old(self)@, new_chunk.filename@) && old(self).next_id == i32::MAX ==> r
                == Err::<Chunk, RegistryError>(RegistryError::IdSpaceExhausted) && *final(self)
                == *old(self),
            r matches Ok(c) ==> ({
                &&& c@.id == old(self).next_id
                &&& c@.name == new_chunk.filename@
                &&& c@.path == new_chunk.file_path@
                &&& c@.size == new_chunk.size
                &&& c@.content_type == opt_view(new_chunk.content_type)
                &&& c@.created_at == stamp(now, old(self).clock)
                &&& c@.updated_at == c@.created_at
                &&& exists|p: int|
                    0 <= p <= old(self)@.len() && final(self)@ == old(self)@.insert(p, c@)
                &&& final(self).next_id == old(self).next_id + 1
                &&& final(self).clock == c@.created_at
                &&& has_name(final(self)@, new_chunk.filename@)
                &&& record_for(final(self)@, new_chunk.filename@) == c@
            }),
    {
        if self.find(&new_chunk.filename).is_some() {
            return Err(RegistryError::DuplicateName);
        }
        if self.next_id == i32::MAX {
            return Err(RegistryError::IdSpaceExhausted);
        }
        let t: i64 = if now > self.clock {
            now
        } else {
            self.clock
        };
        let c = Chunk {
            id: self.next_id,
            filename: new_chunk.filename,
            file_path: new_chunk.file_path,
            size: new_chunk.size,
            content_type: new_chunk.content_type,
            created_at: t,
            updated_at: t,
        };
        let mut p: usize = 0;
        while p < self.records.len() && self.records[p].created_at >= t
            invariant
                0 <= p <= self.records@.len(),
                forall|j: int| 0 <= j < p ==> views_of(self.records@)[j].created_at >= t,
            decreases self.records@.len() - p,
        {
            p = p + 1;
        }
        let ghost ov = self@;
        let ghost cv = c@;
        let stored = c.clone();
        self.records.insert(p, stored);
        proof {
            lemma_views_insert(old(self).records@, p as int, c);
        }
        self.next_id = self.next_id + 1;
        self.clock = t;
        let ghost nv = self@;
        proof {
            assert(nv == ov.insert(p as int, cv));
            assert(t <= self.clock);
            assert forall|i: int| 0 <= i < nv.len() implies (nv[i] == if i < p {
                ov[i]
            } else if i == p {
                cv
            } else {
                ov[i - 1]
            }) by {}
            assert(list_ordered(nv)) by {
                assert forall|i: int, j: int| 0 <= i < j < nv.len() implies before(
                    nv[i],
                    nv[j],
                ) by {
                    if j < p {
                        assert(before(ov[i], ov[j]));
                    } else if j == p {
                        assert(ov[i].created_at >= t && ov[i].created_at <= old(self).clock
                            <= t);
                        assert(ov[i].id < old(self).next_id);
                    } else if i < p {
                        assert(before(ov[i], ov[j - 1]));
                    } else if i == p {
                        assert(ov[j - 1].created_at < t) by {
                            if j - 1 > p {
                                assert(before(ov[p as int], ov[j - 1]));
                            }
                        }
                    } else {
                        assert(before(ov[i - 1], ov[j - 1]));
                    }
                }
            }
            assert(has_name(nv, cv.name)) by {
                assert(nv[p as int].name == cv.name);
            }
            assert(record_for(nv, cv.name) == cv) by {
                let k = idx_for(nv, cv.name);
                assert(0 <= k < nv.len() && nv[k].name == cv.name);
                if k != p {
                    let k0 = if k < p {
                        k
                    } else {
                        k - 1
                    };
                    assert(ov[k0].name == cv.name);
                    assert(has_name(ov, cv.name));
                }
            }
        }
        Ok(c)
    }

    /// The record named `filename`, if one is live.
    pub fn get_chunk_by_filename(&self, filename: &str) -> (r: Option<Chunk>)
        requires
            self.wf(),
        ensures
            r is Some <==> has_name(self@, filename@),
            r matches Some(c) ==> c@ == record_for(self@, filename@),
    {
        let owned = filename.to_owned();
        match self.find(&owned) {
            Some(i) => {
                let c = self.records[i].clone();
                proof {
                    let k = idx_for(self@, filename@);
                    assert(0 <= k < self@.len() && self@[k].name == filename@);
                    assert(k == i as int);
                }
                Some(c)
            },
            None => None,
        }
    }

    /// Every live record, newest first; ties in creation time come in
    /// ascending id order, so repeated listings of one state agree.
    pub fn list_all_chunks(&self) -> (r: Vec<Chunk>)
        requires
            self.wf(),
        ensures
            views_of(r@) == self@,
            list_ordered(views_of(r@)),
    {
        let mut out: Vec<Chunk> = Vec::new();
        let mut i: usize = 0;
        while i < self.records.len()
            invariant
                0 <= i <= self.records@.len(),
                out@.len() == i as int,
                views_of(out@) =~= self@.take(i as int),
            decreases self.records@.len() - i,
        {
            let ghost prev = out@;
            out.push(self.records[i].clone());
            proof {
                assert forall|k: int| 0 <= k < out@.len() implies views_of(out@)[k] == self@.take(
                    i as int + 1,
                )[k] by {
                    if k < i {
                        assert(out@[k] == prev[k]);
                        assert(views_of(prev)[k] == self@.take(i as int)[k]);
                    } else {
                        assert(out@[k] == self.records@[i as int]);
                    }
                }
                assert(views_of(out@) =~= self@.take(i as int + 1));
            }
            i = i + 1;
        }
        proof {
            assert(views_of(out@) =~= self@);
        }
        out
    }

    /// Removes the record named `filename`; reports whether one was live.
    /// Removal is atomic from the caller's perspective and never touches
    /// any other record.
    pub fn delete_chunk(&mut self, filename: &str) -> (r: bool)
        requires
            old(self).wf(),
        ensures
            final(self).wf(),
            r == has_name(old(self)@, filename@),
            !r ==> *final(self) == *old(self),
            r ==> final(self)@ == old(self)@.remove(idx_for(old(self)@, filename@)),
            final(self).next_id == old(self).next_id,
            final(self).clock == old(self).clock,
            !has_name(final(self)@, filename@),
    {
        let owned = filename.to_owned();
        match self.find(&owned) {
            Some(i) => {
                proof {
                    lemma_views_remove(self.records@, i as int);
                    let k = idx_for(self@, filename@);
                    assert(0 <= k < self@.len() && self@[k].name == filename@);
                    assert(k == i as int);
                }
                let ghost ov = self@;
                self.records.remove(i);
                let ghost nv = self@;
                proof {
                    assert(nv == ov.remove(i as int));
                    assert forall|a: int, b: int| 0 <= a < b < nv.len() implies before(
                        nv[a],
                        nv[b],
                    ) && nv[a].name != nv[b].name && nv[a].id != nv[b].id by {
                        let a0 = if a < i {
                            a
                        } else {
                            a + 1
                        };
                        let b0 = if b < i {
                            b
                        } else {
                            b + 1
                        };
                        assert(nv[a] == ov[a0] && nv[b] == ov[b0]);
                    }
                    assert(!has_name(nv, filename@)) by {
                        if has_name(nv, filename@) {
                            let k = choose|k: int| 0 <= k < nv.len() && nv[k].name == filename@;
                            let k0 = if k < i {
                                k
                            } else {
                                k + 1
                            };
                            assert(nv[k] == ov[k0]);
                        }
                    }
                    assert forall|a: int| 0 <= a < nv.len() implies 0 <= #[trigger] nv[a].id
                        < self.next_id && #[trigger] nv[a].created_at <= self.clock by {
                        let a0 = if a < i {
                            a
                        } else {
                            a + 1
                        };
                        assert(nv[a] == ov[a0]);
                    }
                }
                true
            },
            None => false,
        }
    }
}

} // verus!
