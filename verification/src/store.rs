//! The chunk store: orchestrates byte-store writes and deletes together
//! with registry calls so that the two stay in agreement.
//!
//! Upload protocol: validate the name before any store interaction; stage
//! the bytes; measure their persisted size; create the registry record;
//! only then move the bytes to their final location.  A write failure
//! leaves nothing behind; a duplicate name leaves the first upload's bytes
//! untouched and removes only the staged copy; any other registry failure
//! leaves the staged bytes as a flagged orphan rather than destroying what
//! might be the last copy.
//!
//! Delete protocol: remove the registry record first, then the file.  An
//! orphaned file with no record is harmless and reclaimable; a record
//! pointing at missing bytes is a violation a reader could observe, so the
//! record always goes first.

use vstd::prelude::*;

use crate::models::{
    check_name, opt_view, valid_name, Chunk, ChunkView, Dir, FilePath, NewChunk, PathView,
    RegistryError, StoreError,
};
use crate::registry::{has_name, idx_for, record_for, stamp, ChunkRegistry};
use crate::storage::ChunkFs;

verus! {

/// Final location of a chunk's bytes, derived deterministically from its
/// name and never changed.
pub open spec fn chunk_path_view(n: Seq<char>) -> PathView {
    PathView { dir: Dir::Chunks, name: n }
}

/// Where an upload's bytes are staged until their record exists.
pub open spec fn staging_path_view(n: Seq<char>) -> PathView {
    PathView { dir: Dir::Staging, name: n }
}

/// The consistency core: a registry and a byte store that move together.
pub struct ChunkStore {
    pub registry: ChunkRegistry,
    pub fs: ChunkFs,
}

impl ChunkStore {
    /// Well-formed: both halves are, and every record's path is the one
    /// derived from its name.
    pub open spec fn wf(self) -> bool {
        &&& self.registry.wf()
        &&& self.fs.wf()
        &&& forall|i: int|
            0 <= i < self.registry@.len() ==> (#[trigger] self.registry@[i]).path
                == chunk_path_view(self.registry@[i].name)
    }

    /// Registry–store agreement: every live record's bytes are present at
    /// its path, with the recorded length.
    pub open spec fn consistent(self) -> bool {
        forall|i: int|
            0 <= i < self.registry@.len() ==> self.fs@.contains_key(
                (#[trigger] self.registry@[i]).path,
            ) && self.fs@[self.registry@[i].path].len() == self.registry@[i].size
    }

    /// An empty, consistent store accepting writes of at most `max_write`
    /// bytes each.
    pub fn new(max_write: u64) -> (r: Self)
        ensures
            r.wf(),
            r.consistent(),
            r.registry@ == Seq::<ChunkView>::empty(),
            r.fs@ == Map::<PathView, Seq<u8>>::empty(),
            r.fs.max_write == max_write,
    {
        ChunkStore { registry: ChunkRegistry::new(), fs: ChunkFs::new(max_write) }
    }
}

/// What a fetch returns on a given store state: the record's bytes; or
/// `NotFound` when no record is live under the name; or `CorruptedRecord`
/// when a record is live but its bytes are gone — distinct, so "never
/// existed" can be told from "exists in metadata but bytes are missing".
pub open spec fn get_spec(s: ChunkStore, n: Seq<char>) -> Result<Seq<u8>, StoreError> {
    if !has_name(s.registry@, n) {
        Err(StoreError::NotFound)
    } else if !s.fs@.contains_key(record_for(s.registry@, n).path) {
        Err(StoreError::CorruptedRecord)
    } else {
        Ok(s.fs@[record_for(s.registry@, n).path])
    }
}

/// A successful upload of `data` under `n` turned `pre` into `post`,
/// creating the record `c`: the record is live under `n` with the derived
/// path and the measured size, and the bytes sit at that path; apart from
/// the staged copy going away, nothing else moved.
pub open spec fn put_created(
    pre: ChunkStore,
    post: ChunkStore,
    n: Seq<char>,
    data: Seq<u8>,
    c: ChunkView,
) -> bool {
    &&& c.name == n
    &&& c.path == chunk_path_view(n)
    &&& c.size == data.len()
    &&& exists|p: int|
        0 <= p <= pre.registry@.len() && post.registry@ == pre.registry@.insert(p, c)
    &&& has_name(post.registry@, n)
    &&& record_for(post.registry@, n) == c
    &&& post.fs@ == pre.fs@.remove(staging_path_view(n)).insert(chunk_path_view(n), data)
    &&& post.fs.max_write == pre.fs.max_write
}

/// An upload under `n` lost the uniqueness race and turned `pre` into
/// `post`: the registry is untouched and the byte store has only lost the
/// staged copy — the first upload's bytes still stand.
pub open spec fn put_blocked(pre: ChunkStore, post: ChunkStore, n: Seq<char>) -> bool {
    &&& post.registry == pre.registry
    &&& post.fs@ == pre.fs@.remove(staging_path_view(n))
    &&& post.fs.max_write == pre.fs.max_write
}

/// Relies on chrono's `Utc::now` and `DateTime::timestamp_millis`: the
/// current wall-clock instant in milliseconds since the Unix epoch.  The
/// result depends on the machine's clock, so nothing is promised of it;
/// the registry clamps whatever comes back into monotonic order.
#[verifier::external_body]
fn now_millis() -> i64 {
    chrono::Utc::now().timestamp_millis()
}

impl ChunkStore {
    /// Uploads `data` under `name`, stamped at time `now`.
    pub fn put_at(
        &mut self,
        now: i64,
        name: &str,
        data: Vec<u8>,
        content_type: Option<String>,
    ) -> (r: Result<Chunk, StoreError>)
        requires
            old(self).wf(),
        ensures
            final(self).wf(),
            old(self).consistent() ==> final(self).consistent(),
            r is Ok <==> ({
                &&& valid_name(name@)
                &&& data@.len() <= old(self).fs.max_write
                &&& !has_name(old(self).registry@, name@)
                &&& old(self).registry.next_id < i32::MAX
            }),
            !valid_name(name@) ==> ({
                &&& r == Err::<Chunk, StoreError>(StoreError::InvalidName)
                &&& *final(self) == *old(self)
            }),
            valid_name(name@) && data@.len() > old(self).fs.max_write ==> ({
                &&& r == Err::<Chunk, StoreError>(StoreError::StorageWriteFailed)
                &&& *final(self) == *old(self)
            }),
            valid_name(name@) && data@.len() <= old(self).fs.max_write && has_name(
                old(self).registry@,
                name@,
            ) ==> ({
                &&& r == Err::<Chunk, StoreError>(StoreError::NameAlreadyExists)
                &&& put_blocked(*old(self), *final(self), name@)
            }),
            valid_name(name@) && data@.len() <= old(self).fs.max_write && !has_name(
                old(self).registry@,
                name@,
            ) && old(self).registry.next_id == i32::MAX ==> ({
                &&& r == Err::<Chunk, StoreError>(StoreError::RegistryWriteFailed)
                &&& final(self).registry == old(self).registry
                &&& final(self).fs@ == old(self).fs@.insert(staging_path_view(name@), data@)
                &&& final(self).fs.max_write == old(self).fs.max_write
            }),
            r matches Ok(c) ==> ({
                &&& put_created(*old(self), *final(self), name@, data@, c@)
                &&& c@.id == old(self).registry.next_id
                &&& c@.created_at == stamp(now, old(self).registry.clock)
                &&& c@.updated_at == c@.created_at
                &&& c@.content_type == opt_view(content_type)
                &&& final(self).registry.next_id == old(self).registry.next_id + 1
                &&& final(self).registry.clock == c@.created_at
            }),
    {
        let ghost pre = *old(self);
        let ghost nv = name@;
        let ghost dv = data@;
        if !check_name(name) {
            return Err(StoreError::InvalidName);
        }
        let staging = FilePath { dir: Dir::Staging, name: name.to_owned() };
        let staging_probe = FilePath { dir: Dir::Staging, name: name.to_owned() };
        proof {
            assert(staging@ =~= staging_path_view(nv));
            assert(staging_probe@ =~= staging_path_view(nv));
        }
        match self.fs.write_file(staging, data) {
            Err(_) => {
                return Err(StoreError::StorageWriteFailed);
            },
            Ok(()) => {},
        }
        let size = self.fs.file_size(&staging_probe).unwrap();
        let nc = NewChunk {
            filename: name.to_owned(),
            file_path: FilePath { dir: Dir::Chunks, name: name.to_owned() },
            size,
            content_type,
        };
        proof {
            assert(nc.file_path@ =~= chunk_path_view(nv));
        }
        match self.registry.insert_chunk(nc, now) {
            Ok(c) => {
                let dest = FilePath { dir: Dir::Chunks, name: name.to_owned() };
                proof {
                    assert(dest@ =~= chunk_path_view(nv));
                }
                self.fs.rename(&staging_probe, dest);
                proof {
                    assert(self.fs@ =~= pre.fs@.remove(staging_path_view(nv)).insert(
                        chunk_path_view(nv),
                        dv,
                    ));
                    let p = choose|p: int|
                        0 <= p <= pre.registry@.len() && self.registry@ == pre.registry@.insert(
                            p,
                            c@,
                        );
                    assert forall|i: int| 0 <= i < self.registry@.len() implies (
                    #[trigger] self.registry@[i]).path == chunk_path_view(self.registry@[i].name)
                        && (pre.consistent() ==> self.fs@.contains_key(self.registry@[i].path)
                        && self.fs@[self.registry@[i].path].len() == self.registry@[i].size) by {
                        if i < p {
                            assert(self.registry@[i] == pre.registry@[i]);
                        } else if i > p {
                            assert(self.registry@[i] == pre.registry@[i - 1]);
                        }
                        if i != p {
                            let o = self.registry@[i];
                            assert(o.name != nv) by {
                                if o.name == nv {
                                    assert(has_name(pre.registry@, nv));
                                }
                            }
                            assert(o.path == chunk_path_view(o.name));
                            assert(o.path != chunk_path_view(nv));
                            assert(o.path != staging_path_view(nv));
                        }
                    }
                }
                Ok(c)
            },
            Err(RegistryError::DuplicateName) => {
                self.fs.remove_file(&staging_probe);
                proof {
                    assert(self.fs@ =~= pre.fs@.remove(staging_path_view(nv)));
                    assert forall|i: int|
                        0 <= i < self.registry@.len() && pre.consistent() implies self.fs@.contains_key(
                        (#[trigger] self.registry@[i]).path,
                    ) && self.fs@[self.registry@[i].path].len() == self.registry@[i].size by {
                        let o = self.registry@[i];
                        assert(o.path == chunk_path_view(o.name));
                        assert(o.path != staging_path_view(nv));
                    }
                }
                Err(StoreError::NameAlreadyExists)
            },
            Err(RegistryError::IdSpaceExhausted) => {
                proof {
                    assert(self.fs@ == pre.fs@.insert(staging_path_view(nv), dv));
                    assert forall|i: int|
                        0 <= i < self.registry@.len() && pre.consistent() implies self.fs@.contains_key(
                        (#[trigger] self.registry@[i]).path,
                    ) && self.fs@[self.registry@[i].path].len() == self.registry@[i].size by {
                        let o = self.registry@[i];
                        assert(o.path == chunk_path_view(o.name));
                        assert(o.path != staging_path_view(nv));
                    }
                }
                Err(StoreError::RegistryWriteFailed)
            },
        }
    }

    /// Uploads `data` under `name`, stamped at the current wall-clock
    /// time.  Success and failure, and everything but the timestamp
    /// itself, do not depend on the clock.
    pub fn put(&mut self, name: &str, data: Vec<u8>, content_type: Option<String>) -> (r: Result<
        Chunk,
        StoreError,
    >)
        requires
            old(self).wf(),
        ensures
            final(self).wf(),
            old(self).consistent() ==> final(self).consistent(),
            r is Ok <==> ({
                &&& valid_name(name@)
                &&& data@.len() <= old(self).fs.max_write
                &&& !has_name(old(self).registry@, name@)
                &&& old(self).registry.next_id < i32::MAX
            }),
            !valid_name(name@) ==> ({
                &&& r == Err::<Chunk, StoreError>(StoreError::InvalidName)
                &&& *final(self) == *old(self)
            }),
            valid_name(name@) && data@.len() > old(self).fs.max_write ==> ({
                &&& r == Err::<Chunk, StoreError>(StoreError::StorageWriteFailed)
                &&& *final(self) == *old(self)
            }),
            valid_name(name@) && data@.len() <= old(self).fs.max_write && has_name(
                old(self).registry@,
                name@,
            ) ==> ({
                &&& r == Err::<Chunk, StoreError>(StoreError::NameAlreadyExists)
                &&& put_blocked(*old(self), *final(self), name@)
            }),
            r matches Ok(c) ==> ({
                &&& put_created(*old(self), *final(self), name@, data@, c@)
                &&& c@.id == old(self).registry.next_id
                &&& c@.content_type == opt_view(content_type)
            }),
    {
        let now = now_millis();
        self.put_at(now, name, data, content_type)
    }

    /// Serves the bytes recorded under `name`.
    pub fn get(&self, name: &str) -> (r: Result<&Vec<u8>, StoreError>)
        requires
            self.wf(),
        ensures
            r matches Ok(d) ==> get_spec(*self, name@) == Ok::<Seq<u8>, StoreError>(d@),
            r matches Err(e) ==> get_spec(*self, name@) == Err::<Seq<u8>, StoreError>(e),
            self.consistent() && has_name(self.registry@, name@) ==> r is Ok,
    {
        match self.registry.get_chunk_by_filename(name) {
            None => Err(StoreError::NotFound),
            Some(c) => {
                proof {
                    if self.consistent() {
                        let k = idx_for(self.registry@, name@);
                        assert(self.fs@.contains_key(self.registry@[k].path));
                    }
                }
                match self.fs.read_file(&c.file_path) {
                    None => Err(StoreError::CorruptedRecord),
                    Some(d) => Ok(d),
                }
            },
        }
    }

    /// Deletes the chunk named `name`: the registry record first, then the
    /// bytes.  After any outcome no record is live under the name; if only
    /// the bytes could not be removed, the distinct `PartialDelete` tells
    /// the operator that cleanup did not finish.
    pub fn delete(&mut self, name: &str) -> (r: Result<(), StoreError>)
        requires
            old(self).wf(),
        ensures
            final(self).wf(),
            old(self).consistent() ==> final(self).consistent(),
            !has_name(final(self).registry@, name@),
            !has_name(old(self).registry@, name@) ==> ({
                &&& r == Err::<(), StoreError>(StoreError::NotFound)
                &&& *final(self) == *old(self)
            }),
            has_name(old(self).registry@, name@) ==> ({
                &&& final(self).registry@ == old(self).registry@.remove(
                    idx_for(old(self).registry@, name@),
                )
                &&& final(self).registry.next_id == old(self).registry.next_id
                &&& final(self).registry.clock == old(self).registry.clock
            }),
            has_name(old(self).registry@, name@) && old(self).fs@.contains_key(
                chunk_path_view(name@),
            ) ==> ({
                &&& r == Ok::<(), StoreError>(())
                &&& final(self).fs@ == old(self).fs@.remove(chunk_path_view(name@))
                &&& final(self).fs.max_write == old(self).fs.max_write
            }),
            has_name(old(self).registry@, name@) && !old(self).fs@.contains_key(
                chunk_path_view(name@),
            ) ==> ({
                &&& r == Err::<(), StoreError>(StoreError::PartialDelete)
                &&& final(self).fs == old(self).fs
            }),
    {
        let ghost pre = *old(self);
        let ghost nv = name@;
        let existed = self.registry.delete_chunk(name);
        if !existed {
            return Err(StoreError::NotFound);
        }
        proof {
            let k = idx_for(pre.registry@, nv);
            assert(0 <= k < pre.registry@.len() && pre.registry@[k].name == nv);
            assert(pre.registry@[k].path == chunk_path_view(nv));
            assert forall|i: int| 0 <= i < self.registry@.len() implies (
            #[trigger] self.registry@[i]).path == chunk_path_view(self.registry@[i].name) && (
            pre.consistent() ==> pre.fs@.contains_key(self.registry@[i].path)
                && pre.fs@[self.registry@[i].path].len() == self.registry@[i].size)
                && self.registry@[i].name != nv by {
                let i0 = if i < k {
                    i
                } else {
                    i + 1
                };
                assert(self.registry@[i] == pre.registry@[i0]);
                if self.registry@[i].name == nv {
                    assert(pre.registry@[i0].name == pre.registry@[k].name);
                }
            }
            if pre.consistent() {
                assert(pre.fs@.contains_key(chunk_path_view(nv)));
            }
        }
        let path = FilePath { dir: Dir::Chunks, name: name.to_owned() };
        proof {
            assert(path@ =~= chunk_path_view(nv));
        }
        let removed = self.fs.remove_file(&path);
        proof {
            if removed {
                assert forall|i: int|
                    0 <= i < self.registry@.len() && pre.consistent() implies self.fs@.contains_key(
                    (#[trigger] self.registry@[i]).path,
                ) && self.fs@[self.registry@[i].path].len() == self.registry@[i].size by {
                    let o = self.registry@[i];
                    assert(o.path == chunk_path_view(o.name));
                    assert(o.name != nv);
                    assert(o.path != chunk_path_view(nv));
                }
            }
        }
        if removed {
            Ok(())
        } else {
            Err(StoreError::PartialDelete)
        }
    }
}

/// Law: fetching a name right after a successful upload of that name
/// returns exactly the uploaded bytes.
pub proof fn lemma_put_then_get(
    pre: ChunkStore,
    post: ChunkStore,
    n: Seq<char>,
    data: Seq<u8>,
    c: ChunkView,
)
    requires
        put_created(pre, post, n, data, c),
    ensures
        get_spec(post, n) == Ok::<Seq<u8>, StoreError>(data),
{
    assert(post.fs@.contains_key(chunk_path_view(n)));
    assert(post.fs@[chunk_path_view(n)] == data);
}

/// Law: once no record is live under a name — as after a delete of any
/// outcome — a fetch of that name yields `NotFound`.
pub proof fn lemma_delete_then_get(s: ChunkStore, n: Seq<char>)
    requires
        !has_name(s.registry@, n),
    ensures
        get_spec(s, n) == Err::<Seq<u8>, StoreError>(StoreError::NotFound),
{
}

/// Law: an upload refused as a duplicate changes what no fetch — of the
/// raced name or of any other — returns: registry and finished bytes still
/// reflect only the earlier uploads.
pub proof fn lemma_duplicate_put_preserves_get(
    pre: ChunkStore,
    post: ChunkStore,
    raced: Seq<char>,
    n: Seq<char>,
)
    requires
        pre.wf(),
        put_blocked(pre, post, raced),
    ensures
        get_spec(post, n) == get_spec(pre, n),
{
    assert(post.registry@ == pre.registry@);
    if has_name(pre.registry@, n) {
        let c = record_for(pre.registry@, n);
        let k = idx_for(pre.registry@, n);
        assert(0 <= k < pre.registry@.len() && pre.registry@[k].name == n);
        assert(c.path == chunk_path_view(n));
        assert(c.path != staging_path_view(raced));
        assert(post.fs@.contains_key(c.path) == pre.fs@.contains_key(c.path));
        if pre.fs@.contains_key(c.path) {
            assert(post.fs@[c.path] == pre.fs@[c.path]);
        }
    }
}

/// Law: an upload whose byte write failed left no trace — the store is
/// exactly what it was, which is what `put_at` guarantees of that failure
/// — so no record exists for a name that had none, and fetching it still
/// says `NotFound`.
pub proof fn lemma_failed_write_leaves_no_record(pre: ChunkStore, post: ChunkStore, n: Seq<char>)
    requires
        post == pre,
        !has_name(pre.registry@, n),
    ensures
        !has_name(post.registry@, n),
        get_spec(post, n) == Err::<Seq<u8>, StoreError>(StoreError::NotFound),
{
}

} // verus!
