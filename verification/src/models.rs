//! Data model: chunk records, storage paths, error kinds, and the
//! name-validity rule that guards against path traversal.

use vstd::prelude::*;
use vstd::string::StringSliceAdditionalSpecFns;
use vstd::utf8::encode_utf8;

verus! {

/// The directory a stored file lives in, relative to the store root.
///
/// Finished chunks live under `Chunks`; bytes being uploaded are staged
/// under `Staging` until their registry record exists, so a stream that
/// fails or collides with a live name can never clobber finished bytes.
#[derive(Clone, Copy, PartialEq, Eq, Structural, Debug)]
pub enum Dir {
    Chunks,
    Staging,
}

/// Mathematical value of a [`FilePath`].
#[verifier::ext_equal]
pub struct PathView {
    pub dir: Dir,
    pub name: Seq<char>,
}

/// Location of a file relative to the store root: a directory and a file
/// name with no separators of its own.
#[derive(Debug)]
pub struct FilePath {
    pub dir: Dir,
    pub name: String,
}

impl View for FilePath {
    type V = PathView;

    open spec fn view(&self) -> PathView {
        PathView { dir: self.dir, name: self.name@ }
    }
}

impl Clone for FilePath {
    fn clone(&self) -> (r: Self)
        ensures
            r == *self,
    {
        FilePath { dir: self.dir, name: self.name.clone() }
    }
}

/// Compares two paths; equality of the values coincides with equality of
/// their views.
pub fn path_eq(a: &FilePath, b: &FilePath) -> (r: bool)
    ensures
        r == (a@ == b@),
{
    let same = match (a.dir, b.dir) {
        (Dir::Chunks, Dir::Chunks) => true,
        (Dir::Staging, Dir::Staging) => true,
        _ => false,
    };
    let r = same && a.name == b.name;
    proof {
        if r {
            assert(a@ =~= b@);
        }
    }
    r
}

/// Mathematical value of a [`Chunk`] record.
#[verifier::ext_equal]
pub struct ChunkView {
    pub id: i32,
    pub name: Seq<char>,
    pub path: PathView,
    pub size: u64,
    pub content_type: Option<Seq<char>>,
    pub created_at: i64,
    pub updated_at: i64,
}

/// Value of an optional text field.
pub open spec fn opt_view(o: Option<String>) -> Option<Seq<char>> {
    match o {
        Some(s) => Some(s@),
        None => None,
    }
}

/// One live registry row: the metadata the service keeps about a stored
/// blob.  `id` is registry-assigned and immutable; `filename` is the
/// externally visible name, unique across live records; `file_path` is
/// derived from the name at creation time; `size` is measured from the
/// persisted bytes, never taken from the client.
#[derive(Debug)]
pub struct Chunk {
    pub id: i32,
    pub filename: String,
    pub file_path: FilePath,
    pub size: u64,
    pub content_type: Option<String>,
    pub created_at: i64,
    pub updated_at: i64,
}

impl View for Chunk {
    type V = ChunkView;

    open spec fn view(&self) -> ChunkView {
        ChunkView {
            id: self.id,
            name: self.filename@,
            path: self.file_path@,
            size: self.size,
            content_type: opt_view(self.content_type),
            created_at: self.created_at,
            updated_at: self.updated_at,
        }
    }
}

impl Clone for Chunk {
    fn clone(&self) -> (r: Self)
        ensures
            r == *self,
    {
        Chunk {
            id: self.id,
            filename: self.filename.clone(),
            file_path: self.file_path.clone(),
            size: self.size,
            content_type: match &self.content_type {
                Some(s) => Some(s.clone()),
                None => None,
            },
            created_at: self.created_at,
            updated_at: self.updated_at,
        }
    }
}

/// The fields a caller supplies when creating a record; the registry
/// assigns the id and the timestamps.
#[derive(Debug)]
pub struct NewChunk {
    pub filename: String,
    pub file_path: FilePath,
    pub size: u64,
    pub content_type: Option<String>,
}

/// Why a registry mutation was refused.
#[derive(Clone, Copy, PartialEq, Eq, Structural, Debug)]
pub enum RegistryError {
    /// The name already denotes a live record.
    DuplicateName,
    /// No fresh id can be assigned any more.
    IdSpaceExhausted,
}

/// Why a byte-store operation failed.
#[derive(Clone, Copy, PartialEq, Eq, Structural, Debug)]
pub enum FsError {
    /// The write would exceed what the store can accept in one file.
    NoSpace,
}

/// Failure classification surfaced by the store operations.
#[derive(Clone, Copy, PartialEq, Eq, Structural, Debug)]
pub enum StoreError {
    /// The name is empty, holds a path separator, or is a parent- or
    /// current-directory segment.
    InvalidName,
    /// An upload lost the uniqueness race: the name already denotes a
    /// live record, which is left untouched.
    NameAlreadyExists,
    /// No live record with the name exists.
    NotFound,
    /// A record exists but its backing bytes are gone: an invariant
    /// violation, surfaced distinctly so operators can restore the file.
    CorruptedRecord,
    /// The bytes could not be persisted; nothing was recorded.
    StorageWriteFailed,
    /// The bytes of a record could not be removed.
    StorageDeleteFailed,
    /// The registry refused the record for a reason other than a
    /// duplicate name; already-persisted bytes are left as an orphan for
    /// operator reconciliation.
    RegistryWriteFailed,
    /// The registry could not be read.
    RegistryReadFailed,
    /// The record was removed but its bytes were not; the registry is
    /// already consistent with "not live".
    PartialDelete,
}

/// Byte-level statement of name validity: non-empty, free of `/`, `\` and
/// NUL, and not a current- or parent-directory segment.
pub open spec fn valid_name_bytes(bs: Seq<u8>) -> bool {
    &&& bs.len() > 0
    &&& forall|i: int| 0 <= i < bs.len() ==> bs[i] != 47u8 && bs[i] != 92u8 && bs[i] != 0u8
    &&& bs != seq![46u8]
    &&& bs != seq![46u8, 46u8]
}

/// A name is acceptable as an externally supplied identifier when its
/// UTF-8 encoding passes [`valid_name_bytes`].  This is the sole defense
/// against path traversal and runs before any interaction with the store.
pub open spec fn valid_name(s: Seq<char>) -> bool {
    valid_name_bytes(encode_utf8(s))
}

/// Decides [`valid_name`] for a candidate name.
pub fn check_name(name: &str) -> (r: bool)
    ensures
        r == valid_name(name@),
{
    let bs = name.as_bytes();
    if bs.len() == 0 {
        return false;
    }
    if bs.len() == 1 && bs[0] == 46u8 {
        proof {
            assert(bs@ =~= seq![46u8]);
        }
        return false;
    }
    if bs.len() == 2 && bs[0] == 46u8 && bs[1] == 46u8 {
        proof {
            assert(bs@ =~= seq![46u8, 46u8]);
        }
        return false;
    }
    let mut i: usize = 0;
    while i < bs.len()
        invariant
            0 <= i <= bs@.len(),
            bs@ == name.spec_bytes(),
            forall|j: int| 0 <= j < i ==> bs@[j] != 47u8 && bs@[j] != 92u8 && bs@[j] != 0u8,
        decreases bs@.len() - i,
    {
        let b: u8 = bs[i];
        if b == 47u8 || b == 92u8 || b == 0u8 {
            return false;
        }
        i = i + 1;
    }
    proof {
        assert(bs@ != seq![46u8] && bs@ != seq![46u8, 46u8]) by {
            if bs@ == seq![46u8] {
                assert(bs@.len() == 1);
            }
            if bs@ == seq![46u8, 46u8] {
                assert(bs@.len() == 2 && bs@[0] == 46u8 && bs@[1] == 46u8);
            }
        }
    }
    true
}

} // verus!
