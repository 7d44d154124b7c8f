//! The manifest resolver: a read-only, load-once mapping from a logical
//! asset identifier to a content-hashed filename.
//!
//! A missing or unparsable manifest source degrades to an empty mapping —
//! every lookup answers "not found" — rather than aborting startup; this
//! deliberately favors availability over strictness.  Since an identifier,
//! once bound, is never rebound (new content gets a new hashed name), a
//! successful resolution may be served with long-lived immutable cache
//! directives.

use std::collections::BTreeMap;

use vstd::prelude::*;

verus! {

/// Entries a manifest source parses to: `None` when the source is not a
/// JSON object of strings, otherwise one key-to-filename pair per (unique)
/// key.  Named rather than spelled out: the entries are a function of the
/// source text alone, fixed by serde_json's grammar.
pub uninterp spec fn manifest_entries_of(s: Seq<char>) -> Option<Seq<(Seq<char>, Seq<char>)>>;

/// The values of a vector of entry pairs.
pub open spec fn entries_view(v: Seq<(String, String)>) -> Seq<(Seq<char>, Seq<char>)> {
    v.map_values(|p: (String, String)| (p.0@, p.1@))
}

/// No two entries share a key.
pub open spec fn distinct_keys(e: Seq<(Seq<char>, Seq<char>)>) -> bool {
    forall|i: int, j: int| 0 <= i < j < e.len() ==> e[i].0 != e[j].0
}

/// The mapping described by a sequence of entries; a later entry overrides
/// an earlier one with the same key.
pub open spec fn pairs_map(e: Seq<(Seq<char>, Seq<char>)>) -> Map<Seq<char>, Seq<char>>
    decreases e.len(),
{
    if e.len() == 0 {
        Map::empty()
    } else {
        pairs_map(e.drop_last()).insert(e.last().0, e.last().1)
    }
}

/// The mapping a manifest source loads to: empty when it does not parse.
pub open spec fn loaded_map(s: Seq<char>) -> Map<Seq<char>, Seq<char>> {
    match manifest_entries_of(s) {
        None => Map::<Seq<char>, Seq<char>>::empty(),
        Some(e) => pairs_map(e),
    }
}

/// The mapping of a distinct entry sequence holds exactly its entries.
proof fn lemma_pairs_map(e: Seq<(Seq<char>, Seq<char>)>)
    requires
        distinct_keys(e),
    ensures
        forall|k: Seq<char>|
            pairs_map(e).contains_key(k) <==> exists|i: int| 0 <= i < e.len() && e[i].0 == k,
        forall|i: int|
            0 <= i < e.len() ==> pairs_map(e).contains_key(#[trigger] e[i].0) && pairs_map(
                e,
            )[e[i].0] == e[i].1,
    decreases e.len(),
{
    if e.len() > 0 {
        let e0 = e.drop_last();
        assert(distinct_keys(e0)) by {
            assert(forall|i: int, j: int| 0 <= i < j < e0.len() ==> e0[i] == e[i] && e0[j] == e[j]);
        }
        lemma_pairs_map(e0);
        assert forall|k: Seq<char>| pairs_map(e).contains_key(k) implies exists|i: int|
            0 <= i < e.len() && e[i].0 == k by {
            if k == e.last().0 {
                assert(e[e.len() - 1].0 == k);
            } else {
                assert(pairs_map(e0).contains_key(k));
                assert(exists|i: int| 0 <= i < e0.len() && e0[i].0 == k);
                let i = choose|i: int| 0 <= i < e0.len() && e0[i].0 == k;
                assert(e0[i] == e[i]);
                assert(e[i].0 == k);
            }
        }
        assert forall|i: int| 0 <= i < e.len() implies pairs_map(e).contains_key(
            #[trigger] e[i].0,
        ) && pairs_map(e)[e[i].0] == e[i].1 by {
            if i == e.len() - 1 {
            } else {
                assert(e0[i] == e[i]);
                assert(e[i].0 != e.last().0);
            }
        }
    }
}

/// Relies on `serde_json::from_str` deserializing into an ordered
/// string-to-string map: it succeeds exactly when the source is a JSON
/// object whose values are all strings, yielding one entry per key with
/// keys unique, and fails on any other source.  The outcome is a function
/// of the source text alone.
#[verifier::external_body]
fn parse_manifest(source: &str) -> (r: Option<Vec<(String, String)>>)
    ensures
        r is Some <==> manifest_entries_of(source@) is Some,
        r matches Some(v) ==> ({
            &&& manifest_entries_of(source@) == Some(entries_view(v@))
            &&& distinct_keys(entries_view(v@))
        }),
{
    match serde_json::from_str::<BTreeMap<String, String>>(source) {
        Ok(m) => Some(m.into_iter().collect()),
        Err(_) => None,
    }
}

/// The load-once resolver.  Its mathematical value is the mapping from
/// identifiers to filenames; after construction it is never mutated.
pub struct ManifestResolver {
    pub entries: Vec<(String, String)>,
}

impl View for ManifestResolver {
    type V = Map<Seq<char>, Seq<char>>;

    open spec fn view(&self) -> Map<Seq<char>, Seq<char>> {
        pairs_map(entries_view(self.entries@))
    }
}

impl ManifestResolver {
    /// Well-formed: one entry per identifier.
    pub open spec fn wf(self) -> bool {
        distinct_keys(entries_view(self.entries@))
    }

    /// A resolver holding nothing.
    pub fn empty() -> (r: Self)
        ensures
            r.wf(),
            r@ == Map::<Seq<char>, Seq<char>>::empty(),
    {
        let r = ManifestResolver { entries: Vec::new() };
        proof {
            assert(entries_view(r.entries@) =~= Seq::<(Seq<char>, Seq<char>)>::empty());
        }
        r
    }

    /// A resolver over the given entries.
    pub fn from_entries(entries: Vec<(String, String)>) -> (r: Self)
        requires
            distinct_keys(entries_view(entries@)),
        ensures
            r.wf(),
            r@ == pairs_map(entries_view(entries@)),
    {
        ManifestResolver { entries }
    }

    /// Loads the mapping from a manifest source read at startup: `None`
    /// (no source found) or an unparsable source degrades to the empty
    /// mapping, so every later lookup fails open to "not found" instead of
    /// the process failing to start.
    pub fn load(source: Option<&str>) -> (r: Self)
        ensures
            r.wf(),
            source is None ==> r@ == Map::<Seq<char>, Seq<char>>::empty(),
            source matches Some(s) ==> r@ == loaded_map(s@),
    {
        match source {
            None => Self::empty(),
            Some(s) => {
                match parse_manifest(s) {
                    None => Self::empty(),
                    Some(v) => Self::from_entries(v),
                }
            },
        }
    }

    /// Resolves an identifier to its content-hashed filename.  A pure
    /// lookup: an identifier outside the mapping — always, with an empty
    /// or failed-open manifest — answers `None`, never a fault.
    pub fn resolve(&self, id: &str) -> (r: Option<String>)
        requires
            self.wf(),
        ensures
            r is Some <==> self@.contains_key(id@),
            r matches Some(f) ==> f@ == self@[id@],
    {
        proof {
            lemma_pairs_map(entries_view(self.entries@));
        }
        let owned = id.to_owned();
        let mut i: usize = 0;
        while i < self.entries.len()
            invariant
                self.wf(),
                owned@ == id@,
                0 <= i <= self.entries@.len(),
                forall|j: int| 0 <= j < i ==> entries_view(self.entries@)[j].0 != id@,
            decreases self.entries@.len() - i,
        {
            proof {
                assert(entries_view(self.entries@)[i as int] == (
                    self.entries@[i as int].0@,
                    self.entries@[i as int].1@,
                ));
            }
            if self.entries[i].0 == owned {
                proof {
                    lemma_pairs_map(entries_view(self.entries@));
                    let e = entries_view(self.entries@);
                    assert(pairs_map(e).contains_key(e[i as int].0) && pairs_map(e)[e[i as int].0]
                        == e[i as int].1);
                }
                return Some(self.entries[i].1.clone());
            }
            i = i + 1;
        }
        None
    }

    /// How many identifiers the manifest binds.
    pub fn len(&self) -> (r: usize)
        ensures
            r == self.entries@.len(),
    {
        self.entries.len()
    }
}

/// Response class for a manifest-mode fetch.
#[derive(Clone, Copy, PartialEq, Eq, Structural, Debug)]
pub enum FetchClass {
    /// Serve the opened file, annotated with immutable cache directives.
    ServeCached,
    /// The identifier is not in the manifest: plain not-found.
    UnknownId,
    /// The manifest binds the identifier but the file could not be opened:
    /// an internal error distinct from not-found, so "unknown id" can be
    /// told from "corrupted deployment".
    CorruptDeployment,
}

/// Decides the response class for a manifest fetch from whether the
/// identifier resolved and whether the resolved file then opened.
pub fn classify_fetch(resolved: bool, opened: bool) -> (r: FetchClass)
    ensures
        !resolved ==> r == FetchClass::UnknownId,
        resolved && opened ==> r == FetchClass::ServeCached,
        resolved && !opened ==> r == FetchClass::CorruptDeployment,
{
    if !resolved {
        FetchClass::UnknownId
    } else if opened {
        FetchClass::ServeCached
    } else {
        FetchClass::CorruptDeployment
    }
}

/// The cache directives attached to every successful manifest resolution:
/// the identifier-to-bytes binding is permanent by construction, so
/// clients may cache aggressively.
pub fn cache_control() -> (r: &'static str)
    ensures
        r@ == "public, max-age=86400, immutable"@,
{
    "public, max-age=86400, immutable"
}

/// Law: a manifest source that does not parse binds nothing, so every
/// identifier fails open to "not found".
pub proof fn lemma_fail_open_is_empty(s: Seq<char>, id: Seq<char>)
    requires
        manifest_entries_of(s) is None,
    ensures
        !loaded_map(s).contains_key(id),
{
}

} // verus!
