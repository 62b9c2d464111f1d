//! The content cache: a persisted mapping from file path to previously
//! extracted text, with a `(modified time, size)` staleness fingerprint.
//!
//! The cache is modelled as a map from path to entry, realised as a vector
//! of entries with pairwise distinct paths. Reading and writing the cache
//! file stays outside the library; the document format itself is defined and
//! verified in [`crate::index_doc`].

use vstd::prelude::*;

use crate::text;
use crate::types::FileType;

verus! {

/// Current cache format version. A persisted document whose version differs
/// is rejected whole: no partial or migrated loads.
pub const INDEX_VERSION: u32 = 1;

/// The mathematical model of an [`IndexEntry`].
pub struct EntryModel {
    /// Path of the cached file.
    pub path: Seq<char>,
    /// Type of the file.
    pub file_type: FileType,
    /// Extracted text.
    pub text: Seq<char>,
    /// Modification timestamp recorded at extraction time (Unix seconds).
    pub modified: u64,
    /// File size in bytes recorded at extraction time.
    pub size: u64,
}

/// A single cache entry: one file's extracted text and its staleness
/// fingerprint.
#[derive(Debug, Clone)]
pub struct IndexEntry {
    /// Path to the file.
    pub path: String,
    /// Type of the file.
    pub file_type: FileType,
    /// Extracted text content of the file.
    pub extracted_text: String,
    /// File modification timestamp (Unix seconds).
    pub modified_timestamp: u64,
    /// File size in bytes.
    pub file_size: u64,
}

impl View for IndexEntry {
    type V = EntryModel;

    open spec fn view(&self) -> EntryModel {
        EntryModel {
            path: self.path@,
            file_type: self.file_type,
            text: self.extracted_text@,
            modified: self.modified_timestamp,
            size: self.file_size,
        }
    }
}

impl DeepView for IndexEntry {
    type V = EntryModel;

    open spec fn deep_view(&self) -> EntryModel {
        self.view()
    }
}

impl IndexEntry {
    /// Create a new cache entry.
    pub fn new(
        path: String,
        file_type: FileType,
        extracted_text: String,
        modified_timestamp: u64,
        file_size: u64,
    ) -> (r: Self)
        ensures
            r@ == (EntryModel {
                path: path@,
                file_type,
                text: extracted_text@,
                modified: modified_timestamp,
                size: file_size,
            }),
    {
        Self { path, file_type, extracted_text, modified_timestamp, file_size }
    }

    /// Whether this entry is stale: the file's live fingerprint differs from
    /// the recorded one in either field.
    pub fn is_stale(&self, current_modified: u64, current_size: u64) -> (r: bool)
        ensures
            r == (self.modified_timestamp != current_modified || self.file_size != current_size),
    {
        self.modified_timestamp != current_modified || self.file_size != current_size
    }
}

/// The mathematical model of an [`Index`].
pub struct IndexModel {
    /// Format version.
    pub version: u32,
    /// The directory this cache covers.
    pub directory: Seq<char>,
    /// Creation timestamp (Unix seconds).
    pub created_at: u64,
    /// Last-update timestamp (Unix seconds).
    pub updated_at: u64,
    /// The entries, in insertion order, with pairwise distinct paths.
    pub entries: Seq<EntryModel>,
}

/// Pairwise distinct entry paths.
pub open spec fn paths_unique(entries: Seq<EntryModel>) -> bool {
    forall|i: int, j: int|
        0 <= i < j < entries.len() ==> (#[trigger] entries[i]).path != (#[trigger] entries[j]).path
}

/// The map from path to entry that an entry sequence holds; later entries
/// override earlier ones.
pub open spec fn entries_map_of(entries: Seq<EntryModel>) -> Map<Seq<char>, EntryModel>
    decreases entries.len(),
{
    if entries.len() == 0 {
        Map::empty()
    } else {
        entries_map_of(entries.drop_last()).insert(entries.last().path, entries.last())
    }
}

impl IndexModel {
    /// Entry paths are pairwise distinct, so the entry sequence faithfully
    /// realises the path-to-entry map.
    pub open spec fn wf(self) -> bool {
        paths_unique(self.entries)
    }

    /// The map from path to cached entry.
    pub open spec fn entries_map(self) -> Map<Seq<char>, EntryModel> {
        entries_map_of(self.entries)
    }
}

/// Every entry of a unique sequence is bound to its path in the map.
pub proof fn lemma_map_of_index(entries: Seq<EntryModel>, i: int)
    requires
        paths_unique(entries),
        0 <= i < entries.len(),
    ensures
        entries_map_of(entries).contains_key(entries[i].path),
        entries_map_of(entries)[entries[i].path] == entries[i],
    decreases entries.len(),
{
    if i < entries.len() - 1 {
        assert(paths_unique(entries.drop_last())) by {
            assert(forall|k: int, l: int|
                0 <= k < l < entries.drop_last().len() ==> (#[trigger] entries.drop_last()[k]).path
                    != (#[trigger] entries.drop_last()[l]).path) by {
                assert(forall|k: int|
                    0 <= k < entries.drop_last().len() ==> entries.drop_last()[k] == entries[k]);
            }
        }
        lemma_map_of_index(entries.drop_last(), i);
        assert(entries[i].path != entries.last().path);
    }
}

/// A path held by no entry is not in the map.
pub proof fn lemma_map_of_absent(entries: Seq<EntryModel>, p: Seq<char>)
    requires
        forall|i: int| 0 <= i < entries.len() ==> (#[trigger] entries[i]).path != p,
    ensures
        !entries_map_of(entries).contains_key(p),
    decreases entries.len(),
{
    if entries.len() > 0 {
        lemma_map_of_absent(entries.drop_last(), p);
    }
}

/// Replacing the entry that holds a path updates the map at that path.
proof fn lemma_map_of_update(entries: Seq<EntryModel>, i: int, e: EntryModel)
    requires
        paths_unique(entries),
        0 <= i < entries.len(),
        entries[i].path == e.path,
    ensures
        entries_map_of(entries.update(i, e)) == entries_map_of(entries).insert(e.path, e),
        paths_unique(entries.update(i, e)),
    decreases entries.len(),
{
    let updated = entries.update(i, e);
    assert(paths_unique(updated)) by {
        assert(forall|k: int|
            0 <= k < entries.len() && k != i ==> (#[trigger] updated[k]).path == entries[k].path);
    }
    if i == entries.len() - 1 {
        assert(updated.drop_last() =~= entries.drop_last());
        assert(entries_map_of(entries.drop_last()).insert(entries.last().path, entries.last())
            .insert(e.path, e) =~= entries_map_of(entries.drop_last()).insert(e.path, e));
    } else {
        assert(paths_unique(entries.drop_last())) by {
            assert(forall|k: int|
                0 <= k < entries.drop_last().len() ==> entries.drop_last()[k] == entries[k]);
        }
        lemma_map_of_update(entries.drop_last(), i, e);
        assert(updated.drop_last() =~= entries.drop_last().update(i, e));
        assert(updated.last() == entries.last());
        assert(e.path != entries.last().path);
        assert(entries_map_of(entries.drop_last()).insert(e.path, e).insert(
            entries.last().path,
            entries.last(),
        ) =~= entries_map_of(entries.drop_last()).insert(entries.last().path, entries.last())
            .insert(e.path, e));
    }
}

/// The entries of `entries` whose paths are listed in `present`, in order.
pub open spec fn kept_entries(entries: Seq<EntryModel>, present: Seq<Seq<char>>) -> Seq<EntryModel>
    decreases entries.len(),
{
    if entries.len() == 0 {
        Seq::empty()
    } else if present.contains(entries.first().path) {
        seq![entries.first()] + kept_entries(entries.drop_first(), present)
    } else {
        kept_entries(entries.drop_first(), present)
    }
}

/// Every kept entry is one of the original entries.
proof fn lemma_kept_subset(entries: Seq<EntryModel>, present: Seq<Seq<char>>)
    ensures
        forall|k: int|
            0 <= k < kept_entries(entries, present).len() ==> entries.contains(
                #[trigger] kept_entries(entries, present)[k],
            ),
    decreases entries.len(),
{
    if entries.len() > 0 {
        lemma_kept_subset(entries.drop_first(), present);
        assert forall|k: int| 0 <= k < kept_entries(entries, present).len() implies entries.contains(
            #[trigger] kept_entries(entries, present)[k],
        ) by {
            let kept = kept_entries(entries, present);
            let tail_kept = kept_entries(entries.drop_first(), present);
            if present.contains(entries.first().path) {
                if k == 0 {
                    assert(kept[0] == entries.first());
                    assert(entries[0] == entries.first());
                } else {
                    assert(kept[k] == tail_kept[k - 1]);
                    assert(entries.drop_first().contains(tail_kept[k - 1]));
                    let km1 = tail_kept[k - 1];
                    let w = choose|w: int|
                        0 <= w < entries.drop_first().len() && entries.drop_first()[w] == km1;
                    assert(entries[w + 1] == tail_kept[k - 1]);
                }
            } else {
                assert(kept[k] == tail_kept[k]);
                assert(entries.drop_first().contains(tail_kept[k]));
                let w = choose|w: int|
                    0 <= w < entries.drop_first().len() && entries.drop_first()[w] == tail_kept[k];
                assert(entries[w + 1] == tail_kept[k]);
            }
        }
    }
}

/// Keeping a subset of a unique entry sequence keeps its paths unique.
proof fn lemma_kept_unique(entries: Seq<EntryModel>, present: Seq<Seq<char>>)
    requires
        paths_unique(entries),
    ensures
        paths_unique(kept_entries(entries, present)),
    decreases entries.len(),
{
    if entries.len() > 0 {
        let tail = entries.drop_first();
        assert(paths_unique(tail)) by {
            assert(forall|k: int| 0 <= k < tail.len() ==> tail[k] == entries[k + 1]);
        }
        lemma_kept_unique(tail, present);
        lemma_kept_subset(tail, present);
        let kept = kept_entries(entries, present);
        let tail_kept = kept_entries(tail, present);
        if present.contains(entries.first().path) {
            assert forall|k: int| 0 <= k < tail_kept.len() implies (#[trigger] tail_kept[k]).path
                != entries.first().path by {
                assert(tail.contains(tail_kept[k]));
                let w = choose|w: int| 0 <= w < tail.len() && tail[w] == tail_kept[k];
                assert(entries[w + 1] == tail_kept[k]);
                assert(entries[0].path != entries[w + 1].path);
                assert(entries[0] == entries.first());
            }
            assert(paths_unique(kept)) by {
                assert(forall|k: int| 1 <= k < kept.len() ==> kept[k] == tail_kept[k - 1]);
                assert(kept[0] == entries.first());
            }
        }
    }
}

/// The content cache: a persisted mapping from file path to previously
/// extracted text, with staleness fingerprints.
#[derive(Debug, Clone)]
pub struct Index {
    /// Format version, checked on load.
    pub version: u32,
    /// The directory this cache covers.
    pub directory: String,
    /// Creation timestamp (Unix seconds).
    pub created_at: u64,
    /// Last-update timestamp (Unix seconds).
    pub updated_at: u64,
    /// The cached entries, with pairwise distinct paths.
    pub entries: Vec<IndexEntry>,
}

impl View for Index {
    type V = IndexModel;

    open spec fn view(&self) -> IndexModel {
        IndexModel {
            version: self.version,
            directory: self.directory@,
            created_at: self.created_at,
            updated_at: self.updated_at,
            entries: self.entries.deep_view(),
        }
    }
}

/// Relies on `std::time::SystemTime::now` and
/// `SystemTime::duration_since(UNIX_EPOCH)`: the current Unix timestamp in
/// seconds, or 0 when the clock reads before the epoch. Nothing is assumed
/// about the returned value.
#[verifier::external_body]
pub fn current_timestamp() -> u64 {
    std::time::SystemTime::now()
        .duration_since(std::time::UNIX_EPOCH)
        .map(|d| d.as_secs())
        .unwrap_or(0)
}

impl Index {
    /// Entry paths are pairwise distinct.
    pub open spec fn wf(self) -> bool {
        self@.wf()
    }

    /// Create a new empty cache for the given directory, stamped with the
    /// current time.
    pub fn new(directory: String) -> (r: Self)
        ensures
            r@.version == INDEX_VERSION,
            r@.directory == directory@,
            r@.created_at == r@.updated_at,
            r@.entries.len() == 0,
            r.wf(),
    {
        let now = current_timestamp();
        let r = Self {
            version: INDEX_VERSION,
            directory,
            created_at: now,
            updated_at: now,
            entries: Vec::new(),
        };
        proof {
            assert(r@.entries =~= Seq::<EntryModel>::empty());
        }
        r
    }

    /// The number of cached entries.
    pub fn len(&self) -> (r: usize)
        ensures
            r == self@.entries.len(),
    {
        self.entries.len()
    }

    /// Whether the cache holds no entries.
    pub fn is_empty(&self) -> (r: bool)
        ensures
            r == (self@.entries.len() == 0),
    {
        self.entries.is_empty()
    }

    /// Stamp the cache as updated now.
    pub fn touch(&mut self)
        ensures
            final(self)@.version == old(self)@.version,
            final(self)@.directory == old(self)@.directory,
            final(self)@.created_at == old(self)@.created_at,
            final(self)@.entries == old(self)@.entries,
    {
        self.updated_at = current_timestamp();
    }

    /// Insert or replace an entry, keyed by its path.
    pub fn upsert_entry(&mut self, entry: IndexEntry)
        requires
            old(self).wf(),
        ensures
            final(self).wf(),
            final(self)@.version == old(self)@.version,
            final(self)@.directory == old(self)@.directory,
            final(self)@.created_at == old(self)@.created_at,
            final(self)@.updated_at == old(self)@.updated_at,
            final(self)@.entries_map() == old(self)@.entries_map().insert(entry@.path, entry@),
    {
        let ghost old_entries = self@.entries;
        let mut i: usize = 0;
        while i < self.entries.len()
            invariant
                i <= self.entries@.len(),
                *self == *old(self),
                old_entries == old(self)@.entries,
                paths_unique(old_entries),
                forall|k: int| 0 <= k < i ==> (#[trigger] old_entries[k]).path != entry@.path,
            decreases self.entries@.len() - i,
        {
            if text::str_eq(self.entries[i].path.as_str(), entry.path.as_str()) {
                proof {
                    assert(old_entries[i as int].path == entry@.path);
                }
                self.entries.set(i, entry);
                proof {
                    assert(self@.entries =~~= old_entries.update(i as int, entry@));
                    lemma_map_of_update(old_entries, i as int, entry@);
                }
                return ;
            }
            i = i + 1;
        }
        self.entries.push(entry);
        proof {
            assert(self@.entries =~~= old_entries.push(entry@));
            assert(self@.entries.drop_last() =~= old_entries);
            assert(self@.entries.last() == entry@);
            assert(paths_unique(self@.entries)) by {
                assert(forall|k: int|
                    0 <= k < old_entries.len() ==> (#[trigger] self@.entries[k]) == old_entries[k]);
            }
        }
    }

    /// Look the path up and return its entry when the live fingerprint
    /// `(current_modified, current_size)` matches the recorded one; absent
    /// paths and stale entries give `None`.
    pub fn get_valid_entry(&self, path: &str, current_modified: u64, current_size: u64) -> (r:
        Option<&IndexEntry>)
        requires
            self.wf(),
        ensures
            match r {
                Some(e) => {
                    &&& self@.entries_map().contains_key(path@)
                    &&& e@ == self@.entries_map()[path@]
                    &&& e@.modified == current_modified
                    &&& e@.size == current_size
                },
                None => {
                    ||| !self@.entries_map().contains_key(path@)
                    ||| self@.entries_map()[path@].modified != current_modified
                    ||| self@.entries_map()[path@].size != current_size
                },
            },
    {
        let mut i: usize = 0;
        while i < self.entries.len()
            invariant
                i <= self.entries@.len(),
                self.wf(),
                forall|k: int| 0 <= k < i ==> (#[trigger] self@.entries[k]).path != path@,
            decreases self.entries@.len() - i,
        {
            if text::str_eq(self.entries[i].path.as_str(), path) {
                proof {
                    lemma_map_of_index(self@.entries, i as int);
                }
                let e = &self.entries[i];
                if e.is_stale(current_modified, current_size) {
                    return None;
                }
                return Some(e);
            }
            i = i + 1;
        }
        proof {
            lemma_map_of_absent(self@.entries, path@);
        }
        None
    }

    /// Drop every entry whose path is not among `present`, keeping the rest
    /// in order. Run before persisting, with `present` holding the paths
    /// that still exist.
    pub fn prune_missing(&mut self, present: &Vec<String>)
        requires
            old(self).wf(),
        ensures
            final(self).wf(),
            final(self)@.version == old(self)@.version,
            final(self)@.directory == old(self)@.directory,
            final(self)@.created_at == old(self)@.created_at,
            final(self)@.updated_at == old(self)@.updated_at,
            final(self)@.entries == kept_entries(old(self)@.entries, present.deep_view()),
    {
        let ghost old_entries = self@.entries;
        let ghost present_spec = present.deep_view();
        let mut kept: Vec<IndexEntry> = Vec::new();
        let mut i: usize = 0;
        let n = self.entries.len();
        proof {
            assert(old_entries.skip(0) =~= old_entries);
            assert(kept.deep_view() + kept_entries(old_entries, present_spec) =~= kept_entries(
                old_entries,
                present_spec,
            ));
        }
        while i < n
            invariant
                i <= n,
                n == self.entries@.len(),
                self@.entries == old_entries,
                present_spec == present.deep_view(),
                kept_entries(old_entries, present_spec) == kept.deep_view() + kept_entries(
                    old_entries.skip(i as int),
                    present_spec,
                ),
            decreases n - i,
        {
            let ghost rest = old_entries.skip(i as int);
            proof {
                assert(rest.first() == old_entries[i as int]);
                assert(rest.drop_first() =~= old_entries.skip(i + 1));
                assert(self.entries.deep_view()[i as int] == self.entries@[i as int].deep_view());
            }
            let ghost old_kept = kept.deep_view();
            if contains_string(present, self.entries[i].path.as_str()) {
                kept.push(self.entries[i].clone_entry());
                proof {
                    assert(kept.deep_view() =~~= old_kept + seq![old_entries[i as int]]);
                    assert((old_kept + seq![old_entries[i as int]]) + kept_entries(
                        old_entries.skip(i + 1),
                        present_spec,
                    ) =~= old_kept + (seq![old_entries[i as int]] + kept_entries(
                        old_entries.skip(i + 1),
                        present_spec,
                    )));
                }
            }
            i = i + 1;
        }
        proof {
            assert(old_entries.skip(n as int) =~= Seq::<EntryModel>::empty());
        }
        self.entries = kept;
        proof {
            lemma_kept_unique(old_entries, present_spec);
        }
    }
}

impl IndexEntry {
    /// Copy an entry field by field.
    pub fn clone_entry(&self) -> (r: Self)
        ensures
            r@ == self@,
    {
        IndexEntry {
            path: self.path.clone(),
            file_type: self.file_type,
            extracted_text: self.extracted_text.clone(),
            modified_timestamp: self.modified_timestamp,
            file_size: self.file_size,
        }
    }
}

/// Whether `list` holds a string equal to `s`.
pub fn contains_string(list: &Vec<String>, s: &str) -> (r: bool)
    ensures
        r == list.deep_view().contains(s@),
{
    let mut i: usize = 0;
    while i < list.len()
        invariant
            i <= list@.len(),
            forall|k: int| 0 <= k < i ==> list.deep_view()[k] != s@,
        decreases list@.len() - i,
    {
        proof {
            assert(list.deep_view()[i as int] == list@[i as int].deep_view());
        }
        if text::str_eq(list[i].as_str(), s) {
            proof {
                assert(list.deep_view()[i as int] == s@);
            }
            return true;
        }
        i = i + 1;
    }
    proof {
        if list.deep_view().contains(s@) {
            let w = choose|w: int| 0 <= w < list.deep_view().len() && list.deep_view()[w] == s@;
            assert(false);
        }
    }
    false
}

/// Errors of cache loading and saving.
#[derive(Debug)]
pub enum IndexError {
    /// The cache file was not found; the payload is its path.
    NotFound(String),
    /// Reading or writing failed; the payload describes the failure.
    IoError(String),
    /// The cache document could not be parsed; the payload describes the
    /// failure.
    ParseError(String),
    /// The document's format version differs from the running program's.
    VersionMismatch {
        /// The version this library expects.
        expected: u32,
        /// The version the document holds.
        found: u32,
    },
}

impl IndexError {
    /// A human-readable description of the error.
    pub fn message(&self) -> (r: String)
        ensures
            r@ == match *self {
                IndexError::NotFound(p) => "Index file not found: "@ + p@,
                IndexError::IoError(m) => "IO error: "@ + m@,
                IndexError::ParseError(m) => "Failed to parse index: "@ + m@,
                IndexError::VersionMismatch { expected, found } => "Index version mismatch: expected "@
                    + crate::digits::dec_digits(expected as nat) + ", found "@
                    + crate::digits::dec_digits(found as nat),
            },
    {
        match self {
            IndexError::NotFound(p) => {
                let mut s = "Index file not found: ".to_owned();
                s.append(p.as_str());
                s
            },
            IndexError::IoError(m) => {
                let mut s = "IO error: ".to_owned();
                s.append(m.as_str());
                s
            },
            IndexError::ParseError(m) => {
                let mut s = "Failed to parse index: ".to_owned();
                s.append(m.as_str());
                s
            },
            IndexError::VersionMismatch { expected, found } => {
                let mut s = "Index version mismatch: expected ".to_owned();
                let e = crate::digits::u64_to_dec(*expected as u64);
                s.append(crate::text::string_from_chars(&e).as_str());
                s.append(", found ");
                let f = crate::digits::u64_to_dec(*found as u64);
                s.append(crate::text::string_from_chars(&f).as_str());
                s
            },
        }
    }
}

} // verus!
