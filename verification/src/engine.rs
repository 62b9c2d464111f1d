//! The search engine: pattern compilation, file-collection rules, the
//! per-file matching pipeline, statistics aggregation and final ranking.
//!
//! All file-system work — walking directories, reading bytes, statting
//! fingerprints — stays with the caller, which drives one independent task
//! per file; every decision those tasks take is a verified function here.

use vstd::prelude::*;

use crate::index::{Index, IndexError};
use crate::matcher::{is_literal_of, is_regex_of, regex_compiles, CompiledPattern};
use crate::rank;
use crate::text;
use crate::types::{FileType, IndexConfig, Match, SearchConfig, SearchResult, SearchStats};

verus! {

/// The directory names always skipped by the collector, regardless of the
/// hidden-files setting: version-control metadata and dependency or build
/// output directories.
pub open spec fn is_skip_dir(n: Seq<char>) -> bool {
    ||| n == "node_modules"@
    ||| n == "target"@
    ||| n == "__pycache__"@
    ||| n == ".git"@
    ||| n == ".svn"@
    ||| n == ".hg"@
    ||| n == "vendor"@
    ||| n == "dist"@
    ||| n == "build"@
    ||| n == ".cache"@
    ||| n == ".npm"@
    ||| n == ".cargo"@
}

/// An extension from the allowlist, normalised: case-folded, with leading
/// dots stripped.
pub open spec fn strip_dots(s: Seq<char>) -> Seq<char>
    decreases s.len(),
{
    if s.len() > 0 && s[0] == '.' {
        strip_dots(s.drop_first())
    } else {
        s
    }
}

/// Whether the allowlist admits a file extension: an empty allowlist admits
/// everything; otherwise the case-folded extension must equal some
/// normalised allowlist entry.
pub open spec fn extension_admitted(allow: Seq<Seq<char>>, ext: Seq<char>) -> bool {
    ||| allow.len() == 0
    ||| exists|i: int|
        0 <= i < allow.len() && strip_dots(text::lower_seq(#[trigger] allow[i])) == text::lower_seq(
            ext,
        )
}

/// Strip leading dots from a character vector.
fn strip_dots_vec(v: Vec<char>) -> (r: Vec<char>)
    ensures
        r@ == strip_dots(v@),
{
    let mut start: usize = 0;
    while start < v.len() && v[start] == '.'
        invariant
            start <= v@.len(),
            forall|j: int| 0 <= j < start ==> v@[j] == '.',
        decreases v@.len() - start,
    {
        start = start + 1;
    }
    proof {
        lemma_strip_dots_skip(v@, start as int);
    }
    text::sub_chars(&v, start, v.len())
}

proof fn lemma_strip_dots_skip(s: Seq<char>, i: int)
    requires
        0 <= i <= s.len(),
        forall|j: int| 0 <= j < i ==> s[j] == '.',
        i < s.len() ==> s[i] != '.',
    ensures
        strip_dots(s) == s.skip(i),
    decreases i,
{
    if i == 0 {
        assert(s.skip(0) =~= s);
    } else {
        lemma_strip_dots_skip(s.drop_first(), i - 1);
        assert(s.drop_first().skip(i - 1) =~= s.skip(i));
    }
}

/// Compare two character vectors.
fn chars_eq(a: &Vec<char>, b: &Vec<char>) -> (r: bool)
    ensures
        r == (a@ == b@),
{
    if a.len() != b.len() {
        return false;
    }
    let mut i: usize = 0;
    while i < a.len()
        invariant
            i <= a@.len(),
            a@.len() == b@.len(),
            forall|j: int| 0 <= j < i ==> a@[j] == b@[j],
        decreases a@.len() - i,
    {
        if a[i] != b[i] {
            return false;
        }
        i = i + 1;
    }
    proof {
        assert(a@ =~= b@);
    }
    true
}

/// Whether searching this category needs the file's leading bytes sniffed
/// for binary content: PDF and DOCX files are always searched, image files
/// exactly when OCR is enabled, and all other categories only after their
/// content passes the binary sniff.
pub fn include_by_category(ft: FileType, ocr_enabled: bool) -> (r: Option<bool>)
    ensures
        r == match ft {
            FileType::Pdf | FileType::Docx => Some(true),
            FileType::Image => Some(ocr_enabled),
            FileType::Text | FileType::Code | FileType::Other => None::<bool>,
        },
{
    match ft {
        FileType::Pdf | FileType::Docx => Some(true),
        FileType::Image => Some(ocr_enabled),
        FileType::Text | FileType::Code | FileType::Other => None,
    }
}

/// Whether the cache should be consulted or written at all.
pub fn wants_index(index_config: &IndexConfig) -> (r: bool)
    ensures
        r == (index_config.use_index || index_config.save_index),
{
    index_config.use_index || index_config.save_index
}

/// Choose the cache for a run from a load attempt: a loaded cache is used; a
/// failed load falls back to a fresh, empty cache when this run will save
/// one, and to no cache otherwise.
pub fn resolve_index(index_config: &IndexConfig, directory: String, load_result: Result<
    Index,
    IndexError,
>) -> (r: Option<Index>)
    requires
        load_result matches Ok(i) ==> i.wf(),
    ensures
        load_result matches Ok(i) ==> r == Some(i),
        load_result is Err && index_config.save_index ==> (r matches Some(i) && i.wf()
            && i@.entries.len() == 0 && i@.directory == directory@),
        load_result is Err && !index_config.save_index ==> r is None,
        r matches Some(i) ==> i.wf(),
{
    match load_result {
        Ok(i) => Some(i),
        Err(_) => {
            if index_config.save_index {
                Some(Index::new(directory))
            } else {
                None
            }
        },
    }
}

/// The search engine: the configuration, the compiled pattern and the cache
/// snapshot the run reads.
pub struct SearchEngine {
    /// Search configuration.
    pub config: SearchConfig,
    /// Cache configuration.
    pub index_config: IndexConfig,
    /// The compiled search pattern.
    pub pattern: CompiledPattern,
    /// The cache snapshot consulted during the run, if any.
    pub index: Option<Index>,
}

impl SearchEngine {
    /// The pattern is well-formed and any cache is well-formed.
    pub open spec fn wf(self) -> bool {
        &&& self.pattern.wf()
        &&& (self.index matches Some(i) ==> i.wf())
    }

    /// Create a search engine: compiles the pattern (a regular expression
    /// when configured so, else a case-folded literal) and adopts the given
    /// cache snapshot. Fails exactly when a requested regular expression
    /// does not compile; that failure is fatal to the run.
    pub fn new(config: SearchConfig, index_config: IndexConfig, index: Option<Index>) -> (r: Result<
        Self,
        regex::Error,
    >)
        requires
            index matches Some(i) ==> i.wf(),
        ensures
            r is Ok <==> (!config.use_regex || regex_compiles(
                config.pattern@,
                !config.case_sensitive,
            )),
            r matches Ok(e) ==> {
                &&& e.wf()
                &&& e.config == config
                &&& e.index_config == index_config
                &&& e.index == index
                &&& (config.use_regex ==> is_regex_of(
                    e.pattern,
                    config.pattern@,
                    !config.case_sensitive,
                ))
                &&& (!config.use_regex ==> is_literal_of(
                    e.pattern,
                    config.pattern@,
                    config.case_sensitive,
                ))
            },
    {
        let pattern = match CompiledPattern::new(
            config.pattern.as_str(),
            config.case_sensitive,
            config.use_regex,
        ) {
            Ok(p) => p,
            Err(e) => {
                return Err(e);
            },
        };
        Ok(SearchEngine { config, index_config, pattern, index })
    }

    /// Whether the collector descends into or keeps a directory entry: the
    /// root always passes; hidden names pass only when configured; the
    /// well-known dependency and build directories never pass.
    pub fn should_process_entry(&self, name: &str, depth: usize, is_dir: bool) -> (r: bool)
        ensures
            r == (depth == 0 || (!(!self.config.include_hidden && name@.len() > 0 && name@[0]
                == '.') && !(is_dir && is_skip_dir(name@)))),
    {
        if depth == 0 {
            return true;
        }
        let chars = text::chars_vec(name);
        if !self.config.include_hidden && chars.len() > 0 && chars[0] == '.' {
            return false;
        }
        if is_dir && (text::eq_str(&chars, "node_modules") || text::eq_str(&chars, "target")
            || text::eq_str(&chars, "__pycache__") || text::eq_str(&chars, ".git") || text::eq_str(
            &chars,
            ".svn",
        ) || text::eq_str(&chars, ".hg") || text::eq_str(&chars, "vendor") || text::eq_str(
            &chars,
            "dist",
        ) || text::eq_str(&chars, "build") || text::eq_str(&chars, ".cache") || text::eq_str(
            &chars,
            ".npm",
        ) || text::eq_str(&chars, ".cargo")) {
            return false;
        }
        true
    }

    /// Whether the configured extension allowlist admits this extension.
    pub fn extension_allowed(&self, ext: &str) -> (r: bool)
        ensures
            r == extension_admitted(self.config.extensions.deep_view(), ext@),
    {
        if self.config.extensions.len() == 0 {
            proof {
                assert(self.config.extensions.deep_view().len() == 0);
            }
            return true;
        }
        let target = text::lower_chars(&text::chars_vec(ext));
        let mut i: usize = 0;
        let ghost allow = self.config.extensions.deep_view();
        while i < self.config.extensions.len()
            invariant
                i <= self.config.extensions@.len(),
                allow == self.config.extensions.deep_view(),
                target@ == text::lower_seq(ext@),
                forall|k: int|
                    0 <= k < i ==> strip_dots(text::lower_seq(#[trigger] allow[k]))
                        != text::lower_seq(ext@),
            decreases self.config.extensions@.len() - i,
        {
            proof {
                assert(allow[i as int] == self.config.extensions@[i as int].deep_view());
            }
            let entry = text::lower_chars(&text::chars_vec(self.config.extensions[i].as_str()));
            let normalised = strip_dots_vec(entry);
            if chars_eq(&normalised, &target) {
                proof {
                    assert(strip_dots(text::lower_seq(allow[i as int])) == text::lower_seq(ext@));
                }
                return true;
            }
            i = i + 1;
        }
        proof {
            if extension_admitted(allow, ext@) {
                let w = choose|w: int|
                    0 <= w < allow.len() && strip_dots(text::lower_seq(#[trigger] allow[w]))
                        == text::lower_seq(ext@);
                assert(false);
            }
        }
        false
    }

    /// Find all matches of the engine's pattern in a file's text.
    pub fn find_matches(&self, extracted: &str) -> (r: Vec<Match>)
        requires
            self.wf(),
        ensures
            r.deep_view() == self.pattern.matches_of(extracted@),
    {
        self.pattern.find_matches(extracted)
    }

    /// Match one file's extracted text: a file with matches becomes a result
    /// carrying them and its confidence score; a file without matches yields
    /// nothing and is not reported.
    pub fn match_file(&self, path: String, file_type: FileType, file_size: u64, extracted: &str)
        -> (r: Option<SearchResult>)
        requires
            self.wf(),
        ensures
            self.pattern.matches_of(extracted@).len() == 0 <==> r is None,
            r matches Some(res) ==> {
                &&& res.path@ == path@
                &&& res.file_type == file_type
                &&& res.matches.deep_view() == self.pattern.matches_of(extracted@)
                &&& res.file_size == file_size
                &&& res.confidence == rank::confidence_of(
                    self.pattern.matches_of(extracted@).len(),
                    file_size as nat,
                )
                &&& res.error is None
            },
    {
        let matches = self.pattern.find_matches(extracted);
        if matches.len() == 0 {
            proof {
                assert(matches.deep_view().len() == matches@.len());
            }
            None
        } else {
            proof {
                assert(matches.deep_view().len() == matches@.len());
            }
            Some(SearchResult::new(path, file_type, matches, file_size))
        }
    }
}

/// Record one finished file task in the run statistics, exactly as the
/// orchestrator aggregates: every task counts as scanned; a task that ended
/// in an extraction failure counts as skipped; a task with a result records
/// its matches.
pub fn record_outcome(stats: &mut SearchStats, outcome: &Option<SearchResult>)
    requires
        old(stats).files_scanned < usize::MAX,
        old(stats).files_skipped < usize::MAX,
        old(stats).files_matched < usize::MAX,
        outcome matches Some(res) ==> old(stats).total_matches + res.matches@.len() <= usize::MAX
            && old(stats).by_type.count_for(res.file_type) < usize::MAX,
    ensures
        final(stats).files_scanned == old(stats).files_scanned + 1,
        final(stats).duration_ms == old(stats).duration_ms,
        match outcome {
            None => *final(stats) == (SearchStats {
                files_scanned: (old(stats).files_scanned + 1) as usize,
                ..*old(stats)
            }),
            Some(res) => if res.error is Some {
                *final(stats) == (SearchStats {
                    files_scanned: (old(stats).files_scanned + 1) as usize,
                    files_skipped: (old(stats).files_skipped + 1) as usize,
                    ..*old(stats)
                })
            } else {
                {
                    &&& final(stats).files_skipped == old(stats).files_skipped
                    &&& (res.matches@.len() > 0 ==> {
                        &&& final(stats).files_matched == old(stats).files_matched + 1
                        &&& final(stats).total_matches == old(stats).total_matches
                            + res.matches@.len()
                        &&& final(stats).by_type.count_for(res.file_type) == old(
                            stats,
                        ).by_type.count_for(res.file_type) + 1
                    })
                    &&& (res.matches@.len() == 0 ==> {
                        &&& final(stats).files_matched == old(stats).files_matched
                        &&& final(stats).total_matches == old(stats).total_matches
                    })
                }
            },
        },
{
    stats.inc_scanned();
    match outcome {
        Some(res) => {
            if res.error.is_some() {
                stats.inc_skipped();
            } else {
                stats.add_result(res);
            }
        },
        None => {},
    }
}

} // verus!
