//! Core data types: file categories, matches, per-file results, search and
//! cache configuration, and run statistics.

use vstd::prelude::*;

use crate::rank;
use crate::text;

verus! {

/// The closed classification of a file, derived from its extension.
/// It drives extractor dispatch and binary-skip filtering.
#[derive(Debug, Clone, Copy, PartialEq, Eq, Hash, Structural)]
pub enum FileType {
    /// Plain text files (.txt, .md, ...).
    Text,
    /// Source code files.
    Code,
    /// PDF documents.
    Pdf,
    /// Word documents (.docx).
    Docx,
    /// Image files (searched only when OCR is enabled).
    Image,
    /// Unknown or other file types.
    Other,
}

/// Extensions classified as plain text.
pub open spec fn is_text_extension(e: Seq<char>) -> bool {
    ||| e == "txt"@
    ||| e == "md"@
    ||| e == "markdown"@
    ||| e == "rst"@
    ||| e == "log"@
    ||| e == "csv"@
    ||| e == "tsv"@
    ||| e == "json"@
    ||| e == "yaml"@
    ||| e == "yml"@
    ||| e == "toml"@
    ||| e == "ini"@
    ||| e == "cfg"@
    ||| e == "conf"@
    ||| e == "xml"@
    ||| e == "html"@
    ||| e == "htm"@
    ||| e == "css"@
}

/// Extensions classified as source code.
pub open spec fn is_code_extension(e: Seq<char>) -> bool {
    ||| e == "rs"@
    ||| e == "py"@
    ||| e == "js"@
    ||| e == "ts"@
    ||| e == "jsx"@
    ||| e == "tsx"@
    ||| e == "java"@
    ||| e == "c"@
    ||| e == "cpp"@
    ||| e == "cc"@
    ||| e == "cxx"@
    ||| e == "h"@
    ||| e == "hpp"@
    ||| e == "go"@
    ||| e == "rb"@
    ||| e == "php"@
    ||| e == "swift"@
    ||| e == "kt"@
    ||| e == "kts"@
    ||| e == "scala"@
    ||| e == "sh"@
    ||| e == "bash"@
    ||| e == "zsh"@
    ||| e == "fish"@
    ||| e == "ps1"@
    ||| e == "bat"@
    ||| e == "cmd"@
    ||| e == "sql"@
    ||| e == "r"@
    ||| e == "lua"@
    ||| e == "pl"@
    ||| e == "pm"@
    ||| e == "ex"@
    ||| e == "exs"@
    ||| e == "erl"@
    ||| e == "hrl"@
    ||| e == "hs"@
    ||| e == "lhs"@
    ||| e == "ml"@
    ||| e == "mli"@
    ||| e == "fs"@
    ||| e == "fsi"@
    ||| e == "fsx"@
    ||| e == "clj"@
    ||| e == "cljs"@
    ||| e == "cljc"@
    ||| e == "nim"@
    ||| e == "zig"@
    ||| e == "v"@
    ||| e == "d"@
    ||| e == "dart"@
    ||| e == "vue"@
    ||| e == "svelte"@
}

/// Extensions classified as raster images.
pub open spec fn is_image_extension(e: Seq<char>) -> bool {
    ||| e == "png"@
    ||| e == "jpg"@
    ||| e == "jpeg"@
    ||| e == "gif"@
    ||| e == "bmp"@
    ||| e == "tiff"@
    ||| e == "tif"@
    ||| e == "webp"@
}

/// The category an extension maps to: a total function over all extensions,
/// applied to the case-folded extension; unknown extensions map to `Other`.
pub open spec fn category_of_extension(ext: Seq<char>) -> FileType {
    let e = text::lower_seq(ext);
    if is_text_extension(e) {
        FileType::Text
    } else if is_code_extension(e) {
        FileType::Code
    } else if e == "pdf"@ {
        FileType::Pdf
    } else if e == "docx"@ {
        FileType::Docx
    } else if is_image_extension(e) {
        FileType::Image
    } else {
        FileType::Other
    }
}

impl FileType {
    /// The icon shown for this file type.
    pub fn icon(&self) -> (r: &'static str)
        ensures
            r@ == match *self {
                FileType::Text => "[txt]"@,
                FileType::Code => "[cod]"@,
                FileType::Pdf => "[pdf]"@,
                FileType::Docx => "[doc]"@,
                FileType::Image => "[img]"@,
                FileType::Other => "[oth]"@,
            },
    {
        match self {
            FileType::Text => "[txt]",
            FileType::Code => "[cod]",
            FileType::Pdf => "[pdf]",
            FileType::Docx => "[doc]",
            FileType::Image => "[img]",
            FileType::Other => "[oth]",
        }
    }

    /// The display colour name for this file type.
    pub fn color(&self) -> (r: &'static str)
        ensures
            r@ == match *self {
                FileType::Text => "white"@,
                FileType::Code => "cyan"@,
                FileType::Pdf => "red"@,
                FileType::Docx => "blue"@,
                FileType::Image => "magenta"@,
                FileType::Other => "white"@,
            },
    {
        match self {
            FileType::Text => "white",
            FileType::Code => "cyan",
            FileType::Pdf => "red",
            FileType::Docx => "blue",
            FileType::Image => "magenta",
            FileType::Other => "white",
        }
    }

    /// The name of this file type, in place of a `Display` impl.
    pub fn name(&self) -> (r: &'static str)
        ensures
            r@ == match *self {
                FileType::Text => "Text"@,
                FileType::Code => "Code"@,
                FileType::Pdf => "PDF"@,
                FileType::Docx => "DOCX"@,
                FileType::Image => "Image"@,
                FileType::Other => "Other"@,
            },
    {
        match self {
            FileType::Text => "Text",
            FileType::Code => "Code",
            FileType::Pdf => "PDF",
            FileType::Docx => "DOCX",
            FileType::Image => "Image",
            FileType::Other => "Other",
        }
    }

    /// Detect the file type from an extension, case-insensitively.
    pub fn from_extension(ext: &str) -> (r: Self)
        ensures
            r == category_of_extension(ext@),
    {
        let raw = text::chars_vec(ext);
        let e = text::lower_chars(&raw);
        if Self::is_text_ext(&e) {
            FileType::Text
        } else if Self::is_code_ext(&e) {
            FileType::Code
        } else if text::eq_str(&e, "pdf") {
            FileType::Pdf
        } else if text::eq_str(&e, "docx") {
            FileType::Docx
        } else if Self::is_image_ext(&e) {
            FileType::Image
        } else {
            FileType::Other
        }
    }

    fn is_text_ext(e: &Vec<char>) -> (r: bool)
        ensures
            r == is_text_extension(e@),
    {
        text::eq_str(e, "txt") || text::eq_str(e, "md") || text::eq_str(e, "markdown")
            || text::eq_str(e, "rst") || text::eq_str(e, "log") || text::eq_str(e, "csv")
            || text::eq_str(e, "tsv") || text::eq_str(e, "json") || text::eq_str(e, "yaml")
            || text::eq_str(e, "yml") || text::eq_str(e, "toml") || text::eq_str(e, "ini")
            || text::eq_str(e, "cfg") || text::eq_str(e, "conf") || text::eq_str(e, "xml")
            || text::eq_str(e, "html") || text::eq_str(e, "htm") || text::eq_str(e, "css")
    }

    fn is_code_ext(e: &Vec<char>) -> (r: bool)
        ensures
            r == is_code_extension(e@),
    {
        text::eq_str(e, "rs") || text::eq_str(e, "py") || text::eq_str(e, "js") || text::eq_str(
            e,
            "ts",
        ) || text::eq_str(e, "jsx") || text::eq_str(e, "tsx") || text::eq_str(e, "java")
            || text::eq_str(e, "c") || text::eq_str(e, "cpp") || text::eq_str(e, "cc")
            || text::eq_str(e, "cxx") || text::eq_str(e, "h") || text::eq_str(e, "hpp")
            || text::eq_str(e, "go") || text::eq_str(e, "rb") || text::eq_str(e, "php")
            || text::eq_str(e, "swift") || text::eq_str(e, "kt") || text::eq_str(e, "kts")
            || text::eq_str(e, "scala") || text::eq_str(e, "sh") || text::eq_str(e, "bash")
            || text::eq_str(e, "zsh") || text::eq_str(e, "fish") || text::eq_str(e, "ps1")
            || text::eq_str(e, "bat") || text::eq_str(e, "cmd") || text::eq_str(e, "sql")
            || text::eq_str(e, "r") || text::eq_str(e, "lua") || text::eq_str(e, "pl")
            || text::eq_str(e, "pm") || text::eq_str(e, "ex") || text::eq_str(e, "exs")
            || text::eq_str(e, "erl") || text::eq_str(e, "hrl") || text::eq_str(e, "hs")
            || text::eq_str(e, "lhs") || text::eq_str(e, "ml") || text::eq_str(e, "mli")
            || text::eq_str(e, "fs") || text::eq_str(e, "fsi") || text::eq_str(e, "fsx")
            || text::eq_str(e, "clj") || text::eq_str(e, "cljs") || text::eq_str(e, "cljc")
            || text::eq_str(e, "nim") || text::eq_str(e, "zig") || text::eq_str(e, "v")
            || text::eq_str(e, "d") || text::eq_str(e, "dart") || text::eq_str(e, "vue")
            || text::eq_str(e, "svelte")
    }

    fn is_image_ext(e: &Vec<char>) -> (r: bool)
        ensures
            r == is_image_extension(e@),
    {
        text::eq_str(e, "png") || text::eq_str(e, "jpg") || text::eq_str(e, "jpeg") || text::eq_str(
            e,
            "gif",
        ) || text::eq_str(e, "bmp") || text::eq_str(e, "tiff") || text::eq_str(e, "tif")
            || text::eq_str(e, "webp")
    }
}

/// The mathematical model of a [`Match`]: its character sequences and
/// positions.
pub struct MatchModel {
    /// The matched characters.
    pub matched: Seq<char>,
    /// The characters of the line the match occurred on.
    pub context: Seq<char>,
    /// 1-indexed line number, where available.
    pub line_number: Option<int>,
    /// 0-indexed character column, where available.
    pub column: Option<int>,
}

/// One occurrence of the pattern within one line of one file's text.
#[derive(Debug, Clone)]
pub struct Match {
    /// The matched text itself.
    pub matched_text: String,
    /// The full line the match occurred on.
    pub context: String,
    /// 1-indexed line number, where the extraction mode preserves it.
    pub line_number: Option<usize>,
    /// 0-indexed character column within the line, where available.
    pub column: Option<usize>,
}

impl View for Match {
    type V = MatchModel;

    open spec fn view(&self) -> MatchModel {
        MatchModel {
            matched: self.matched_text@,
            context: self.context@,
            line_number: match self.line_number {
                Some(n) => Some(n as int),
                None => None,
            },
            column: match self.column {
                Some(c) => Some(c as int),
                None => None,
            },
        }
    }
}

impl DeepView for Match {
    type V = MatchModel;

    open spec fn deep_view(&self) -> MatchModel {
        self.view()
    }
}

impl Match {
    /// Create a match without position information.
    pub fn new(matched_text: String, context: String) -> (r: Self)
        ensures
            r.matched_text@ == matched_text@,
            r.context@ == context@,
            r.line_number is None,
            r.column is None,
    {
        Self { matched_text, context, line_number: None, column: None }
    }

    /// Create a match carrying its line number but no column.
    pub fn with_line(matched_text: String, context: String, line_number: usize) -> (r: Self)
        ensures
            r.matched_text@ == matched_text@,
            r.context@ == context@,
            r.line_number == Some(line_number),
            r.column is None,
    {
        Self { matched_text, context, line_number: Some(line_number), column: None }
    }

    /// Create a match carrying its line number and column.
    pub fn with_position(
        matched_text: String,
        context: String,
        line_number: usize,
        column: usize,
    ) -> (r: Self)
        ensures
            r.matched_text@ == matched_text@,
            r.context@ == context@,
            r.line_number == Some(line_number),
            r.column == Some(column),
    {
        Self { matched_text, context, line_number: Some(line_number), column: Some(column) }
    }
}

/// The preview of a match context: the trimmed line, shortened to `max_len`
/// characters with an ellipsis when it is longer.
pub open spec fn preview_of(context: Seq<char>, max_len: int) -> Seq<char> {
    let t = text::trim(context);
    if t.len() > max_len {
        t.take(max_len) + "..."@
    } else {
        t
    }
}

/// The characters after the last `'/'` of a path (the whole path if it has
/// no `'/'`).
pub open spec fn last_path_component(p: Seq<char>) -> Seq<char>
    decreases p.len(),
{
    if p.len() == 0 {
        Seq::empty()
    } else if p.last() == '/' {
        Seq::empty()
    } else {
        last_path_component(p.drop_last()).push(p.last())
    }
}

/// A search result for a single file: its matches and confidence score, or a
/// failure reason when extraction failed.
#[derive(Debug, Clone)]
pub struct SearchResult {
    /// Path to the file.
    pub path: String,
    /// Type of the file.
    pub file_type: FileType,
    /// All matches found in this file, in line order.
    pub matches: Vec<Match>,
    /// Confidence score in parts per million, between 0 and 1_000_000.
    pub confidence: u64,
    /// Size of the file in bytes.
    pub file_size: u64,
    /// Failure reason when extraction failed; such a result carries no
    /// matches.
    pub error: Option<String>,
}

impl SearchResult {
    /// Create a result for a file whose extraction succeeded.
    pub fn new(path: String, file_type: FileType, matches: Vec<Match>, file_size: u64) -> (r: Self)
        ensures
            r.path@ == path@,
            r.file_type == file_type,
            r.matches == matches,
            r.confidence == rank::confidence_of(matches@.len() as nat, file_size as nat),
            r.file_size == file_size,
            r.error is None,
    {
        let confidence = rank::calculate_confidence(matches.len(), file_size);
        Self { path, file_type, matches, confidence, file_size, error: None }
    }

    /// Create a result recording an extraction failure.
    pub fn with_error(path: String, file_type: FileType, error: String) -> (r: Self)
        ensures
            r.path@ == path@,
            r.file_type == file_type,
            r.matches@.len() == 0,
            r.confidence == 0,
            r.file_size == 0,
            r.error matches Some(e) && e@ == error@,
    {
        Self {
            path,
            file_type,
            matches: Vec::new(),
            confidence: 0,
            file_size: 0,
            error: Some(error),
        }
    }

    /// The number of matches.
    pub fn match_count(&self) -> (r: usize)
        ensures
            r == self.matches@.len(),
    {
        self.matches.len()
    }

    /// A preview of the first match: its trimmed context, shortened to
    /// `max_len` characters.
    pub fn preview(&self, max_len: usize) -> (r: Option<String>)
        ensures
            r is Some <==> self.matches@.len() > 0,
            r matches Some(p) ==> p@ == preview_of(self.matches@[0].context@, max_len as int),
    {
        if self.matches.len() == 0 {
            return None;
        }
        let ctx = text::chars_vec(self.matches[0].context.as_str());
        let trimmed = text::trim_chars(&ctx);
        if trimmed.len() > max_len {
            let head = text::take_chars(&trimmed, max_len);
            let mut s = text::string_from_chars(&head);
            s.append("...");
            Some(s)
        } else {
            Some(text::string_from_chars(&trimmed))
        }
    }

    /// The file name: the path component after the last `'/'`, or
    /// `"unknown"` when that component is empty.
    pub fn filename(&self) -> (r: String)
        ensures
            r@ == if last_path_component(self.path@).len() == 0 {
                "unknown"@
            } else {
                last_path_component(self.path@)
            },
    {
        let p = text::chars_vec(self.path.as_str());
        let mut k: usize = p.len();
        while k > 0 && p[k - 1] != '/'
            invariant
                k <= p@.len(),
            forall|j: int| k <= j < p@.len() ==> p@[j] != '/',
            decreases k,
        {
            k = k - 1;
        }
        proof {
            lemma_last_path_component(p@, k as int);
        }
        let mut out: Vec<char> = Vec::new();
        let mut i: usize = k;
        while i < p.len()
            invariant
                k <= i <= p@.len(),
                out@ == p@.subrange(k as int, i as int),
            decreases p@.len() - i,
        {
            out.push(p[i]);
            proof {
                assert(p@.subrange(k as int, i + 1 as int) =~= p@.subrange(
                    k as int,
                    i as int,
                ).push(p@[i as int]));
            }
            i = i + 1;
        }
        proof {
            assert(p@.subrange(k as int, p@.len() as int) =~= p@.skip(k as int));
        }
        if out.len() == 0 {
            "unknown".to_owned()
        } else {
            text::string_from_chars(&out)
        }
    }
}

proof fn lemma_last_path_component(p: Seq<char>, k: int)
    requires
        0 <= k <= p.len(),
        forall|j: int| k <= j < p.len() ==> p[j] != '/',
        k > 0 ==> p[k - 1] == '/',
    ensures
        last_path_component(p) == p.skip(k),
    decreases p.len(),
{
    if k == p.len() {
        if k > 0 {
            assert(p.last() == '/');
        }
        assert(p.skip(k) =~= Seq::<char>::empty());
    } else {
        assert(p[p.len() - 1] != '/');
        lemma_last_path_component(p.drop_last(), k);
        assert(p.drop_last().skip(k).push(p.last()) =~= p.skip(k));
    }
}

/// Configuration of the optical-recognition capability.
#[derive(Debug, Clone)]
pub struct OcrConfig {
    /// Whether OCR is enabled for images and scanned PDFs.
    pub enabled: bool,
}

impl Default for OcrConfig {
    fn default() -> (r: Self)
        ensures
            !r.enabled,
    {
        Self { enabled: false }
    }
}

/// Search configuration.
#[derive(Debug, Clone)]
pub struct SearchConfig {
    /// Directory to search in.
    pub directory: String,
    /// Search pattern (literal text, or a regular expression).
    pub pattern: String,
    /// Whether the search is case-sensitive.
    pub case_sensitive: bool,
    /// Whether the pattern is a regular expression.
    pub use_regex: bool,
    /// OCR configuration.
    pub ocr: OcrConfig,
    /// Maximum number of results to return.
    pub limit: usize,
    /// Maximum directory depth, if bounded.
    pub max_depth: Option<usize>,
    /// Include hidden files.
    pub include_hidden: bool,
    /// File extensions to include (empty means all).
    pub extensions: Vec<String>,
    /// Show a content preview per result.
    pub show_preview: bool,
}

impl Default for SearchConfig {
    fn default() -> (r: Self)
        ensures
            r.directory@ == "."@,
            r.pattern@ == Seq::<char>::empty(),
            !r.case_sensitive,
            !r.use_regex,
            !r.ocr.enabled,
            r.limit == 20,
            r.max_depth is None,
            !r.include_hidden,
            r.extensions@.len() == 0,
            !r.show_preview,
    {
        Self {
            directory: ".".to_owned(),
            pattern: String::new(),
            case_sensitive: false,
            use_regex: false,
            ocr: OcrConfig { enabled: false },
            limit: 20,
            max_depth: None,
            include_hidden: false,
            extensions: Vec::new(),
            show_preview: false,
        }
    }
}

/// Configuration of cache-file handling.
#[derive(Debug, Clone)]
pub struct IndexConfig {
    /// Whether to save an index after scanning.
    pub save_index: bool,
    /// Whether to use an existing index if available.
    pub use_index: bool,
    /// Path of the index file; `None` selects the default dotfile in the
    /// search directory.
    pub index_file: Option<String>,
}

impl Default for IndexConfig {
    fn default() -> (r: Self)
        ensures
            !r.save_index,
            !r.use_index,
            r.index_file is None,
    {
        Self { save_index: false, use_index: false, index_file: None }
    }
}

impl IndexConfig {
    /// The index file path: the configured one, or the default dotfile
    /// inside the search directory.
    pub fn get_index_path(&self, search_dir: &str) -> (r: String)
        ensures
            r@ == match self.index_file {
                Some(p) => p@,
                None => search_dir@ + "/.argus_index.json"@,
            },
    {
        match &self.index_file {
            Some(p) => p.clone(),
            None => {
                let mut s = search_dir.to_owned();
                s.append("/.argus_index.json");
                s
            },
        }
    }
}

/// Per-category counters of matched files.
#[derive(Debug, Clone)]
pub struct CategoryCounts {
    /// Matched files classified as plain text.
    pub text: usize,
    /// Matched files classified as source code.
    pub code: usize,
    /// Matched PDF documents.
    pub pdf: usize,
    /// Matched Word documents.
    pub docx: usize,
    /// Matched image files.
    pub image: usize,
    /// Matched files of other types.
    pub other: usize,
}

impl CategoryCounts {
    /// The counter belonging to `ft`.
    pub open spec fn count_for(self, ft: FileType) -> usize {
        match ft {
            FileType::Text => self.text,
            FileType::Code => self.code,
            FileType::Pdf => self.pdf,
            FileType::Docx => self.docx,
            FileType::Image => self.image,
            FileType::Other => self.other,
        }
    }

    /// All counters are zero.
    pub open spec fn all_zero(self) -> bool {
        self.text == 0 && self.code == 0 && self.pdf == 0 && self.docx == 0 && self.image == 0
            && self.other == 0
    }

    /// Fresh, all-zero counters.
    pub fn new() -> (r: Self)
        ensures
            r.all_zero(),
    {
        Self { text: 0, code: 0, pdf: 0, docx: 0, image: 0, other: 0 }
    }

    /// Read the counter for `ft`.
    pub fn get(&self, ft: FileType) -> (r: usize)
        ensures
            r == self.count_for(ft),
    {
        match ft {
            FileType::Text => self.text,
            FileType::Code => self.code,
            FileType::Pdf => self.pdf,
            FileType::Docx => self.docx,
            FileType::Image => self.image,
            FileType::Other => self.other,
        }
    }

    /// Increment the counter for `ft`.
    pub fn bump(&mut self, ft: FileType)
        requires
            old(self).count_for(ft) < usize::MAX,
        ensures
            final(self).count_for(ft) == old(self).count_for(ft) + 1,
            forall|f: FileType| f != ft ==> final(self).count_for(f) == old(self).count_for(f),
    {
        match ft {
            FileType::Text => {
                self.text = self.text + 1;
            },
            FileType::Code => {
                self.code = self.code + 1;
            },
            FileType::Pdf => {
                self.pdf = self.pdf + 1;
            },
            FileType::Docx => {
                self.docx = self.docx + 1;
            },
            FileType::Image => {
                self.image = self.image + 1;
            },
            FileType::Other => {
                self.other = self.other + 1;
            },
        }
    }
}

/// Statistics of one search run, owned by the orchestrator for the run's
/// lifetime.
#[derive(Debug, Clone)]
pub struct SearchStats {
    /// Total files scanned.
    pub files_scanned: usize,
    /// Files with at least one match.
    pub files_matched: usize,
    /// Total matches found.
    pub total_matches: usize,
    /// Files skipped because their extraction failed.
    pub files_skipped: usize,
    /// Duration of the search in milliseconds.
    pub duration_ms: u64,
    /// Matched-file counts broken down by file type.
    pub by_type: CategoryCounts,
}

impl SearchStats {
    /// Fresh, all-zero statistics.
    pub fn new() -> (r: Self)
        ensures
            r.files_scanned == 0,
            r.files_matched == 0,
            r.total_matches == 0,
            r.files_skipped == 0,
            r.duration_ms == 0,
            r.by_type.all_zero(),
    {
        Self {
            files_scanned: 0,
            files_matched: 0,
            total_matches: 0,
            files_skipped: 0,
            duration_ms: 0,
            by_type: CategoryCounts::new(),
        }
    }

    /// Count one scanned file.
    pub fn inc_scanned(&mut self)
        requires
            old(self).files_scanned < usize::MAX,
        ensures
            *final(self) == (SearchStats {
                files_scanned: (old(self).files_scanned + 1) as usize,
                ..*old(self)
            }),
    {
        self.files_scanned = self.files_scanned + 1;
    }

    /// Count one skipped file.
    pub fn inc_skipped(&mut self)
        requires
            old(self).files_skipped < usize::MAX,
        ensures
            *final(self) == (SearchStats {
                files_skipped: (old(self).files_skipped + 1) as usize,
                ..*old(self)
            }),
    {
        self.files_skipped = self.files_skipped + 1;
    }

    /// Record a finished result: a result with matches counts as one matched
    /// file, adds its matches to the total, and bumps its category; a result
    /// without matches changes nothing.
    pub fn add_result(&mut self, result: &SearchResult)
        requires
            old(self).files_matched < usize::MAX,
            old(self).total_matches + result.matches@.len() <= usize::MAX,
            old(self).by_type.count_for(result.file_type) < usize::MAX,
        ensures
            result.matches@.len() > 0 ==> {
                &&& final(self).files_matched == old(self).files_matched + 1
                &&& final(self).total_matches == old(self).total_matches
                    + result.matches@.len()
                &&& final(self).by_type.count_for(result.file_type) == old(
                    self,
                ).by_type.count_for(result.file_type) + 1
                &&& forall|f: FileType|
                    f != result.file_type ==> final(self).by_type.count_for(f) == old(
                        self,
                    ).by_type.count_for(f)
                &&& final(self).files_scanned == old(self).files_scanned
                &&& final(self).files_skipped == old(self).files_skipped
                &&& final(self).duration_ms == old(self).duration_ms
            },
            result.matches@.len() == 0 ==> *final(self) == *old(self),
    {
        if result.matches.len() > 0 {
            self.files_matched = self.files_matched + 1;
            self.total_matches = self.total_matches + result.matches.len();
            self.by_type.bump(result.file_type);
        }
    }
}

} // verus!
