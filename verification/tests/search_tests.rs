use argus::engine::{include_by_category, record_outcome, SearchEngine};
use argus::rank::{calculate_confidence, finalize_results, sort_results, CONFIDENCE_SCALE};
use argus::types::{
    FileType, IndexConfig, Match, OcrConfig, SearchConfig, SearchResult, SearchStats,
};

fn engine_for(pattern: &str, case_sensitive: bool, use_regex: bool) -> SearchEngine {
    let config = SearchConfig {
        pattern: pattern.to_string(),
        case_sensitive,
        use_regex,
        ..Default::default()
    };
    SearchEngine::new(config, IndexConfig::default(), None).unwrap()
}

#[test]
fn test_literal_search() {
    let engine = engine_for("Hello", false, false);
    let text = "Hello World\nHello Rust\nGoodbye World";
    let result = engine.match_file("test.txt".to_string(), FileType::Text, 37, text);
    assert!(result.is_some());
    let result = result.unwrap();
    assert_eq!(result.matches.len(), 2);

    let mut stats = SearchStats::new();
    record_outcome(&mut stats, &Some(result));
    assert_eq!(stats.total_matches, 2);
    assert_eq!(stats.files_matched, 1);
    assert_eq!(stats.files_scanned, 1);
}

#[test]
fn test_case_insensitive_search() {
    let engine = engine_for("hello", false, false);
    let matches = engine.find_matches("hello HELLO Hello");
    assert_eq!(matches.len(), 3);
}

#[test]
fn test_case_sensitive_search() {
    let engine = engine_for("hello", true, false);
    let matches = engine.find_matches("Hello HELLO hello");
    assert_eq!(matches.len(), 1);
    assert_eq!(matches[0].matched_text, "hello");
    assert_eq!(matches[0].column, Some(12));
}

#[test]
fn test_regex_search() {
    let engine = engine_for(r"\w+\d+", false, true);
    let matches = engine.find_matches("foo123 bar456 baz789");
    assert_eq!(matches.len(), 3);
    assert_eq!(matches[0].matched_text, "foo123");
    assert_eq!(matches[1].matched_text, "bar456");
    assert_eq!(matches[2].matched_text, "baz789");
    assert_eq!(matches[0].line_number, Some(1));
    assert_eq!(matches[0].column, None);
}

#[test]
fn test_invalid_regex_is_fatal() {
    let config = SearchConfig {
        pattern: "[unclosed".to_string(),
        use_regex: true,
        ..Default::default()
    };
    assert!(SearchEngine::new(config, IndexConfig::default(), None).is_err());
}

#[test]
fn test_overlapping_literal_matches() {
    let engine = engine_for("aa", false, false);
    let matches = engine.find_matches("aaa");
    assert_eq!(matches.len(), 2);
    assert_eq!(matches[0].column, Some(0));
    assert_eq!(matches[1].column, Some(1));
    assert_eq!(matches[0].matched_text, "aa");
    assert_eq!(matches[0].context, "aaa");
    assert_eq!(matches[0].line_number, Some(1));
}

#[test]
fn test_matches_are_per_line() {
    let engine = engine_for("ab", false, false);
    // The pattern does not match across the line break.
    let matches = engine.find_matches("xa\nby");
    assert_eq!(matches.len(), 0);
    let matches2 = engine.find_matches("ab\nab");
    assert_eq!(matches2.len(), 2);
    assert_eq!(matches2[0].line_number, Some(1));
    assert_eq!(matches2[1].line_number, Some(2));
}

#[test]
fn test_match_file_no_matches_reports_nothing() {
    let engine = engine_for("absent", false, false);
    let r = engine.match_file("f.txt".to_string(), FileType::Text, 10, "some text");
    assert!(r.is_none());
}

#[test]
fn test_confidence_values() {
    // One match in a 1 KiB file: match score 0.2, density 1/10 of scale.
    assert_eq!(calculate_confidence(1, 1024), 170_000);
    // No matches: zero confidence.
    assert_eq!(calculate_confidence(0, 12345), 0);
    // Zero size uses the one-half density fallback.
    assert_eq!(calculate_confidence(1, 0), 290_000);
    // Confidence never exceeds the unit scale.
    assert!(calculate_confidence(usize::MAX, 1) <= CONFIDENCE_SCALE);
}

fn result_with(count: usize, size: u64, path: &str) -> SearchResult {
    let matches = (0..count)
        .map(|_| Match::new("m".to_string(), "ctx".to_string()))
        .collect();
    SearchResult::new(path.to_string(), FileType::Text, matches, size)
}

#[test]
fn test_ranking_order() {
    // More matches rank first; among equal counts, higher confidence
    // (here: the smaller, denser file) ranks first.
    let a = result_with(1, 1024, "one-match");
    let b = result_with(5, 1024, "five-matches");
    let c = result_with(5, 10240, "five-matches-large");
    let mut results = vec![a, c, b];
    sort_results(&mut results);
    assert_eq!(results[0].path, "five-matches");
    assert_eq!(results[1].path, "five-matches-large");
    assert_eq!(results[2].path, "one-match");
    assert!(results[0].confidence >= results[1].confidence);
}

#[test]
fn test_finalize_truncates_to_limit() {
    let mut results = vec![
        result_with(1, 10, "a"),
        result_with(3, 10, "b"),
        result_with(2, 10, "c"),
    ];
    finalize_results(&mut results, 2);
    assert_eq!(results.len(), 2);
    assert_eq!(results[0].path, "b");
    assert_eq!(results[1].path, "c");
}

#[test]
fn test_record_outcome_counts() {
    let mut stats = SearchStats::new();
    record_outcome(&mut stats, &None);
    assert_eq!(stats.files_scanned, 1);
    assert_eq!(stats.files_skipped, 0);
    assert_eq!(stats.files_matched, 0);

    let failed = SearchResult::with_error(
        "bad.bin".to_string(),
        FileType::Other,
        "went wrong".to_string(),
    );
    record_outcome(&mut stats, &Some(failed));
    assert_eq!(stats.files_scanned, 2);
    assert_eq!(stats.files_skipped, 1);

    let matched = result_with(4, 100, "hit.txt");
    record_outcome(&mut stats, &Some(matched));
    assert_eq!(stats.files_scanned, 3);
    assert_eq!(stats.files_matched, 1);
    assert_eq!(stats.total_matches, 4);
    assert_eq!(stats.by_type.text, 1);
}

#[test]
fn test_should_process_entry() {
    let engine = engine_for("x", false, false);
    // The root always passes.
    assert!(engine.should_process_entry(".hidden-root", 0, true));
    // Hidden entries are skipped unless configured in.
    assert!(!engine.should_process_entry(".hidden", 1, false));
    // Well-known build directories are always skipped.
    assert!(!engine.should_process_entry("node_modules", 1, true));
    assert!(!engine.should_process_entry("target", 2, true));
    // A file named like a skip directory still passes.
    assert!(engine.should_process_entry("target", 2, false));
    assert!(engine.should_process_entry("src", 1, true));

    let config = SearchConfig {
        pattern: "x".to_string(),
        include_hidden: true,
        ..Default::default()
    };
    let with_hidden = SearchEngine::new(config, IndexConfig::default(), None).unwrap();
    assert!(with_hidden.should_process_entry(".hidden", 1, false));
    // The fixed skip list applies regardless of the hidden setting.
    assert!(!with_hidden.should_process_entry(".git", 1, true));
}

#[test]
fn test_extension_allowlist() {
    let config = SearchConfig {
        pattern: "x".to_string(),
        extensions: vec!["PDF".to_string(), ".txt".to_string()],
        ..Default::default()
    };
    let engine = SearchEngine::new(config, IndexConfig::default(), None).unwrap();
    assert!(engine.extension_allowed("pdf"));
    assert!(engine.extension_allowed("PDF"));
    assert!(engine.extension_allowed("txt"));
    assert!(!engine.extension_allowed("rs"));

    let all = engine_for("x", false, false);
    assert!(all.extension_allowed("anything"));
}

#[test]
fn test_preview_and_filename() {
    let m = Match::new("needle".to_string(), "   the needle in context   ".to_string());
    let r = SearchResult::new("a/b/c.txt".to_string(), FileType::Text, vec![m], 100);
    assert_eq!(r.filename(), "c.txt");
    assert_eq!(r.preview(80), Some("the needle in context".to_string()));
    assert_eq!(r.preview(3), Some("the...".to_string()));
    assert_eq!(r.match_count(), 1);

    let empty = SearchResult::with_error("".to_string(), FileType::Other, "e".to_string());
    assert_eq!(empty.filename(), "unknown");
    assert_eq!(empty.preview(10), None);
}

#[test]
fn test_include_by_category() {
    assert_eq!(include_by_category(FileType::Pdf, false), Some(true));
    assert_eq!(include_by_category(FileType::Docx, false), Some(true));
    assert_eq!(include_by_category(FileType::Image, false), Some(false));
    assert_eq!(include_by_category(FileType::Image, true), Some(true));
    assert_eq!(include_by_category(FileType::Text, true), None);
    assert_eq!(include_by_category(FileType::Code, false), None);
}

#[test]
fn test_file_type_labels() {
    assert_eq!(FileType::Pdf.name(), "PDF");
    assert_eq!(FileType::Code.color(), "cyan");
    assert_eq!(FileType::Text.icon(), "[txt]");
    let _ = OcrConfig::default();
}
