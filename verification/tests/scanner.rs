use lookfor::cancel::CancelFlag;
use lookfor::matcher::highlight_keywords;
use lookfor::pattern::Pattern;
use lookfor::scan::{
    search_in_directory, search_in_file, EntryOutcome, FileData, FileEntry, FileOutcome,
    ScanState, SearchSpec,
};

fn spec_of(keywords: &[&str], patterns: &[&str], max_mb: u64, omit: &[&str]) -> SearchSpec {
    let kws: Vec<String> = keywords.iter().map(|k| k.to_string()).collect();
    let pats: Vec<Pattern> = patterns
        .iter()
        .filter_map(|p| Pattern::compile(p))
        .collect();
    let om: Vec<String> = omit.iter().map(|o| o.to_string()).collect();
    SearchSpec::new(kws, pats, max_mb, om, false)
}

fn scan_bytes(spec: &SearchSpec, bytes: &[u8]) -> (ScanState, Vec<String>, FileOutcome) {
    let mut st = ScanState::new(spec);
    let mut out: Vec<String> = Vec::new();
    let flag = CancelFlag::new();
    let path = "sample.txt".to_string();
    let data = FileData::Bytes(bytes.to_vec());
    let r = search_in_file(spec, &path, 0, &data, &flag, &mut st, &mut out);
    (st, out, r)
}

#[test]
fn counting_is_containment_reporting_is_word_boundary() {
    // One file with the lines "foo bar", "barfoo", "foo": the substring
    // count for "foo" is 3, but only lines 1 and 3 have a standalone
    // "foo", so exactly two report lines come out.
    let spec = spec_of(&["foo"], &[], 0, &[]);
    let (st, out, r) = scan_bytes(&spec, b"foo bar\nbarfoo\nfoo");
    assert_eq!(st.keyword_counts, vec![3]);
    assert_eq!(out.len(), 2);
    assert_eq!(st.analyzed_files, 1);
    match r {
        FileOutcome::Scanned { found, fell_back } => {
            assert!(found);
            assert!(!fell_back);
        }
        _ => panic!("expected a completed scan"),
    }
}

#[test]
fn keyword_once_as_standalone_word_counts_once_per_line() {
    let spec = spec_of(&["cat"], &[], 0, &[]);
    let (st, out, _) = scan_bytes(&spec, b"the cat sat\ncategory\n");
    // Containment counts both lines; the boundary match reports only one.
    assert_eq!(st.keyword_counts, vec![2]);
    assert_eq!(out.len(), 1);
}

#[test]
fn regex_counter_totals_non_overlapping_matches() {
    let spec = spec_of(&[], &["[0-9]+"], 0, &[]);
    let (st, out, _) = scan_bytes(&spec, b"a1 2b\nccc\n3 4 5");
    assert_eq!(st.regex_counts, vec![5]);
    assert_eq!(out.len(), 2);
}

#[test]
fn regex_matches_are_found_not_echoed() {
    // "o+" must match once in "foo"; a pattern handed back unmatched
    // would count zero, a per-character match would count two.
    let spec = spec_of(&[], &["o+"], 0, &[]);
    let (st, _, _) = scan_bytes(&spec, b"foo");
    assert_eq!(st.regex_counts, vec![1]);
}

#[test]
fn binary_fallback_counts_keyword_in_printable_run() {
    // An invalid byte forces the fallback; the NUL is a reminder that
    // binary content stays binary.  The printable run "xxfooyy" holds
    // one occurrence of the keyword.
    let mut bytes: Vec<u8> = vec![0xff, 0x00];
    bytes.extend_from_slice(b"xxfooyy");
    let spec = spec_of(&["foo"], &[], 0, &[]);
    let (st, out, r) = scan_bytes(&spec, &bytes);
    assert_eq!(st.keyword_counts, vec![1]);
    assert_eq!(st.analyzed_files, 1);
    // No standalone "foo" in the run, so nothing is reported.
    assert_eq!(out.len(), 0);
    match r {
        FileOutcome::Scanned { found, fell_back } => {
            assert!(!found);
            assert!(fell_back);
        }
        _ => panic!("expected a completed scan"),
    }
}

#[test]
fn binary_fallback_reports_standalone_match() {
    let mut bytes: Vec<u8> = vec![0xff];
    bytes.extend_from_slice(b"xx foo yy");
    let spec = spec_of(&["foo"], &[], 0, &[]);
    let (st, out, _) = scan_bytes(&spec, &bytes);
    assert_eq!(st.keyword_counts, vec![1]);
    assert_eq!(out.len(), 1);
}

#[test]
fn size_skip_counts_as_analyzed_without_opening() {
    // 5 MB against a 1 MB ceiling: the file is never opened (its data
    // can even be unreadable), the tally grows by one, no counts.
    let spec = spec_of(&["foo"], &["[0-9]+"], 1, &[]);
    let mut st = ScanState::new(&spec);
    let mut out: Vec<String> = Vec::new();
    let flag = CancelFlag::new();
    let path = "big.bin".to_string();
    let r = search_in_file(&spec, &path, 5, &FileData::ReadFailed, &flag, &mut st, &mut out);
    assert!(matches!(r, FileOutcome::SkippedSize));
    assert_eq!(st.analyzed_files, 1);
    assert_eq!(st.keyword_counts, vec![0]);
    assert_eq!(st.regex_counts, vec![0]);
    assert_eq!(out.len(), 0);
}

#[test]
fn read_failure_is_not_analyzed() {
    let spec = spec_of(&["foo"], &[], 0, &[]);
    let mut st = ScanState::new(&spec);
    let mut out: Vec<String> = Vec::new();
    let flag = CancelFlag::new();
    let path = "gone.txt".to_string();
    let r = search_in_file(&spec, &path, 0, &FileData::ReadFailed, &flag, &mut st, &mut out);
    assert!(matches!(r, FileOutcome::ReadFailed));
    assert_eq!(st.analyzed_files, 0);
    assert_eq!(out.len(), 0);
}

fn entry(path: &str, size_mb: u64, bytes: &[u8]) -> FileEntry {
    FileEntry { path: path.to_string(), size_mb, data: FileData::Bytes(bytes.to_vec()) }
}

#[test]
fn cancellation_before_walk_leaves_everything_untouched() {
    let spec = spec_of(&["foo"], &[], 0, &[]);
    let mut st = ScanState::new(&spec);
    let mut out: Vec<String> = Vec::new();
    let flag = CancelFlag::new();
    flag.stop();
    let entries = vec![entry("a.txt", 0, b"foo\n"), entry("b.txt", 0, b"foo\n")];
    let completed = search_in_directory(&spec, &entries, &flag, &mut st, &mut out);
    assert!(!completed);
    assert_eq!(st.analyzed_files, 0);
    assert_eq!(st.keyword_counts, vec![0]);
    assert_eq!(out.len(), 0);
}

#[test]
fn cancellation_mid_file_keeps_partial_results() {
    let spec = spec_of(&["foo"], &[], 0, &[]);
    let mut st = ScanState::new(&spec);
    let mut out: Vec<String> = Vec::new();
    let flag = CancelFlag::new();
    flag.stop();
    let path = "a.txt".to_string();
    let data = FileData::Bytes(b"foo\n".to_vec());
    let r = search_in_file(&spec, &path, 0, &data, &flag, &mut st, &mut out);
    assert!(matches!(r, FileOutcome::Cancelled));
    // Stopped before the first line, the file still counts as analyzed.
    assert_eq!(st.analyzed_files, 1);
    assert_eq!(st.keyword_counts, vec![0]);
    assert_eq!(out.len(), 0);
}

#[test]
fn scanning_twice_yields_identical_results() {
    let spec = spec_of(&["foo", "bar"], &["[a-z]+[0-9]"], 0, &["tmp"]);
    let entries = vec![
        entry("a.txt", 0, b"foo bar\nbar1 baz2\n"),
        entry("skip.tmp", 0, b"foo\n"),
        entry("b.md", 0, b"nothing here\n"),
    ];
    let flag = CancelFlag::new();
    let mut st1 = ScanState::new(&spec);
    let mut out1: Vec<String> = Vec::new();
    let c1 = search_in_directory(&spec, &entries, &flag, &mut st1, &mut out1);
    let mut st2 = ScanState::new(&spec);
    let mut out2: Vec<String> = Vec::new();
    let c2 = search_in_directory(&spec, &entries, &flag, &mut st2, &mut out2);
    assert!(c1 && c2);
    assert_eq!(st1.keyword_counts, st2.keyword_counts);
    assert_eq!(st1.regex_counts, st2.regex_counts);
    assert_eq!(st1.analyzed_files, st2.analyzed_files);
    assert_eq!(out1.len(), out2.len());
}

#[test]
fn tally_counts_files_minus_extension_exclusions() {
    let spec = spec_of(&["foo"], &[], 1, &["md"]);
    let entries = vec![
        entry("a.txt", 0, b"foo\n"),
        entry("notes.log", 0, b"foo\n"),
        entry("NOTES.TMP", 0, b"foo\n"),
        entry("readme.MD", 0, b"foo\n"),
        entry("big.dat", 7, b""),
        entry("b.rs", 0, b"no match\n"),
    ];
    let flag = CancelFlag::new();
    let mut st = ScanState::new(&spec);
    let mut out: Vec<String> = Vec::new();
    let completed = search_in_directory(&spec, &entries, &flag, &mut st, &mut out);
    assert!(completed);
    // Six files, three excluded by extension; the size-skipped one counts.
    assert_eq!(st.analyzed_files, 3);
    // Only a.txt contributes a count: excluded files are never scanned.
    assert_eq!(st.keyword_counts, vec![1]);
}

#[test]
fn excluded_extension_outcome_is_reported_to_the_caller() {
    let spec = spec_of(&["foo"], &[], 0, &[]);
    let mut st = ScanState::new(&spec);
    let mut out: Vec<String> = Vec::new();
    let flag = CancelFlag::new();
    let e = entry("trace.LOG", 0, b"foo\n");
    let r = lookfor::scan::scan_one_entry(&spec, &e, &flag, &mut st, &mut out);
    assert!(matches!(r, EntryOutcome::SkippedExtension));
    assert_eq!(st.analyzed_files, 0);
    assert_eq!(st.keyword_counts, vec![0]);
}

#[test]
fn unreadable_file_does_not_stop_the_walk_or_count() {
    let spec = spec_of(&["foo"], &[], 0, &[]);
    let entries = vec![
        entry("a.txt", 0, b"foo\n"),
        FileEntry { path: "broken.txt".to_string(), size_mb: 0, data: FileData::ReadFailed },
        entry("b.txt", 0, b"foo\n"),
    ];
    let flag = CancelFlag::new();
    let mut st = ScanState::new(&spec);
    let mut out: Vec<String> = Vec::new();
    let completed = search_in_directory(&spec, &entries, &flag, &mut st, &mut out);
    assert!(completed);
    // The unreadable file is skipped without counting as analyzed.
    assert_eq!(st.analyzed_files, 2);
    assert_eq!(st.keyword_counts, vec![2]);
}

#[test]
fn size_ceiling_is_exclusive() {
    // A file of exactly the ceiling is still scanned; only a larger one
    // is skipped.
    let spec = spec_of(&["foo"], &[], 2, &[]);
    let mut st = ScanState::new(&spec);
    let mut out: Vec<String> = Vec::new();
    let flag = CancelFlag::new();
    let path = "edge.txt".to_string();
    let data = FileData::Bytes(b"foo\n".to_vec());
    let r = search_in_file(&spec, &path, 2, &data, &flag, &mut st, &mut out);
    assert!(matches!(r, FileOutcome::Scanned { .. }));
    assert_eq!(st.keyword_counts, vec![1]);
}

#[test]
fn keyword_is_escaped_before_boundary_matching() {
    // The keyword "a+b" is literal text: it must not match "aab" the
    // way the raw pattern a+b would, and must match itself.
    let spec = spec_of(&["a+b"], &[], 0, &[]);
    let (st, out, _) = scan_bytes(&spec, b"aab\n");
    assert_eq!(st.keyword_counts, vec![0]);
    assert_eq!(out.len(), 0);
    let (st2, out2, _) = scan_bytes(&spec, b"x a+b y\n");
    assert_eq!(st2.keyword_counts, vec![1]);
    assert_eq!(out2.len(), 1);
}

#[test]
fn highlighting_is_present_exactly_on_boundary_matches() {
    let spec = spec_of(&["foo"], &[], 0, &[]);
    assert!(highlight_keywords("foo bar", &spec.keywords, &spec.kw_pats).is_some());
    assert!(highlight_keywords("barfoo", &spec.keywords, &spec.kw_pats).is_none());
    assert!(highlight_keywords("foo", &spec.keywords, &spec.kw_pats).is_some());
}

#[test]
fn rendering_replaces_boundary_matches_with_the_given_text() {
    let spec = spec_of(&["foo"], &[], 0, &[]);
    let styled = vec!["<FOO>".to_string()];
    let r = lookfor::matcher::render_with("foo bar foo", &spec.kw_pats, &styled);
    assert_eq!(r, Some("<FOO> bar <FOO>".to_string()));
    assert_eq!(lookfor::matcher::render_with("barfoo", &spec.kw_pats, &styled), None);
}

#[test]
fn invalid_pattern_is_dropped_at_construction() {
    let pats: Vec<Pattern> = ["(", "[0-9]+"]
        .iter()
        .filter_map(|p| Pattern::compile(p))
        .collect();
    assert_eq!(pats.len(), 1);
    let spec = SearchSpec::new(vec!["x".to_string()], pats, 0, Vec::new(), false);
    let (st, _, _) = scan_bytes(&spec, b"7 and 9");
    assert_eq!(st.regex_counts, vec![2]);
}
