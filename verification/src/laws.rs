//! The scanner's laws, proved over the scan model that the executable
//! functions are verified against: what each counter equals after a
//! scan, what the analyzed-file tally counts, and what a scan that never
//! started leaves behind.

use vstd::prelude::*;
use vstd::utf8::decode_utf8;

use crate::pattern::rx_find_all;
use crate::scan::{
    entries_model, entry_model, file_model, file_partial, first_invalid, lines_model, run_chars,
    runs_model, size_exceeds, EntryView, ScanSpecView, StateModel,
};
use crate::text::{contains_sub, sat_add64, spec_lines, spec_runs};
use crate::walk::excluded_by_ext;

verus! {

// --- keyword counting ---

/// How many of the first `k` lines contain the keyword as a plain
/// substring.
pub open spec fn lines_containing(lines: Seq<Seq<u8>>, kw: Seq<u8>, k: int) -> nat
    decreases k,
{
    if k <= 0 {
        0
    } else {
        lines_containing(lines, kw, k - 1) + (if contains_sub(lines[k - 1], kw) {
            1nat
        } else {
            0nat
        })
    }
}

proof fn lemma_lines_model_kw(m: StateModel, sv: ScanSpecView, lines: Seq<Seq<u8>>, k: int, i: int)
    requires
        0 <= i < sv.kws.len(),
        m.kw.len() == sv.kws.len(),
        m.kw[i] + lines_containing(lines, sv.kws[i], k) <= u64::MAX,
    ensures
        lines_model(m, sv, lines, k).kw.len() == m.kw.len(),
        lines_model(m, sv, lines, k).kw[i] == m.kw[i] + lines_containing(lines, sv.kws[i], k),
    decreases k,
{
    if k > 0 {
        lemma_lines_model_kw(m, sv, lines, k - 1, i);
    }
}

/// For a file whose content is entirely valid text, one scan adds to a
/// keyword's counter exactly the number of lines that contain the
/// keyword as a plain substring.  Containment, not word-boundary
/// matching, decides the count, so a keyword inside a longer word still
/// counts even where highlighting passes it over.
pub proof fn lemma_keyword_count_text_file(
    m: StateModel,
    sv: ScanSpecView,
    bytes: Seq<u8>,
    i: int,
)
    requires
        0 <= i < sv.kws.len(),
        m.kw.len() == sv.kws.len(),
        first_invalid(spec_lines(bytes)) == spec_lines(bytes).len(),
        m.kw[i] + lines_containing(spec_lines(bytes), sv.kws[i], spec_lines(bytes).len() as int)
            <= u64::MAX,
    ensures
        file_model(m, sv, bytes).kw[i] == m.kw[i] + lines_containing(
            spec_lines(bytes),
            sv.kws[i],
            spec_lines(bytes).len() as int,
        ),
{
    lemma_lines_model_kw(m, sv, spec_lines(bytes), spec_lines(bytes).len() as int, i);
}

proof fn lemma_runs_model_kw_len(m: StateModel, sv: ScanSpecView, runs: Seq<Seq<u8>>, k: int)
    ensures
        runs_model(m, sv, runs, k).kw.len() == m.kw.len(),
    decreases k,
{
    if k > 0 {
        lemma_runs_model_kw_len(m, sv, runs, k - 1);
    }
}

proof fn lemma_keyword_count_file_len(m: StateModel, sv: ScanSpecView, bytes: Seq<u8>)
    ensures
        file_model(m, sv, bytes).kw.len() == m.kw.len(),
{
    let lines = spec_lines(bytes);
    let k = first_invalid(lines);
    assert(lines_model(m, sv, lines, k).kw.len() == m.kw.len()) by {
        lemma_lines_model_kw_len(m, sv, lines, k);
    }
    if k < lines.len() {
        lemma_runs_model_kw_len(
            lines_model(m, sv, lines, k),
            sv,
            spec_runs(bytes),
            spec_runs(bytes).len() as int,
        );
    }
}

proof fn lemma_lines_model_kw_len(m: StateModel, sv: ScanSpecView, lines: Seq<Seq<u8>>, k: int)
    ensures
        lines_model(m, sv, lines, k).kw.len() == m.kw.len(),
    decreases k,
{
    if k > 0 {
        lemma_lines_model_kw_len(m, sv, lines, k - 1);
    }
}

/// The keyword-bearing lines one candidate file of a walk contributes
/// to the count: none when it is excluded, size-skipped or unreadable.
pub open spec fn entry_keyword_lines(e: EntryView, sv: ScanSpecView, kw: Seq<u8>) -> nat {
    if excluded_by_ext(e.path_b, sv.omit) || size_exceeds(sv, e.size_mb) {
        0
    } else {
        match e.data {
            Some(b) => lines_containing(
                spec_lines(b),
                kw,
                spec_lines(b).len() as int,
            ),
            None => 0,
        }
    }
}

/// The total keyword-bearing lines across the first `k` candidate files.
pub open spec fn entries_keyword_lines(
    es: Seq<EntryView>,
    sv: ScanSpecView,
    kw: Seq<u8>,
    k: int,
) -> nat
    decreases k,
{
    if k <= 0 {
        0
    } else {
        entries_keyword_lines(es, sv, kw, k - 1) + entry_keyword_lines(es[k - 1], sv, kw)
    }
}

/// After a completed walk whose scanned files are all valid text, each
/// keyword's counter has grown by exactly the number of scanned lines
/// that contain it as a plain substring.
pub proof fn lemma_keyword_count_scan(
    m: StateModel,
    sv: ScanSpecView,
    es: Seq<EntryView>,
    k: int,
    i: int,
)
    requires
        0 <= i < sv.kws.len(),
        m.kw.len() == sv.kws.len(),
        0 <= k <= es.len(),
        forall|j: int|
            0 <= j < k ==> ((#[trigger] es[j]).data matches Some(b) ==> first_invalid(spec_lines(b))
                == spec_lines(b).len()),
        m.kw[i] + entries_keyword_lines(es, sv, sv.kws[i], k) <= u64::MAX,
    ensures
        entries_model(m, sv, es, k).kw.len() == m.kw.len(),
        entries_model(m, sv, es, k).kw[i] == m.kw[i] + entries_keyword_lines(es, sv, sv.kws[i], k),
    decreases k,
{
    if k > 0 {
        lemma_keyword_count_scan(m, sv, es, k - 1, i);
        let prev = entries_model(m, sv, es, k - 1);
        let e = es[k - 1];
        if !excluded_by_ext(e.path_b, sv.omit) && !size_exceeds(sv, e.size_mb) {
            match e.data {
                Some(b) => {
                    lemma_keyword_count_file_len(prev, sv, b);
                    lemma_keyword_count_text_file(prev, sv, b, i);
                },
                None => {},
            }
        }
    }
}

// --- regular-expression counting ---

/// The total number of engine matches of the pattern across the first
/// `k` lines.
pub open spec fn matches_in_lines(lines: Seq<Seq<u8>>, pat: Seq<char>, k: int) -> nat
    decreases k,
{
    if k <= 0 {
        0
    } else {
        matches_in_lines(lines, pat, k - 1) + rx_find_all(pat, decode_utf8(lines[k - 1])).len()
    }
}

/// The total number of engine matches of the pattern across the first
/// `k` printable runs.
pub open spec fn matches_in_runs(runs: Seq<Seq<u8>>, pat: Seq<char>, k: int) -> nat
    decreases k,
{
    if k <= 0 {
        0
    } else {
        matches_in_runs(runs, pat, k - 1) + rx_find_all(pat, run_chars(runs[k - 1])).len()
    }
}

proof fn lemma_lines_model_rx(m: StateModel, sv: ScanSpecView, lines: Seq<Seq<u8>>, k: int, i: int)
    requires
        0 <= i < sv.pats.len(),
        m.rx.len() == sv.pats.len(),
        m.rx[i] + matches_in_lines(lines, sv.pats[i], k) <= u64::MAX,
    ensures
        lines_model(m, sv, lines, k).rx.len() == m.rx.len(),
        lines_model(m, sv, lines, k).rx[i] == m.rx[i] + matches_in_lines(lines, sv.pats[i], k),
    decreases k,
{
    if k > 0 {
        lemma_lines_model_rx(m, sv, lines, k - 1, i);
    }
}

proof fn lemma_runs_model_rx(m: StateModel, sv: ScanSpecView, runs: Seq<Seq<u8>>, k: int, i: int)
    requires
        0 <= i < sv.pats.len(),
        m.rx.len() == sv.pats.len(),
        m.rx[i] + matches_in_runs(runs, sv.pats[i], k) <= u64::MAX,
    ensures
        runs_model(m, sv, runs, k).rx.len() == m.rx.len(),
        runs_model(m, sv, runs, k).rx[i] == m.rx[i] + matches_in_runs(runs, sv.pats[i], k),
    decreases k,
{
    if k > 0 {
        lemma_runs_model_rx(m, sv, runs, k - 1, i);
    }
}

/// The total number of engine matches a whole file contributes to one
/// pattern's counter: its valid text lines up to the first decode
/// failure, plus, on such a failure, every printable run of the file.
pub open spec fn file_pattern_matches(bytes: Seq<u8>, pat: Seq<char>) -> nat {
    let lines = spec_lines(bytes);
    let k = first_invalid(lines);
    matches_in_lines(lines, pat, k) + (if k < lines.len() {
        matches_in_runs(spec_runs(bytes), pat, spec_runs(bytes).len() as int)
    } else {
        0nat
    })
}

/// One file's scan adds to each pattern's counter exactly the total
/// number of non-overlapping matches the engine finds across the lines
/// and runs the scan processes.
pub proof fn lemma_regex_count_file(m: StateModel, sv: ScanSpecView, bytes: Seq<u8>, i: int)
    requires
        0 <= i < sv.pats.len(),
        m.rx.len() == sv.pats.len(),
        m.rx[i] + file_pattern_matches(bytes, sv.pats[i]) <= u64::MAX,
    ensures
        file_model(m, sv, bytes).rx.len() == m.rx.len(),
        file_model(m, sv, bytes).rx[i] == m.rx[i] + file_pattern_matches(bytes, sv.pats[i]),
{
    let lines = spec_lines(bytes);
    let k = first_invalid(lines);
    lemma_lines_model_rx(m, sv, lines, k, i);
    if k < lines.len() {
        let mt = lines_model(m, sv, lines, k);
        lemma_runs_model_rx(mt, sv, spec_runs(bytes), spec_runs(bytes).len() as int, i);
    }
}

/// The matches one candidate file of a walk contributes to a pattern's
/// counter: none when it is excluded, size-skipped or unreadable.
pub open spec fn entry_pattern_matches(e: EntryView, sv: ScanSpecView, pat: Seq<char>) -> nat {
    if excluded_by_ext(e.path_b, sv.omit) || size_exceeds(sv, e.size_mb) {
        0
    } else {
        match e.data {
            Some(b) => file_pattern_matches(b, pat),
            None => 0,
        }
    }
}

/// The total matches across the first `k` candidate files of a walk.
pub open spec fn entries_pattern_matches(
    es: Seq<EntryView>,
    sv: ScanSpecView,
    pat: Seq<char>,
    k: int,
) -> nat
    decreases k,
{
    if k <= 0 {
        0
    } else {
        entries_pattern_matches(es, sv, pat, k - 1) + entry_pattern_matches(es[k - 1], sv, pat)
    }
}

/// After a completed walk, each pattern's counter has grown by exactly
/// the total number of non-overlapping matches the engine found across
/// every line and run of every file the walk processed.
pub proof fn lemma_regex_count_scan(
    m: StateModel,
    sv: ScanSpecView,
    es: Seq<EntryView>,
    k: int,
    i: int,
)
    requires
        0 <= i < sv.pats.len(),
        m.rx.len() == sv.pats.len(),
        0 <= k <= es.len(),
        m.rx[i] + entries_pattern_matches(es, sv, sv.pats[i], k) <= u64::MAX,
    ensures
        entries_model(m, sv, es, k).rx.len() == m.rx.len(),
        entries_model(m, sv, es, k).rx[i] == m.rx[i] + entries_pattern_matches(
            es,
            sv,
            sv.pats[i],
            k,
        ),
    decreases k,
{
    if k > 0 {
        lemma_regex_count_scan(m, sv, es, k - 1, i);
        let prev = entries_model(m, sv, es, k - 1);
        let e = es[k - 1];
        if !excluded_by_ext(e.path_b, sv.omit) && !size_exceeds(sv, e.size_mb) {
            match e.data {
                Some(b) => {
                    lemma_regex_count_file(prev, sv, b, i);
                },
                None => {},
            }
        }
    }
}

// --- the analyzed-file tally ---

proof fn lemma_lines_model_tally(m: StateModel, sv: ScanSpecView, lines: Seq<Seq<u8>>, k: int)
    ensures
        lines_model(m, sv, lines, k).tally == m.tally,
    decreases k,
{
    if k > 0 {
        lemma_lines_model_tally(m, sv, lines, k - 1);
    }
}

proof fn lemma_runs_model_tally(m: StateModel, sv: ScanSpecView, runs: Seq<Seq<u8>>, k: int)
    ensures
        runs_model(m, sv, runs, k).tally == m.tally,
    decreases k,
{
    if k > 0 {
        lemma_runs_model_tally(m, sv, runs, k - 1);
    }
}

/// How many of the first `k` candidate files are not excluded by
/// extension.
pub open spec fn included_files(es: Seq<EntryView>, omit: Seq<Seq<u8>>, k: int) -> nat
    decreases k,
{
    if k <= 0 {
        0
    } else {
        included_files(es, omit, k - 1) + (if excluded_by_ext(es[k - 1].path_b, omit) {
            0nat
        } else {
            1nat
        })
    }
}

/// After a completed walk over readable files, the analyzed-file tally
/// has grown by exactly the number of regular files encountered minus
/// those excluded by extension: size-skipped files count, extension
/// exclusions do not.
pub proof fn lemma_tally_counts_files(m: StateModel, sv: ScanSpecView, es: Seq<EntryView>, k: int)
    requires
        0 <= k <= es.len(),
        forall|j: int| 0 <= j < k ==> (#[trigger] es[j]).data is Some,
        m.tally + included_files(es, sv.omit, k) <= u64::MAX,
    ensures
        entries_model(m, sv, es, k).tally == m.tally + included_files(es, sv.omit, k),
    decreases k,
{
    if k > 0 {
        lemma_tally_counts_files(m, sv, es, k - 1);
        let prev = entries_model(m, sv, es, k - 1);
        let e = es[k - 1];
        if !excluded_by_ext(e.path_b, sv.omit) && !size_exceeds(sv, e.size_mb) {
            let b = e.data.unwrap();
            let lines = spec_lines(b);
            lemma_lines_model_tally(prev, sv, lines, first_invalid(lines));
            if first_invalid(lines) < lines.len() {
                lemma_runs_model_tally(
                    lines_model(prev, sv, lines, first_invalid(lines)),
                    sv,
                    spec_runs(b),
                    spec_runs(b).len() as int,
                );
            }
        }
    }
}

// --- monotonicity ---

/// Counter-wise ordering of scan outcomes: every keyword and pattern
/// counter, the tally and the report count of the first are at most
/// those of the second.
pub open spec fn counts_leq(a: StateModel, b: StateModel) -> bool {
    &&& a.kw.len() == b.kw.len()
    &&& a.rx.len() == b.rx.len()
    &&& forall|i: int| 0 <= i < a.kw.len() ==> a.kw[i] <= #[trigger] b.kw[i]
    &&& forall|i: int| 0 <= i < a.rx.len() ==> a.rx[i] <= #[trigger] b.rx[i]
    &&& a.tally <= b.tally
    &&& a.reports <= b.reports
}

proof fn lemma_lines_model_monotone(m: StateModel, sv: ScanSpecView, lines: Seq<Seq<u8>>, k: int)
    ensures
        counts_leq(m, lines_model(m, sv, lines, k)),
    decreases k,
{
    if k > 0 {
        lemma_lines_model_monotone(m, sv, lines, k - 1);
    }
}

/// A scan interrupted anywhere inside a file still holds at least
/// everything counted before it: counters, tally and reports only ever
/// move upward, so partial results are never corrupt.
pub proof fn lemma_file_partial_monotone(m: StateModel, sv: ScanSpecView, bytes: Seq<u8>, j: int)
    ensures
        counts_leq(m, file_partial(m, sv, bytes, j)),
{
    lemma_lines_model_monotone(m, sv, spec_lines(bytes), j);
}

// --- cancellation and size skip ---

/// A walk stopped before its first file leaves everything as it was:
/// the counters, the tally, and the report stream.
pub proof fn lemma_stopped_before_walk(m: StateModel, sv: ScanSpecView, es: Seq<EntryView>)
    ensures
        entries_model(m, sv, es, 0) == m,
{
}

/// A file over the size ceiling is skipped without being opened: its
/// content plays no part in the outcome, the counters and the report
/// stream stay, and the tally alone increments.
pub proof fn lemma_size_skip_entry(m: StateModel, sv: ScanSpecView, e: EntryView)
    requires
        !excluded_by_ext(e.path_b, sv.omit),
        size_exceeds(sv, e.size_mb),
    ensures
        entry_model(m, sv, e).kw == m.kw,
        entry_model(m, sv, e).rx == m.rx,
        entry_model(m, sv, e).reports == m.reports,
        entry_model(m, sv, e).tally == sat_add64(m.tally, 1),
        forall|d: Option<Seq<u8>>|
            entry_model(m, sv, EntryView { data: d, ..e }) == entry_model(m, sv, e),
{
}

} // verus!
