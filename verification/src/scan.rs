//! The scanning engine: per-line matching and counting, the binary
//! fallback over printable runs, per-file scanning with size skip and
//! decode fallback, and the walk over a directory's files with extension
//! exclusion and cooperative cancellation.
//!
//! Every step is related to a pure model: a completed scan equals the
//! model of its inputs, and a cancelled scan equals the model of a prefix
//! of them, so partial results are never corrupt.

use vstd::prelude::*;
use vstd::string::StringSliceAdditionalSpecFns;
use vstd::utf8::{decode_utf8, encode_utf8, valid_utf8};

use crate::cancel::CancelFlag;
use crate::matcher::{highlight_keywords, pat_views};
use crate::pattern::{
    ascii_to_string, boundary_src, bytes_to_text, compile_boundary, rx_compiles, rx_find_all,
    rx_is_match, Pattern,
};
use crate::report::{report_line, report_run};
use crate::style::style_found;
use crate::text::{
    contains_keyword, contains_sub, count_occ, count_occurrences, extract_runs, run_wf, runs_wf,
    sat64, sat_add, sat_add64, seq_views, spec_lines, spec_runs, split_lines,
};
use crate::walk::{byte_views, excluded_by_ext, excluded_by_extension};

verus! {

// --- the search specification ---

/// The ghost shape of a search specification: keyword bytes for
/// containment counting, boundary-pattern sources for highlighting,
/// user-pattern sources for regex matching, the size ceiling and the
/// excluded extensions.
pub struct ScanSpecView {
    pub kws: Seq<Seq<u8>>,
    pub kw_pats: Seq<Option<Seq<char>>>,
    pub pats: Seq<Seq<char>>,
    pub max_mb: u64,
    pub omit: Seq<Seq<u8>>,
}

/// The pattern sources of a sequence of compiled patterns.
pub open spec fn pattern_srcs(ps: Seq<Pattern>) -> Seq<Seq<char>> {
    ps.map_values(|p: Pattern| p@)
}

/// The immutable input to a scan: keywords, pre-compiled regular
/// expressions, a size ceiling in megabytes (zero meaning unlimited),
/// extensions to exclude, and a verbosity flag for diagnostics.
///
/// The word-boundary highlight pattern of each keyword is compiled once,
/// here; a keyword whose pattern the engine rejects is silently left
/// without one and is then never highlighted, though still counted.
pub struct SearchSpec {
    pub keywords: Vec<String>,
    pub kw_pats: Vec<Option<Pattern>>,
    pub patterns: Vec<Pattern>,
    pub max_size_mb: u64,
    pub omit: Vec<String>,
    pub show: bool,
}

impl View for SearchSpec {
    type V = ScanSpecView;

    open spec fn view(&self) -> ScanSpecView {
        ScanSpecView {
            kws: self.keywords@.map_values(|k: String| encode_utf8(k@)),
            kw_pats: pat_views(self.kw_pats@),
            pats: pattern_srcs(self.patterns@),
            max_mb: self.max_size_mb,
            omit: byte_views(self.omit@),
        }
    }
}

impl SearchSpec {
    /// The boundary patterns line up with the keywords: one slot per
    /// keyword, holding the compiled word-boundary pattern of that
    /// keyword.  A slot is empty exactly when the engine rejects that
    /// keyword's boundary pattern, so a keyword can only go without
    /// highlighting when the engine genuinely refuses it.
    pub open spec fn wf(&self) -> bool {
        &&& self.kw_pats@.len() == self.keywords@.len()
        &&& forall|i: int|
            0 <= i < self.kw_pats@.len() ==> ((#[trigger] self.kw_pats@[i]) matches Some(p) ==> p@
                == boundary_src(self.keywords@[i]@))
        &&& forall|i: int|
            0 <= i < self.kw_pats@.len() ==> ((#[trigger] self.kw_pats@[i]) is Some <==>
                rx_compiles(boundary_src(self.keywords@[i]@)))
    }

    /// Build a specification from the caller's inputs.  The regular
    /// expressions come pre-compiled; the keywords' highlight patterns
    /// are compiled here.
    pub fn new(
        keywords: Vec<String>,
        patterns: Vec<Pattern>,
        max_size_mb: u64,
        omit: Vec<String>,
        show: bool,
    ) -> (r: SearchSpec)
        ensures
            r.wf(),
            r.keywords == keywords,
            r.patterns == patterns,
            r.max_size_mb == max_size_mb,
            r.omit == omit,
            r.show == show,
            r@.kws == keywords@.map_values(|k: String| encode_utf8(k@)),
            r@.pats == pattern_srcs(patterns@),
            r@.max_mb == max_size_mb,
            r@.omit == byte_views(omit@),
            r@.kw_pats.len() == keywords@.len(),
    {
        let n = keywords.len();
        let mut kw_pats: Vec<Option<Pattern>> = Vec::new();
        let mut i: usize = 0;
        while i < n
            invariant
                n == keywords@.len(),
                i <= n,
                kw_pats@.len() == i,
                forall|k: int|
                    0 <= k < i ==> ((#[trigger] kw_pats@[k]) matches Some(p) ==> p@
                        == boundary_src(keywords@[k]@)),
                forall|k: int|
                    0 <= k < i ==> ((#[trigger] kw_pats@[k]) is Some <==> rx_compiles(
                        boundary_src(keywords@[k]@),
                    )),
            decreases n - i,
        {
            kw_pats.push(compile_boundary(keywords[i].as_str()));
            i += 1;
        }
        SearchSpec { keywords, kw_pats, patterns, max_size_mb, omit, show }
    }

}

// --- the mutable scan state ---

/// The counters a scan accumulates: one per keyword, one per pattern,
/// and the analyzed-file tally.
pub struct ScanState {
    pub keyword_counts: Vec<u64>,
    pub regex_counts: Vec<u64>,
    pub analyzed_files: u64,
}

impl ScanState {
    /// The counters line up with the specification's keyword and pattern
    /// lists.
    pub open spec fn wf(&self, sv: ScanSpecView) -> bool {
        self.keyword_counts@.len() == sv.kws.len() && self.regex_counts@.len() == sv.pats.len()
    }

    /// Fresh counters, all zero, one per keyword and per pattern.
    pub fn new(spec: &SearchSpec) -> (r: ScanState)
        ensures
            r.wf(spec@),
            r.keyword_counts@ == Seq::new(spec@.kws.len(), |i: int| 0u64),
            r.regex_counts@ == Seq::new(spec@.pats.len(), |i: int| 0u64),
            r.analyzed_files == 0,
    {
        let nk = spec.keywords.len();
        let np = spec.patterns.len();
        let mut kc: Vec<u64> = Vec::new();
        let mut i: usize = 0;
        while i < nk
            invariant
                i <= nk,
                kc@ =~= Seq::new(i as nat, |k: int| 0u64),
            decreases nk - i,
        {
            kc.push(0);
            assert(kc@ =~= Seq::new((i + 1) as nat, |k: int| 0u64));
            i += 1;
        }
        let mut rc: Vec<u64> = Vec::new();
        i = 0;
        while i < np
            invariant
                i <= np,
                rc@ =~= Seq::new(i as nat, |k: int| 0u64),
            decreases np - i,
        {
            rc.push(0);
            assert(rc@ =~= Seq::new((i + 1) as nat, |k: int| 0u64));
            i += 1;
        }
        proof {
            assert(kc@ =~= Seq::new(spec@.kws.len(), |i: int| 0u64));
            assert(rc@ =~= Seq::new(spec@.pats.len(), |i: int| 0u64));
        }
        ScanState { keyword_counts: kc, regex_counts: rc, analyzed_files: 0 }
    }
}

/// A scan's whole observable effect: the counters, the tally, and how
/// many report lines have been emitted.
pub struct StateModel {
    pub kw: Seq<u64>,
    pub rx: Seq<u64>,
    pub tally: u64,
    pub reports: nat,
}

/// The model a state and an output stream stand at.
pub open spec fn to_model(st: ScanState, reports: nat) -> StateModel {
    StateModel {
        kw: st.keyword_counts@,
        rx: st.regex_counts@,
        tally: st.analyzed_files,
        reports,
    }
}

// --- the per-line and per-run model ---

/// Keyword counters after a text line: each keyword contained in the
/// line as a plain substring counts once.
pub open spec fn kw_line_add(kw: Seq<u64>, kws: Seq<Seq<u8>>, line: Seq<u8>) -> Seq<u64> {
    Seq::new(
        kw.len(),
        |i: int|
            if contains_sub(line, kws[i]) {
                sat_add64(kw[i], 1)
            } else {
                kw[i]
            },
    )
}

/// Keyword counters after a printable run: each keyword counts once per
/// non-overlapping occurrence in the run.
pub open spec fn kw_run_add(kw: Seq<u64>, kws: Seq<Seq<u8>>, run: Seq<u8>) -> Seq<u64> {
    Seq::new(kw.len(), |i: int| sat_add64(kw[i], count_occ(run, kws[i])))
}

/// Pattern counters after a piece of text: each pattern counts every
/// non-overlapping match the engine finds in it.
pub open spec fn rx_text_add(rx: Seq<u64>, pats: Seq<Seq<char>>, text: Seq<char>) -> Seq<u64> {
    Seq::new(rx.len(), |i: int| sat_add64(rx[i], rx_find_all(pats[i], text).len()))
}

/// A piece of text is reported when some keyword's boundary pattern
/// matches it, or some regular expression matches in it.
pub open spec fn text_reported(sv: ScanSpecView, text: Seq<char>) -> bool {
    (exists|j: int|
        0 <= j < sv.kw_pats.len() && sv.kw_pats[j] is Some && rx_is_match(
            sv.kw_pats[j].unwrap(),
            text,
        )) || (exists|i: int| 0 <= i < sv.pats.len() && rx_find_all(sv.pats[i], text).len() > 0)
}

/// The characters of a printable run, which is plain ASCII.
pub open spec fn run_chars(r: Seq<u8>) -> Seq<char> {
    r.map_values(|b: u8| b as char)
}

/// The scan's effect of one valid text line.
pub open spec fn line_step(m: StateModel, sv: ScanSpecView, lineb: Seq<u8>) -> StateModel {
    let text = decode_utf8(lineb);
    StateModel {
        kw: kw_line_add(m.kw, sv.kws, lineb),
        rx: rx_text_add(m.rx, sv.pats, text),
        tally: m.tally,
        reports: m.reports + (if text_reported(sv, text) {
            1int
        } else {
            0int
        }) as nat,
    }
}

/// The scan's effect of one printable run in binary fallback.
pub open spec fn run_step(m: StateModel, sv: ScanSpecView, run: Seq<u8>) -> StateModel {
    let text = run_chars(run);
    StateModel {
        kw: kw_run_add(m.kw, sv.kws, run),
        rx: rx_text_add(m.rx, sv.pats, text),
        tally: m.tally,
        reports: m.reports + (if text_reported(sv, text) {
            1int
        } else {
            0int
        }) as nat,
    }
}

/// The effect of the first `k` lines of a file, all assumed valid text.
pub open spec fn lines_model(m: StateModel, sv: ScanSpecView, lines: Seq<Seq<u8>>, k: int) -> StateModel
    decreases k,
{
    if k <= 0 {
        m
    } else {
        line_step(lines_model(m, sv, lines, k - 1), sv, lines[k - 1])
    }
}

/// The effect of the first `k` printable runs of a file's bytes.
pub open spec fn runs_model(m: StateModel, sv: ScanSpecView, runs: Seq<Seq<u8>>, k: int) -> StateModel
    decreases k,
{
    if k <= 0 {
        m
    } else {
        run_step(runs_model(m, sv, runs, k - 1), sv, runs[k - 1])
    }
}

// --- per-line and per-run scanning ---

/// Scan one valid text line: count keyword containment, count and style
/// regex matches, and emit one report line when the line is reported.
fn scan_text_line(
    spec: &SearchSpec,
    path: &str,
    line_no: u64,
    lineb: &Vec<u8>,
    text: &String,
    st: &mut ScanState,
    out: &mut Vec<String>,
) -> (reported: bool)
    requires
        spec.wf(),
        old(st).wf(spec@),
        text@ == decode_utf8(lineb@),
    ensures
        final(st).wf(spec@),
        old(out)@.is_prefix_of(final(out)@),
        to_model(*final(st), final(out)@.len() as nat) == line_step(
            to_model(*old(st), old(out)@.len() as nat),
            spec@,
            lineb@,
        ),
        reported == text_reported(spec@, text@),
{
    let ghost m0 = to_model(*old(st), old(out)@.len() as nat);
    let ghost sv = spec@;
    let nk = spec.keywords.len();
    let mut i: usize = 0;
    while i < nk
        invariant
            spec.wf(),
            nk == spec.keywords@.len(),
            i <= nk,
            st.wf(spec@),
            st.regex_counts@ == m0.rx,
            st.analyzed_files == m0.tally,
            m0.kw.len() == nk,
            sv == spec@,
            forall|k: int|
                0 <= k < i ==> st.keyword_counts@[k] == kw_line_add(m0.kw, sv.kws, lineb@)[k],
            forall|k: int| i <= k < nk ==> st.keyword_counts@[k] == m0.kw[k],
        decreases nk - i,
    {
        let c = st.keyword_counts[i];
        if contains_keyword(lineb.as_slice(), spec.keywords[i].as_str().as_bytes()) {
            st.keyword_counts[i] = sat_add(c, 1);
        }
        i += 1;
    }
    assert(st.keyword_counts@ =~= kw_line_add(m0.kw, sv.kws, lineb@));
    let mut frags: Vec<String> = Vec::new();
    let hl = highlight_keywords(text.as_str(), &spec.keywords, &spec.kw_pats);
    let ghost hl_some = hl is Some;
    match hl {
        Some(h) => {
            frags.push(h);
        },
        None => {},
    }
    let np = spec.patterns.len();
    let mut p: usize = 0;
    while p < np
        invariant
            spec.wf(),
            np == spec.patterns@.len(),
            p <= np,
            st.wf(spec@),
            st.keyword_counts@ == kw_line_add(m0.kw, sv.kws, lineb@),
            st.analyzed_files == m0.tally,
            m0.rx.len() == np,
            sv == spec@,
            text@ == decode_utf8(lineb@),
            forall|k: int|
                0 <= k < p ==> st.regex_counts@[k] == rx_text_add(m0.rx, sv.pats, text@)[k],
            forall|k: int| p <= k < np ==> st.regex_counts@[k] == m0.rx[k],
            frags@.len() > 0 <==> (hl_some || exists|k: int|
                0 <= k < p && rx_find_all(sv.pats[k], text@).len() > 0),
        decreases np - p,
    {
        let found = spec.patterns[p].find_all(text.as_str());
        let c = st.regex_counts[p];
        st.regex_counts[p] = sat_add(c, found.len() as u64);
        let nf = found.len();
        let ghost fpre = frags@.len();
        let mut j: usize = 0;
        while j < nf
            invariant
                nf == found@.len(),
                j <= nf,
                frags@.len() == fpre + j,
            decreases nf - j,
        {
            frags.push(style_found(found[j].as_str()));
            j += 1;
        }
        proof {
            if found@.len() > 0 {
                assert(rx_find_all(sv.pats[p as int], text@).len() > 0);
            }
        }
        p += 1;
    }
    assert(st.regex_counts@ =~= rx_text_add(m0.rx, sv.pats, text@));
    assert(frags@.len() > 0 <==> text_reported(sv, text@));
    let reported = frags.len() > 0;
    if reported {
        out.push(report_line(path, line_no, &frags));
    }
    proof {
        assert(old(out)@.is_prefix_of(out@)) by {
            assert(old(out)@ =~= out@.subrange(0, old(out)@.len() as int));
        }
    }
    reported
}

/// Scan one printable run in binary fallback: count non-overlapping
/// keyword occurrences, count and style regex matches, and emit one
/// report entry, without a line number, when the run is reported.
fn scan_run(
    spec: &SearchSpec,
    path: &str,
    runb: &Vec<u8>,
    st: &mut ScanState,
    out: &mut Vec<String>,
) -> (reported: bool)
    requires
        spec.wf(),
        old(st).wf(spec@),
        run_wf(runb@),
    ensures
        final(st).wf(spec@),
        old(out)@.is_prefix_of(final(out)@),
        to_model(*final(st), final(out)@.len() as nat) == run_step(
            to_model(*old(st), old(out)@.len() as nat),
            spec@,
            runb@,
        ),
        reported == text_reported(spec@, run_chars(runb@)),
{
    let ghost m0 = to_model(*old(st), old(out)@.len() as nat);
    let ghost sv = spec@;
    let text = ascii_to_string(runb);
    assert(text@ =~= run_chars(runb@));
    let nk = spec.keywords.len();
    let mut i: usize = 0;
    while i < nk
        invariant
            spec.wf(),
            nk == spec.keywords@.len(),
            i <= nk,
            st.wf(spec@),
            st.regex_counts@ == m0.rx,
            st.analyzed_files == m0.tally,
            m0.kw.len() == nk,
            sv == spec@,
            forall|k: int|
                0 <= k < i ==> st.keyword_counts@[k] == kw_run_add(m0.kw, sv.kws, runb@)[k],
            forall|k: int| i <= k < nk ==> st.keyword_counts@[k] == m0.kw[k],
        decreases nk - i,
    {
        let c = st.keyword_counts[i];
        let occ = count_occurrences(runb.as_slice(), spec.keywords[i].as_str().as_bytes());
        st.keyword_counts[i] = sat_add(c, occ);
        proof {
            let full = count_occ(runb@, sv.kws[i as int]);
            assert(sat_add64(c, occ as nat) == sat_add64(m0.kw[i as int], full)) by {
                assert(occ == sat64(full));
            }
        }
        i += 1;
    }
    assert(st.keyword_counts@ =~= kw_run_add(m0.kw, sv.kws, runb@));
    let mut frags: Vec<String> = Vec::new();
    let hl = highlight_keywords(text.as_str(), &spec.keywords, &spec.kw_pats);
    let ghost hl_some = hl is Some;
    match hl {
        Some(h) => {
            frags.push(h);
        },
        None => {},
    }
    let np = spec.patterns.len();
    let mut p: usize = 0;
    while p < np
        invariant
            spec.wf(),
            np == spec.patterns@.len(),
            p <= np,
            st.wf(spec@),
            st.keyword_counts@ == kw_run_add(m0.kw, sv.kws, runb@),
            st.analyzed_files == m0.tally,
            m0.rx.len() == np,
            sv == spec@,
            text@ == run_chars(runb@),
            forall|k: int|
                0 <= k < p ==> st.regex_counts@[k] == rx_text_add(m0.rx, sv.pats, text@)[k],
            forall|k: int| p <= k < np ==> st.regex_counts@[k] == m0.rx[k],
            frags@.len() > 0 <==> (hl_some || exists|k: int|
                0 <= k < p && rx_find_all(sv.pats[k], text@).len() > 0),
        decreases np - p,
    {
        let found = spec.patterns[p].find_all(text.as_str());
        let c = st.regex_counts[p];
        st.regex_counts[p] = sat_add(c, found.len() as u64);
        let nf = found.len();
        let ghost fpre = frags@.len();
        let mut j: usize = 0;
        while j < nf
            invariant
                nf == found@.len(),
                j <= nf,
                frags@.len() == fpre + j,
            decreases nf - j,
        {
            frags.push(style_found(found[j].as_str()));
            j += 1;
        }
        proof {
            if found@.len() > 0 {
                assert(rx_find_all(sv.pats[p as int], text@).len() > 0);
            }
        }
        p += 1;
    }
    assert(st.regex_counts@ =~= rx_text_add(m0.rx, sv.pats, text@));
    assert(frags@.len() > 0 <==> text_reported(sv, text@));
    let reported = frags.len() > 0;
    if reported {
        out.push(report_run(path, &frags));
    }
    proof {
        assert(old(out)@.is_prefix_of(out@)) by {
            assert(old(out)@ =~= out@.subrange(0, old(out)@.len() as int));
        }
    }
    reported
}

// --- the per-file model ---

/// What the caller could read of a candidate file: its bytes, or the
/// fact that reading failed.
pub enum FileData {
    Bytes(Vec<u8>),
    ReadFailed,
}

/// One candidate file, as plain values: its path, its size in whole
/// megabytes, and its content.
pub struct FileEntry {
    pub path: String,
    pub size_mb: u64,
    pub data: FileData,
}

pub open spec fn data_view(d: FileData) -> Option<Seq<u8>> {
    match d {
        FileData::Bytes(b) => Some(b@),
        FileData::ReadFailed => None,
    }
}

/// The ghost shape of a candidate file.
pub struct EntryView {
    pub path_b: Seq<u8>,
    pub size_mb: u64,
    pub data: Option<Seq<u8>>,
}

impl View for FileEntry {
    type V = EntryView;

    open spec fn view(&self) -> EntryView {
        EntryView { path_b: encode_utf8(self.path@), size_mb: self.size_mb, data: data_view(self.data) }
    }
}

/// A configured size ceiling that the file exceeds.
pub open spec fn size_exceeds(sv: ScanSpecView, size_mb: u64) -> bool {
    sv.max_mb > 0 && size_mb > sv.max_mb
}

/// A file skipped for size still counts as analyzed.
pub open spec fn size_skip_model(m: StateModel) -> StateModel {
    StateModel { tally: sat_add64(m.tally, 1), ..m }
}

/// The index of the first line that is not valid text, or the number of
/// lines when every line is.
pub open spec fn first_invalid_from(lines: Seq<Seq<u8>>, i: int) -> int
    decreases lines.len() - i,
{
    if i < 0 {
        0
    } else if i >= lines.len() {
        lines.len() as int
    } else if !valid_utf8(lines[i]) {
        i
    } else {
        first_invalid_from(lines, i + 1)
    }
}

pub open spec fn first_invalid(lines: Seq<Seq<u8>>) -> int {
    first_invalid_from(lines, 0)
}

proof fn lemma_first_invalid(lines: Seq<Seq<u8>>, j: int, i: int)
    requires
        0 <= j <= i <= lines.len(),
        forall|k: int| j <= k < i ==> valid_utf8(lines[k]),
        i < lines.len() ==> !valid_utf8(lines[i]),
    ensures
        first_invalid_from(lines, j) == i,
    decreases i - j,
{
    if j < i {
        lemma_first_invalid(lines, j + 1, i);
    }
}

/// The full effect of scanning one readable file: its valid text lines
/// up to the first decode failure; on such a failure, additionally every
/// printable run of the whole file; and the analyzed-file tally.
pub open spec fn file_model(m: StateModel, sv: ScanSpecView, bytes: Seq<u8>) -> StateModel {
    let lines = spec_lines(bytes);
    let k = first_invalid(lines);
    let mt = lines_model(m, sv, lines, k);
    let mb = if k < lines.len() {
        runs_model(mt, sv, spec_runs(bytes), spec_runs(bytes).len() as int)
    } else {
        mt
    };
    StateModel { tally: sat_add64(mb.tally, 1), ..mb }
}

/// The effect of a scan cancelled after the first `j` lines of a file:
/// the partial counts stand, and the file still counts as analyzed.
pub open spec fn file_partial(m: StateModel, sv: ScanSpecView, bytes: Seq<u8>, j: int) -> StateModel {
    let mt = lines_model(m, sv, spec_lines(bytes), j);
    StateModel { tally: sat_add64(mt.tally, 1), ..mt }
}

/// A cancelled file scan left the state at the model of some prefix of
/// the file's lines.
pub open spec fn cancelled_ok(m0: StateModel, m1: StateModel, sv: ScanSpecView, bytes: Seq<u8>) -> bool {
    exists|j: int| 0 <= j <= spec_lines(bytes).len() && m1 == file_partial(m0, sv, bytes, j)
}

// --- the per-file scanners ---

/// Scan a whole file's bytes as binary content: extract the printable
/// runs and match each one.  There is no cancellation checkpoint here,
/// and a run's report carries no line number.
pub fn search_binary_content(
    spec: &SearchSpec,
    path: &str,
    bytes: &Vec<u8>,
    st: &mut ScanState,
    out: &mut Vec<String>,
) -> (found: bool)
    requires
        spec.wf(),
        old(st).wf(spec@),
    ensures
        final(st).wf(spec@),
        old(out)@.is_prefix_of(final(out)@),
        to_model(*final(st), final(out)@.len() as nat) == runs_model(
            to_model(*old(st), old(out)@.len() as nat),
            spec@,
            spec_runs(bytes@),
            spec_runs(bytes@).len() as int,
        ),
        found <==> final(out)@.len() > old(out)@.len(),
{
    let ghost m0 = to_model(*old(st), old(out)@.len() as nat);
    let ghost sv = spec@;
    let runs = extract_runs(bytes.as_slice());
    let n = runs.len();
    let mut found = false;
    let mut i: usize = 0;
    while i < n
        invariant
            spec.wf(),
            st.wf(spec@),
            sv == spec@,
            n == runs@.len(),
            i <= n,
            seq_views(runs@) == spec_runs(bytes@),
            runs_wf(seq_views(runs@)),
            to_model(*st, out@.len() as nat) == runs_model(m0, sv, spec_runs(bytes@), i as int),
            old(out)@.is_prefix_of(out@),
            found <==> out@.len() > old(out)@.len(),
        decreases n - i,
    {
        assert(run_wf(runs@[i as int]@)) by {
            assert(seq_views(runs@)[i as int] == runs@[i as int]@);
        }
        let rep = scan_run(spec, path, &runs[i], st, out);
        if rep {
            found = true;
        }
        i += 1;
    }
    found
}

/// The terminal outcome of one file's scan.
pub enum FileOutcome {
    /// The file exceeded the size ceiling and was not read; it still
    /// counts as analyzed.
    SkippedSize,
    /// The file's content was scanned to its end, with or without the
    /// binary fallback; `found` says whether any report was emitted.
    Scanned { found: bool, fell_back: bool },
    /// The caller could not read the file; nothing changes, and the file
    /// does not count as analyzed.
    ReadFailed,
    /// The cancellation flag was observed between two lines; the partial
    /// counts stand, and the file counts as analyzed.
    Cancelled,
}

/// Scan one file handed over as plain values.  The size ceiling is
/// checked first, from the metadata size alone; then the content is
/// split into lines and scanned, switching to the binary fallback for
/// the whole file at the first line that is not valid text.  The
/// cancellation flag is polled before every line.
pub fn search_in_file(
    spec: &SearchSpec,
    path: &String,
    size_mb: u64,
    data: &FileData,
    flag: &CancelFlag,
    st: &mut ScanState,
    out: &mut Vec<String>,
) -> (r: FileOutcome)
    requires
        spec.wf(),
        old(st).wf(spec@),
    ensures
        final(st).wf(spec@),
        old(out)@.is_prefix_of(final(out)@),
        r is SkippedSize ==> size_exceeds(spec@, size_mb) && to_model(
            *final(st),
            final(out)@.len() as nat,
        ) == size_skip_model(to_model(*old(st), old(out)@.len() as nat)),
        r is ReadFailed ==> !size_exceeds(spec@, size_mb) && data_view(*data) is None && to_model(
            *final(st),
            final(out)@.len() as nat,
        ) == to_model(*old(st), old(out)@.len() as nat),
        r is Scanned || r is Cancelled ==> !size_exceeds(spec@, size_mb) && data_view(*data)
            is Some,
        r matches FileOutcome::Scanned { found, fell_back } ==> ({
            let m0 = to_model(*old(st), old(out)@.len() as nat);
            let m1 = to_model(*final(st), final(out)@.len() as nat);
            let b = data_view(*data).unwrap();
            &&& m1 == file_model(m0, spec@, b)
            &&& (found <==> m1.reports > m0.reports)
            &&& (fell_back <==> first_invalid(spec_lines(b)) < spec_lines(b).len())
        }),
        r is Cancelled ==> cancelled_ok(
            to_model(*old(st), old(out)@.len() as nat),
            to_model(*final(st), final(out)@.len() as nat),
            spec@,
            data_view(*data).unwrap(),
        ),
{
    let ghost m0 = to_model(*old(st), old(out)@.len() as nat);
    let ghost sv = spec@;
    if spec.max_size_mb > 0 && size_mb > spec.max_size_mb {
        let t = st.analyzed_files;
        st.analyzed_files = sat_add(t, 1);
        return FileOutcome::SkippedSize;
    }
    let b = match data {
        FileData::Bytes(bb) => bb,
        FileData::ReadFailed => { return FileOutcome::ReadFailed },
    };
    let lines = split_lines(b.as_slice());
    let n = lines.len();
    let mut found = false;
    let mut k: usize = 0;
    while k < n
        invariant
            spec.wf(),
            st.wf(spec@),
            sv == spec@,
            m0 == to_model(*old(st), old(out)@.len() as nat),
            n == lines@.len(),
            k <= n,
            !size_exceeds(sv, size_mb),
            data_view(*data) == Some(b@),
            seq_views(lines@) == spec_lines(b@),
            n == spec_lines(b@).len(),
            forall|t: int| 0 <= t < k ==> valid_utf8(seq_views(lines@)[t]),
            to_model(*st, out@.len() as nat) == lines_model(m0, sv, spec_lines(b@), k as int),
            old(out)@.is_prefix_of(out@),
            found <==> out@.len() > old(out)@.len(),
        decreases n - k,
    {
        if flag.is_stopped() {
            let t = st.analyzed_files;
            st.analyzed_files = sat_add(t, 1);
            proof {
                let m1 = to_model(*st, out@.len() as nat);
                assert(m1 == file_partial(m0, sv, b@, k as int));
                assert(cancelled_ok(m0, m1, sv, b@));
            }
            return FileOutcome::Cancelled;
        }
        assert(seq_views(lines@)[k as int] == lines@[k as int]@);
        match bytes_to_text(&lines[k]) {
            Some(text) => {
                let rep = scan_text_line(spec, path.as_str(), (k as u64) + 1, &lines[k], &text, st, out);
                if rep {
                    found = true;
                }
            },
            None => {
                proof {
                    lemma_first_invalid(seq_views(lines@), 0, k as int);
                }
                let ghost pre_len = out@.len();
                let fb = search_binary_content(spec, path.as_str(), b, st, out);
                if fb {
                    found = true;
                }
                let t = st.analyzed_files;
                st.analyzed_files = sat_add(t, 1);
                proof {
                    let m1 = to_model(*st, out@.len() as nat);
                    assert(m1 == file_model(m0, sv, b@));
                    assert(m1.reports >= pre_len);
                }
                return FileOutcome::Scanned { found, fell_back: true };
            },
        }
        k += 1;
    }
    proof {
        lemma_first_invalid(seq_views(lines@), 0, n as int);
    }
    let t = st.analyzed_files;
    st.analyzed_files = sat_add(t, 1);
    proof {
        assert(to_model(*st, out@.len() as nat) == file_model(m0, sv, b@));
    }
    FileOutcome::Scanned { found, fell_back: false }
}

// --- the directory walk ---

/// The effect of one candidate file on the walk: nothing for a file
/// excluded by extension or unreadable, the tally alone for a size skip,
/// and the full file model otherwise.
pub open spec fn entry_model(m: StateModel, sv: ScanSpecView, e: EntryView) -> StateModel {
    if excluded_by_ext(e.path_b, sv.omit) {
        m
    } else if size_exceeds(sv, e.size_mb) {
        size_skip_model(m)
    } else {
        match e.data {
            Some(b) => file_model(m, sv, b),
            None => m,
        }
    }
}

/// The effect of the first `k` candidate files of a walk.
pub open spec fn entries_model(m: StateModel, sv: ScanSpecView, es: Seq<EntryView>, k: int) -> StateModel
    decreases k,
{
    if k <= 0 {
        m
    } else {
        entry_model(entries_model(m, sv, es, k - 1), sv, es[k - 1])
    }
}

/// The ghost shapes of a sequence of candidate files.
pub open spec fn entry_views(s: Seq<FileEntry>) -> Seq<EntryView> {
    s.map_values(|e: FileEntry| e@)
}

/// A cancelled walk left the state at the model of some prefix of the
/// candidate files, possibly plus a prefix of one more file's lines.
pub open spec fn walk_partial_ok(m0: StateModel, m1: StateModel, sv: ScanSpecView, es: Seq<EntryView>) -> bool {
    exists|k: int|
        0 <= k <= es.len() && (m1 == entries_model(m0, sv, es, k) || (k < es.len()
            && !excluded_by_ext(es[k].path_b, sv.omit) && !size_exceeds(sv, es[k].size_mb)
            && es[k].data is Some && cancelled_ok(
            entries_model(m0, sv, es, k),
            m1,
            sv,
            es[k].data.unwrap(),
        )))
}

/// Whether a file of this size falls over the configured ceiling, for a
/// caller that must decide whether to read a file at all.
pub fn size_exceeds_limit(spec: &SearchSpec, size_mb: u64) -> (r: bool)
    ensures
        r == size_exceeds(spec@, size_mb),
{
    spec.max_size_mb > 0 && size_mb > spec.max_size_mb
}

/// The outcome of one candidate file of the walk.
pub enum EntryOutcome {
    /// The extension is excluded; the file is not read, not scanned, and
    /// not counted as analyzed.
    SkippedExtension,
    /// The file exceeded the size ceiling; counted as analyzed.
    SkippedSize,
    /// The file was scanned to its end.
    Scanned { found: bool, fell_back: bool },
    /// The file could not be read; the walk goes on.
    ReadFailed,
    /// The cancellation flag was observed mid-file.
    Cancelled,
}

/// One step of the walk: extension exclusion, then the file scan.
pub fn scan_one_entry(
    spec: &SearchSpec,
    entry: &FileEntry,
    flag: &CancelFlag,
    st: &mut ScanState,
    out: &mut Vec<String>,
) -> (r: EntryOutcome)
    requires
        spec.wf(),
        old(st).wf(spec@),
    ensures
        final(st).wf(spec@),
        old(out)@.is_prefix_of(final(out)@),
        r is SkippedExtension <==> excluded_by_ext(entry@.path_b, spec@.omit),
        r is SkippedSize <==> !excluded_by_ext(entry@.path_b, spec@.omit) && size_exceeds(
            spec@,
            entry@.size_mb,
        ),
        r is ReadFailed <==> !excluded_by_ext(entry@.path_b, spec@.omit) && !size_exceeds(
            spec@,
            entry@.size_mb,
        ) && entry@.data is None,
        !(r is Cancelled) ==> to_model(*final(st), final(out)@.len() as nat) == entry_model(
            to_model(*old(st), old(out)@.len() as nat),
            spec@,
            entry@,
        ),
        r is Cancelled ==> !excluded_by_ext(entry@.path_b, spec@.omit) && !size_exceeds(
            spec@,
            entry@.size_mb,
        ) && entry@.data is Some && cancelled_ok(
            to_model(*old(st), old(out)@.len() as nat),
            to_model(*final(st), final(out)@.len() as nat),
            spec@,
            entry@.data.unwrap(),
        ),
        r matches EntryOutcome::Scanned { found, fell_back } ==> (found <==> final(out)@.len()
            > old(out)@.len()),
{
    if excluded_by_extension(entry.path.as_str(), &spec.omit) {
        return EntryOutcome::SkippedExtension;
    }
    let r = search_in_file(spec, &entry.path, entry.size_mb, &entry.data, flag, st, out);
    match r {
        FileOutcome::SkippedSize => EntryOutcome::SkippedSize,
        FileOutcome::Scanned { found, fell_back } => EntryOutcome::Scanned { found, fell_back },
        FileOutcome::ReadFailed => EntryOutcome::ReadFailed,
        FileOutcome::Cancelled => EntryOutcome::Cancelled,
    }
}

/// Walk a directory's candidate files, in order.  The cancellation flag
/// is polled before each file; a file that cannot be read is passed
/// over, and never aborts the walk.  When the walk completes, the state
/// stands exactly at the model of all its inputs; when it is cancelled,
/// at the model of a prefix of them.
pub fn search_in_directory(
    spec: &SearchSpec,
    entries: &Vec<FileEntry>,
    flag: &CancelFlag,
    st: &mut ScanState,
    out: &mut Vec<String>,
) -> (completed: bool)
    requires
        spec.wf(),
        old(st).wf(spec@),
    ensures
        final(st).wf(spec@),
        old(out)@.is_prefix_of(final(out)@),
        completed ==> to_model(*final(st), final(out)@.len() as nat) == entries_model(
            to_model(*old(st), old(out)@.len() as nat),
            spec@,
            entry_views(entries@),
            entries@.len() as int,
        ),
        !completed ==> walk_partial_ok(
            to_model(*old(st), old(out)@.len() as nat),
            to_model(*final(st), final(out)@.len() as nat),
            spec@,
            entry_views(entries@),
        ),
{
    let ghost m0 = to_model(*old(st), old(out)@.len() as nat);
    let ghost sv = spec@;
    let ghost es = entry_views(entries@);
    let n = entries.len();
    let mut k: usize = 0;
    while k < n
        invariant
            spec.wf(),
            st.wf(spec@),
            sv == spec@,
            m0 == to_model(*old(st), old(out)@.len() as nat),
            es == entry_views(entries@),
            n == entries@.len(),
            k <= n,
            to_model(*st, out@.len() as nat) == entries_model(m0, sv, es, k as int),
            old(out)@.is_prefix_of(out@),
        decreases n - k,
    {
        if flag.is_stopped() {
            proof {
                let m1 = to_model(*st, out@.len() as nat);
                assert(0 <= (k as int) <= es.len() && m1 == entries_model(m0, sv, es, k as int));
            }
            return false;
        }
        let r = scan_one_entry(spec, &entries[k], flag, st, out);
        proof {
            assert(es[k as int] == entries@[k as int]@);
        }
        match r {
            EntryOutcome::Cancelled => {
                proof {
                    let m1 = to_model(*st, out@.len() as nat);
                    let mk = entries_model(m0, sv, es, k as int);
                    assert(0 <= (k as int) < es.len() && !excluded_by_ext(
                        es[k as int].path_b,
                        sv.omit,
                    ) && !size_exceeds(sv, es[k as int].size_mb) && es[k as int].data is Some
                        && cancelled_ok(mk, m1, sv, es[k as int].data.unwrap()));
                }
                return false;
            },
            _ => {},
        }
        k += 1;
    }
    true
}

} // verus!
