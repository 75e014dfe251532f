//! Byte-level text algorithms: substring containment and non-overlapping
//! occurrence counting.  These give the counting semantics of the scanner,
//! which is plain substring containment, deliberately distinct from the
//! word-boundary semantics used for highlighting.

use vstd::prelude::*;

verus! {

/// The needle occurs in the haystack starting at position `i`.
pub open spec fn contains_at(hay: Seq<u8>, needle: Seq<u8>, i: int) -> bool {
    0 <= i && i + needle.len() <= hay.len() && hay.subrange(i, i + needle.len() as int)
        == needle
}

/// Plain substring containment.
pub open spec fn contains_sub(hay: Seq<u8>, needle: Seq<u8>) -> bool {
    exists|i: int| contains_at(hay, needle, i)
}

/// Number of non-overlapping occurrences of a non-empty needle, scanning
/// from the left and skipping past each occurrence found.
pub open spec fn count_occ_from(hay: Seq<u8>, needle: Seq<u8>, i: int) -> nat
    decreases hay.len() - i,
{
    if needle.len() == 0 || i + needle.len() > hay.len() || i < 0 {
        0
    } else if contains_at(hay, needle, i) {
        1 + count_occ_from(hay, needle, i + needle.len() as int)
    } else {
        count_occ_from(hay, needle, i + 1)
    }
}

/// Non-overlapping occurrence count, with the convention of `str::matches`
/// for an empty needle: one empty match per position, including the end.
pub open spec fn count_occ(hay: Seq<u8>, needle: Seq<u8>) -> nat {
    if needle.len() == 0 {
        hay.len() + 1
    } else {
        count_occ_from(hay, needle, 0)
    }
}

/// A count clamped into `u64`.
pub open spec fn sat64(n: nat) -> u64 {
    if n >= u64::MAX {
        u64::MAX
    } else {
        n as u64
    }
}

/// Saturating counter update: counters never overflow, they stick at the top.
pub open spec fn sat_add64(a: u64, n: nat) -> u64 {
    sat64((a + n) as nat)
}

/// Saturating add on `u64` counters.
pub fn sat_add(a: u64, b: u64) -> (r: u64)
    ensures
        r == sat_add64(a, b as nat),
{
    if a <= u64::MAX - b {
        a + b
    } else {
        u64::MAX
    }
}

fn eq_at(hay: &[u8], needle: &[u8], i: usize) -> (r: bool)
    requires
        i + needle@.len() <= hay@.len(),
    ensures
        r == contains_at(hay@, needle@, i as int),
{
    let n = needle.len();
    let hlen = hay.len();
    let mut j: usize = 0;
    while j < n
        invariant
            n == needle@.len(),
            hlen == hay@.len(),
            i + n <= hay@.len(),
            j <= n,
            forall|k: int| 0 <= k < j ==> hay@[i + k] == needle@[k],
        decreases n - j,
    {
        if hay[i + j] != needle[j] {
            assert(hay@.subrange(i as int, i + n as int)[j as int] == hay@[i + j]);
            return false;
        }
        j += 1;
    }
    assert(hay@.subrange(i as int, i + n as int) =~= needle@);
    true
}

/// Whether the keyword occurs anywhere in the line, as plain bytes.
pub fn contains_keyword(hay: &[u8], needle: &[u8]) -> (r: bool)
    ensures
        r == contains_sub(hay@, needle@),
{
    let n = needle.len();
    if n > hay.len() {
        assert(forall|k: int| !contains_at(hay@, needle@, k));
        return false;
    }
    if n == 0 {
        assert(contains_at(hay@, needle@, 0)) by {
            assert(hay@.subrange(0, 0) =~= needle@);
        }
        return true;
    }
    let hlen = hay.len();
    let mut i: usize = 0;
    while i <= hlen - n
        invariant
            n == needle@.len(),
            hlen == hay@.len(),
            0 < n <= hay@.len(),
            i <= hay@.len() - n + 1,
            forall|k: int| 0 <= k < i ==> !contains_at(hay@, needle@, k),
        decreases hay@.len() - n - i + 1,
    {
        if eq_at(hay, needle, i) {
            return true;
        }
        i += 1;
    }
    assert(forall|k: int| !contains_at(hay@, needle@, k));
    false
}

/// Count of non-overlapping occurrences, clamped into `u64`.
pub fn count_occurrences(hay: &[u8], needle: &[u8]) -> (r: u64)
    ensures
        r == sat64(count_occ(hay@, needle@)),
{
    let n = needle.len();
    if n == 0 {
        if hay.len() as u64 == u64::MAX {
            return u64::MAX;
        }
        return hay.len() as u64 + 1;
    }
    if n > hay.len() {
        return 0;
    }
    let hlen = hay.len();
    let mut i: usize = 0;
    let mut c: u64 = 0;
    while i <= hlen - n
        invariant
            n == needle@.len(),
            hlen == hay@.len(),
            0 < n <= hay@.len(),
            i <= hay@.len(),
            sat_add64(c, count_occ_from(hay@, needle@, i as int)) == sat64(
                count_occ_from(hay@, needle@, 0),
            ),
        decreases hay@.len() - i,
    {
        if eq_at(hay, needle, i) {
            c = sat_add(c, 1);
            i += n;
        } else {
            i += 1;
        }
    }
    assert(count_occ_from(hay@, needle@, i as int) == 0);
    c
}

// --- line splitting ---

/// A single trailing carriage return is dropped, as the line reader drops
/// the CR of a CRLF line ending.
pub open spec fn strip_cr(l: Seq<u8>) -> Seq<u8> {
    if l.len() > 0 && l[l.len() - 1] == 0x0d {
        l.drop_last()
    } else {
        l
    }
}

/// Lines of the bytes from position `i` on, `cur` being the part of the
/// current line read so far.  Lines are separated by LF; a final fragment
/// without a terminator is a line of its own unless it is empty.
pub open spec fn lines_acc(b: Seq<u8>, i: int, cur: Seq<u8>) -> Seq<Seq<u8>>
    decreases b.len() - i,
{
    if i < 0 || i >= b.len() {
        if cur.len() == 0 {
            seq![]
        } else {
            seq![cur]
        }
    } else if b[i] == 0x0a {
        seq![strip_cr(cur)] + lines_acc(b, i + 1, seq![])
    } else {
        lines_acc(b, i + 1, cur.push(b[i]))
    }
}

/// The lines of a file's bytes.
pub open spec fn spec_lines(b: Seq<u8>) -> Seq<Seq<u8>> {
    lines_acc(b, 0, seq![])
}

/// The views of a sequence of byte vectors.
pub open spec fn seq_views(s: Seq<Vec<u8>>) -> Seq<Seq<u8>> {
    s.map_values(|v: Vec<u8>| v@)
}

/// Split a file's bytes into lines: separated by LF, with the CR of a
/// CRLF ending dropped, and no empty fragment after a final LF.
pub fn split_lines(b: &[u8]) -> (r: Vec<Vec<u8>>)
    ensures
        seq_views(r@) == spec_lines(b@),
{
    let blen = b.len();
    let mut out: Vec<Vec<u8>> = Vec::new();
    let mut cur: Vec<u8> = Vec::new();
    let mut i: usize = 0;
    while i < blen
        invariant
            blen == b@.len(),
            i <= blen,
            spec_lines(b@) == seq_views(out@) + lines_acc(b@, i as int, cur@),
        decreases blen - i,
    {
        if b[i] == 0x0a {
            let ghost pre = cur@;
            let clen = cur.len();
            if clen > 0 && cur[clen - 1] == 0x0d {
                cur.pop();
            }
            assert(cur@ == strip_cr(pre));
            let ghost outpre = out@;
            out.push(cur);
            cur = Vec::new();
            assert(seq_views(out@) =~= seq_views(outpre) + seq![strip_cr(pre)]);
            assert(seq_views(out@) + lines_acc(b@, i + 1, cur@) =~= seq_views(outpre)
                + lines_acc(b@, i as int, pre));
        } else {
            cur.push(b[i]);
        }
        i += 1;
    }
    if cur.len() > 0 {
        let ghost outpre = out@;
        let ghost pre = cur@;
        out.push(cur);
        assert(seq_views(out@) =~= seq_views(outpre) + seq![pre]);
    } else {
        assert(seq_views(out@) + lines_acc(b@, i as int, cur@) =~= seq_views(out@));
    }
    out
}

// --- printable runs ---

/// A visible ASCII byte: space through tilde.
pub open spec fn printable(b: u8) -> bool {
    0x20 <= b <= 0x7e
}

/// A printable run as emitted by the binary fallback: at least four
/// visible ASCII bytes.
pub open spec fn run_wf(r: Seq<u8>) -> bool {
    r.len() >= 4 && forall|k: int| 0 <= k < r.len() ==> printable(r[k])
}

pub open spec fn runs_wf(rs: Seq<Seq<u8>>) -> bool {
    forall|j: int| 0 <= j < rs.len() ==> run_wf(rs[j])
}

/// The maximal printable runs of length at least four, from position `i`
/// on, `cur` being the printable bytes read so far of the current run.
pub open spec fn runs_acc(b: Seq<u8>, i: int, cur: Seq<u8>) -> Seq<Seq<u8>>
    decreases b.len() - i,
{
    let flushed: Seq<Seq<u8>> = if cur.len() >= 4 {
        seq![cur]
    } else {
        seq![]
    };
    if i < 0 || i >= b.len() {
        flushed
    } else if printable(b[i]) {
        runs_acc(b, i + 1, cur.push(b[i]))
    } else {
        flushed + runs_acc(b, i + 1, seq![])
    }
}

/// The printable runs of a file's bytes.
pub open spec fn spec_runs(b: Seq<u8>) -> Seq<Seq<u8>> {
    runs_acc(b, 0, seq![])
}

proof fn lemma_runs_acc_wf(b: Seq<u8>, i: int, cur: Seq<u8>)
    requires
        forall|k: int| 0 <= k < cur.len() ==> printable(cur[k]),
    ensures
        runs_wf(runs_acc(b, i, cur)),
    decreases b.len() - i,
{
    if i < 0 || i >= b.len() {
    } else if printable(b[i]) {
        lemma_runs_acc_wf(b, i + 1, cur.push(b[i]));
    } else {
        lemma_runs_acc_wf(b, i + 1, seq![]);
    }
}

/// Every printable run is well formed: at least four bytes, all visible
/// ASCII.
pub proof fn lemma_runs_wf(b: Seq<u8>)
    ensures
        runs_wf(spec_runs(b)),
{
    lemma_runs_acc_wf(b, 0, seq![]);
}

/// Extract the maximal runs of at least four visible ASCII bytes.
pub fn extract_runs(b: &[u8]) -> (r: Vec<Vec<u8>>)
    ensures
        seq_views(r@) == spec_runs(b@),
        runs_wf(seq_views(r@)),
{
    let blen = b.len();
    let mut out: Vec<Vec<u8>> = Vec::new();
    let mut cur: Vec<u8> = Vec::new();
    let mut i: usize = 0;
    while i < blen
        invariant
            blen == b@.len(),
            i <= blen,
            spec_runs(b@) == seq_views(out@) + runs_acc(b@, i as int, cur@),
        decreases blen - i,
    {
        let c = b[i];
        if 0x20 <= c && c <= 0x7e {
            cur.push(c);
        } else {
            let ghost outpre = out@;
            let ghost pre = cur@;
            if cur.len() >= 4 {
                out.push(cur);
                cur = Vec::new();
                assert(seq_views(out@) =~= seq_views(outpre) + seq![pre]);
            } else {
                cur.clear();
            }
            assert(seq_views(out@) + runs_acc(b@, i + 1, cur@) =~= seq_views(outpre)
                + runs_acc(b@, i as int, pre));
        }
        i += 1;
    }
    let ghost outpre = out@;
    let ghost pre = cur@;
    if cur.len() >= 4 {
        out.push(cur);
        assert(seq_views(out@) =~= seq_views(outpre) + seq![pre]);
    } else {
        assert(seq_views(out@) + runs_acc(b@, i as int, cur@) =~= seq_views(out@));
    }
    proof {
        lemma_runs_wf(b@);
    }
    out
}

} // verus!
