//! Extension-based file filtering for the tree walker: extracting a
//! path's extension and comparing it, ASCII-case-insensitively, against
//! the fixed and the user-supplied exclusion sets.

use vstd::prelude::*;
use vstd::string::StringSliceAdditionalSpecFns;
use vstd::utf8::encode_utf8;

verus! {

/// The suffix of `s` after the last occurrence of `c`, or all of `s` if
/// `c` does not occur.
pub open spec fn tail_after(s: Seq<u8>, c: u8) -> Seq<u8>
    decreases s.len(),
{
    if s.len() == 0 {
        seq![]
    } else if s[s.len() - 1] == c {
        seq![]
    } else {
        tail_after(s.drop_last(), c).push(s[s.len() - 1])
    }
}

pub open spec fn contains_byte(s: Seq<u8>, c: u8) -> bool {
    exists|i: int| 0 <= i < s.len() && s[i] == c
}

/// The extension of a path, with the rules of the standard library: the
/// part of the file name after its last dot, none if there is no dot
/// past the first character, and none for the parent-directory name.
pub open spec fn extension_of(p: Seq<u8>) -> Option<Seq<u8>> {
    let name = tail_after(p, 0x2f);
    if name.len() == 0 {
        None
    } else if name == seq![0x2eu8, 0x2eu8] {
        None
    } else if !contains_byte(name.subrange(1, name.len() as int), 0x2e) {
        None
    } else {
        Some(tail_after(name, 0x2e))
    }
}

pub open spec fn ascii_lower(b: u8) -> u8 {
    if 0x41 <= b <= 0x5a {
        (b + 0x20) as u8
    } else {
        b
    }
}

/// Byte-wise equality up to ASCII case.
pub open spec fn eq_icase(a: Seq<u8>, b: Seq<u8>) -> bool {
    a.len() == b.len() && forall|i: int| 0 <= i < a.len() ==> ascii_lower(a[i]) == ascii_lower(b[i])
}

/// The byte views of a sequence of strings.
pub open spec fn byte_views(s: Seq<String>) -> Seq<Seq<u8>> {
    s.map_values(|x: String| encode_utf8(x@))
}

/// A file is excluded when its extension, case-insensitively, is `log` or
/// `tmp` or one of the user-supplied extensions.
pub open spec fn excluded_by_ext(path: Seq<u8>, omit: Seq<Seq<u8>>) -> bool {
    match extension_of(path) {
        Some(e) => eq_icase(e, seq![0x6cu8, 0x6fu8, 0x67u8]) || eq_icase(
            e,
            seq![0x74u8, 0x6du8, 0x70u8],
        ) || exists|i: int| 0 <= i < omit.len() && eq_icase(omit[i], e),
        None => false,
    }
}

proof fn lemma_tail_after_none(s: Seq<u8>, c: u8)
    requires
        forall|k: int| 0 <= k < s.len() ==> s[k] != c,
    ensures
        tail_after(s, c) == s,
    decreases s.len(),
{
    if s.len() == 0 {
        assert(tail_after(s, c) =~= s);
    } else {
        lemma_tail_after_none(s.drop_last(), c);
        assert(tail_after(s, c) =~= s);
    }
}

proof fn lemma_tail_after_at(s: Seq<u8>, c: u8, j: int)
    requires
        0 <= j < s.len(),
        s[j] == c,
        forall|k: int| j < k < s.len() ==> s[k] != c,
    ensures
        tail_after(s, c) == s.subrange(j + 1, s.len() as int),
    decreases s.len(),
{
    if j == s.len() - 1 {
        assert(tail_after(s, c) =~= s.subrange(j + 1, s.len() as int));
    } else {
        lemma_tail_after_at(s.drop_last(), c, j);
        assert(s.drop_last().subrange(j + 1, s.len() - 1) =~= s.subrange(j + 1, s.len() - 1));
        assert(tail_after(s, c) =~= s.subrange(j + 1, s.len() as int));
    }
}

/// The position just after the last occurrence of `c`, or zero if `c`
/// does not occur; the returned suffix start satisfies `tail_after`.
fn suffix_after_last(s: &[u8], c: u8) -> (r: usize)
    ensures
        r <= s@.len(),
        tail_after(s@, c) == s@.subrange(r as int, s@.len() as int),
        r > 0 ==> s@[r - 1] == c,
        forall|k: int| r <= k < s@.len() ==> s@[k] != c,
{
    let n = s.len();
    let mut i: usize = n;
    while i > 0
        invariant
            n == s@.len(),
            i <= n,
            forall|k: int| i <= k < n ==> s@[k] != c,
        decreases i,
    {
        if s[i - 1] == c {
            proof {
                lemma_tail_after_at(s@, c, i - 1);
            }
            return i;
        }
        i -= 1;
    }
    proof {
        lemma_tail_after_none(s@, c);
        assert(s@.subrange(0, s@.len() as int) =~= s@);
    }
    0
}

/// The extension of a path, as bytes, with the rules of
/// [`extension_of`].
pub fn extension_bytes(p: &[u8]) -> (r: Option<Vec<u8>>)
    ensures
        r is Some <==> extension_of(p@) is Some,
        r matches Some(v) ==> extension_of(p@) == Some(v@),
{
    let n = p.len();
    let name_start = suffix_after_last(p, 0x2f);
    let ghost name = tail_after(p@, 0x2f);
    if n - name_start == 2 && p[name_start] == 0x2e && p[name_start + 1] == 0x2e {
        assert(name =~= seq![0x2eu8, 0x2eu8]);
        return None;
    }
    assert(name != seq![0x2eu8, 0x2eu8]) by {
        if name =~= seq![0x2eu8, 0x2eu8] {
            assert(p@[name_start as int] == 0x2e && p@[name_start + 1] == 0x2e);
        }
    }
    if name_start == n {
        return None;
    }
    let dot_start = suffix_after_last(p, 0x2e);
    // The extension exists exactly when the last dot lies strictly inside
    // the file name, past its first byte.
    if dot_start > name_start && dot_start - name_start >= 2 {
        let ghost d = dot_start - 1 - name_start;
        assert(name =~= p@.subrange(name_start as int, n as int));
        assert(0 < d < name.len() && name[d] == 0x2e);
        assert(name.subrange(1, name.len() as int)[d - 1] == 0x2e);
        assert(contains_byte(name.subrange(1, name.len() as int), 0x2e));
        let mut v: Vec<u8> = Vec::new();
        let mut i: usize = dot_start;
        while i < n
            invariant
                n == p@.len(),
                dot_start <= i <= n,
                v@ == p@.subrange(dot_start as int, i as int),
            decreases n - i,
        {
            v.push(p[i]);
            assert(v@ =~= p@.subrange(dot_start as int, i + 1));
            i += 1;
        }
        proof {
            lemma_tail_after_at(name, 0x2e, d);
            assert(name.subrange(d + 1, name.len() as int) =~= p@.subrange(
                dot_start as int,
                n as int,
            ));
        }
        Some(v)
    } else {
        assert(!contains_byte(name.subrange(1, name.len() as int), 0x2e)) by {
            assert(name =~= p@.subrange(name_start as int, n as int));
            if contains_byte(name.subrange(1, name.len() as int), 0x2e) {
                let k = choose|k: int|
                    0 <= k < name.len() - 1 && name.subrange(1, name.len() as int)[k] == 0x2e;
                assert(p@[name_start + 1 + k] == 0x2e);
                assert(name_start + 1 + k >= dot_start);
            }
        }
        None
    }
}

/// Byte-wise ASCII-case-insensitive equality.
pub fn eq_ignore_case(a: &[u8], b: &[u8]) -> (r: bool)
    ensures
        r == eq_icase(a@, b@),
{
    let n = a.len();
    if n != b.len() {
        return false;
    }
    let mut i: usize = 0;
    while i < n
        invariant
            n == a@.len() == b@.len(),
            i <= n,
            forall|k: int| 0 <= k < i ==> ascii_lower(a@[k]) == ascii_lower(b@[k]),
        decreases n - i,
    {
        let x = a[i];
        let y = b[i];
        let xl = if 0x41 <= x && x <= 0x5a {
            x + 0x20
        } else {
            x
        };
        let yl = if 0x41 <= y && y <= 0x5a {
            y + 0x20
        } else {
            y
        };
        if xl != yl {
            return false;
        }
        i += 1;
    }
    true
}

/// Whether the file at this path is excluded by the fixed or the
/// user-supplied extension sets, compared without regard to ASCII case.
pub fn excluded_by_extension(path: &str, omit: &Vec<String>) -> (r: bool)
    ensures
        r == excluded_by_ext(path.spec_bytes(), byte_views(omit@)),
{
    let pb = path.as_bytes();
    match extension_bytes(pb) {
        None => false,
        Some(e) => {
            let log: Vec<u8> = vec![0x6c, 0x6f, 0x67];
            let tmp: Vec<u8> = vec![0x74, 0x6d, 0x70];
            assert(log@ =~= seq![0x6cu8, 0x6fu8, 0x67u8]);
            assert(tmp@ =~= seq![0x74u8, 0x6du8, 0x70u8]);
            if eq_ignore_case(e.as_slice(), log.as_slice()) {
                return true;
            }
            if eq_ignore_case(e.as_slice(), tmp.as_slice()) {
                return true;
            }
            let n = omit.len();
            let mut i: usize = 0;
            while i < n
                invariant
                    n == omit@.len(),
                    i <= n,
                    extension_of(path.spec_bytes()) == Some(e@),
                    forall|k: int| 0 <= k < i ==> !eq_icase(byte_views(omit@)[k], e@),
                decreases n - i,
            {
                if eq_ignore_case(omit[i].as_str().as_bytes(), e.as_slice()) {
                    assert(eq_icase(byte_views(omit@)[i as int], e@));
                    return true;
                }
                i += 1;
            }
            false
        },
    }
}

} // verus!
