//! The matcher: word-boundary highlighting of literal keywords.
//!
//! Each keyword is matched as an escaped, word-boundary-wrapped pattern
//! against the line as highlighted so far, and every match is replaced by
//! a styled rendering of the keyword.  Because a replacement only happens
//! on a match, the line is still untouched when each keyword first looks
//! at it, so whether anything is highlighted at all depends only on the
//! original line.

use vstd::prelude::*;
use vstd::string::StringExecFns;

use crate::pattern::{rx_is_match, rx_replace_all, Pattern};
use crate::style::style_keyword;

verus! {

/// The pattern sources of the compiled keyword patterns, where
/// compilation succeeded.
pub open spec fn pat_views(ps: Seq<Option<Pattern>>) -> Seq<Option<Seq<char>>> {
    ps.map_values(
        |p: Option<Pattern>|
            match p {
                Some(q) => Some(q@),
                None => None,
            },
    )
}

/// The state of highlighting after the first `i` keywords: the line as
/// rewritten so far, and whether any keyword matched.  Keywords without a
/// compiled pattern are passed over.
pub open spec fn hl_state(
    line: Seq<char>,
    pats: Seq<Option<Seq<char>>>,
    styled: Seq<Seq<char>>,
    i: int,
) -> (Seq<char>, bool)
    decreases i,
{
    if i <= 0 {
        (line, false)
    } else {
        let prev = hl_state(line, pats, styled, i - 1);
        match pats[i - 1] {
            Some(p) => if rx_is_match(p, prev.0) {
                (rx_replace_all(p, prev.0, styled[i - 1]), true)
            } else {
                prev
            },
            None => prev,
        }
    }
}

/// Until some keyword matches, the line is untouched; and a keyword
/// matches during the fold exactly when it matches the original line.
pub proof fn lemma_hl_found(
    line: Seq<char>,
    pats: Seq<Option<Seq<char>>>,
    styled: Seq<Seq<char>>,
    i: int,
)
    ensures
        !hl_state(line, pats, styled, i).1 ==> hl_state(line, pats, styled, i).0 == line,
        hl_state(line, pats, styled, i).1 <==> exists|j: int|
            0 <= j < i && pats[j] is Some && rx_is_match(pats[j].unwrap(), line),
    decreases i,
{
    if i <= 0 {
    } else {
        lemma_hl_found(line, pats, styled, i - 1);
        let prev = hl_state(line, pats, styled, i - 1);
        if prev.1 {
            let j = choose|j: int|
                0 <= j < i - 1 && pats[j] is Some && rx_is_match(pats[j].unwrap(), line);
            assert(0 <= j < i && pats[j] is Some && rx_is_match(pats[j].unwrap(), line));
        } else {
            match pats[i - 1] {
                Some(p) => {
                    if rx_is_match(p, prev.0) {
                        assert(0 <= i - 1 < i && pats[i - 1] is Some && rx_is_match(
                            pats[i - 1].unwrap(),
                            line,
                        ));
                    } else {
                        assert(forall|j: int|
                            0 <= j < i && pats[j] is Some && rx_is_match(pats[j].unwrap(), line)
                                ==> j < i - 1);
                    }
                },
                None => {
                    assert(forall|j: int|
                        0 <= j < i && pats[j] is Some && rx_is_match(pats[j].unwrap(), line) ==> j
                            < i - 1);
                },
            }
        }
    }
}

/// Rewrite the line with the given styled replacements, one per keyword
/// pattern, and say whether any keyword matched.  This is the exact,
/// style-independent core of highlighting: it takes the styled texts as
/// plain arguments.
pub fn render_with(line: &str, kw_pats: &Vec<Option<Pattern>>, styled: &Vec<String>) -> (r: Option<
    String,
>)
    requires
        styled@.len() == kw_pats@.len(),
    ensures
        ({
            let st = hl_state(line@, pat_views(kw_pats@), styled.deep_view(), kw_pats@.len() as int);
            &&& r is Some <==> st.1
            &&& (r matches Some(s) ==> s@ == st.0)
        }),
{
    let n = kw_pats.len();
    let mut cur = String::from_str(line);
    let mut found = false;
    let mut i: usize = 0;
    while i < n
        invariant
            n == kw_pats@.len(),
            styled@.len() == n,
            i <= n,
            ({
                let st = hl_state(line@, pat_views(kw_pats@), styled.deep_view(), i as int);
                cur@ == st.0 && found == st.1
            }),
        decreases n - i,
    {
        match &kw_pats[i] {
            Some(p) => {
                if p.is_match(cur.as_str()) {
                    cur = p.replace_all(cur.as_str(), styled[i].as_str());
                    found = true;
                }
            },
            None => {},
        }
        i += 1;
    }
    if found {
        Some(cur)
    } else {
        None
    }
}

/// Highlight every word-boundary occurrence of any keyword in the line,
/// or report that none occurs.  The rendered content runs through the
/// styling of [`style_keyword`], so only the match decision is pinned
/// down: the result is present exactly when some compiled keyword pattern
/// matches the original line.
pub fn highlight_keywords(line: &str, keywords: &Vec<String>, kw_pats: &Vec<Option<Pattern>>) -> (r:
    Option<String>)
    requires
        keywords@.len() == kw_pats@.len(),
    ensures
        r is Some <==> exists|j: int|
            0 <= j < kw_pats@.len() && kw_pats@[j] is Some && rx_is_match(
                pat_views(kw_pats@)[j].unwrap(),
                line@,
            ),
{
    let n = keywords.len();
    let mut styled: Vec<String> = Vec::new();
    let mut i: usize = 0;
    while i < n
        invariant
            n == keywords@.len(),
            i <= n,
            styled@.len() == i,
        decreases n - i,
    {
        styled.push(style_keyword(keywords[i].as_str()));
        i += 1;
    }
    let r = render_with(line, kw_pats, &styled);
    proof {
        lemma_hl_found(line@, pat_views(kw_pats@), styled.deep_view(), kw_pats@.len() as int);
        assert(forall|j: int|
            0 <= j < kw_pats@.len() ==> (pat_views(kw_pats@)[j] is Some <==> kw_pats@[j] is Some));
    }
    r
}

} // verus!
