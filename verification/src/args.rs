//! The caller-facing invocation arguments, and the splitting of a
//! comma-separated keyword list.  Parsing the command line itself is the
//! caller's job; these are the plain values it hands over.

use vstd::prelude::*;
use vstd::string::{StrSliceExecFns, StringExecFns};

verus! {

/// The arguments of one invocation, as plain values.
pub struct Args {
    /// Keywords to search for, comma-separated.
    pub find: Option<String>,
    /// Directory or file to search in.
    pub path: String,
    /// Show diagnostic messages.
    pub show: bool,
    /// Maximum file size to analyze, in megabytes; zero means unlimited.
    pub maxsize: u64,
    /// Optional file to copy the results to.
    pub output: Option<String>,
    /// File extensions to omit.
    pub omit: Option<Vec<String>>,
    /// Regular-expression pattern sources.
    pub regex: Option<Vec<String>>,
    /// The search keywords again, as a positional argument.
    pub positional_find: Option<String>,
}

/// The comma-separated pieces of the text from position `i` on, `cur`
/// being the piece read so far.  There is always at least one piece:
/// an empty text is one empty piece.
pub open spec fn split_acc(s: Seq<char>, i: int, cur: Seq<char>) -> Seq<Seq<char>>
    decreases s.len() - i,
{
    if i < 0 || i >= s.len() {
        seq![cur]
    } else if s[i] == ',' {
        seq![cur] + split_acc(s, i + 1, seq![])
    } else {
        split_acc(s, i + 1, cur.push(s[i]))
    }
}

/// The comma-separated pieces of a keyword list.
pub open spec fn spec_split_commas(s: Seq<char>) -> Seq<Seq<char>> {
    split_acc(s, 0, seq![])
}

/// Split a comma-separated keyword list into its pieces, empty pieces
/// included.
pub fn split_commas(s: &str) -> (r: Vec<String>)
    ensures
        r.deep_view() == spec_split_commas(s@),
{
    let n = s.unicode_len();
    let mut out: Vec<String> = Vec::new();
    let mut start: usize = 0;
    let mut i: usize = 0;
    proof {
        assert(out.deep_view() =~= Seq::<Seq<char>>::empty());
        assert(s@.subrange(0, 0) =~= Seq::<char>::empty());
        assert(out.deep_view() + split_acc(s@, 0, s@.subrange(0, 0)) =~= split_acc(
            s@,
            0,
            s@.subrange(0, 0),
        ));
    }
    while i < n
        invariant
            n == s@.len(),
            start <= i <= n,
            spec_split_commas(s@) == out.deep_view() + split_acc(
                s@,
                i as int,
                s@.subrange(start as int, i as int),
            ),
        decreases n - i,
    {
        if s.get_char(i) == ',' {
            let ghost pstart = start as int;
            let piece = String::from_str(s.substring_char(start, i));
            let ghost outpre = out.deep_view();
            out.push(piece);
            start = i + 1;
            proof {
                assert(out.deep_view() =~= outpre + seq![s@.subrange(pstart, i as int)]);
                assert(s@.subrange(i + 1, i + 1) =~= Seq::<char>::empty());
                assert(outpre + split_acc(s@, i as int, s@.subrange(pstart, i as int))
                    =~= out.deep_view() + split_acc(s@, i + 1, s@.subrange(i + 1, i + 1)));
            }
        } else {
            proof {
                assert(s@.subrange(start as int, i as int).push(s@[i as int]) =~= s@.subrange(
                    start as int,
                    i + 1,
                ));
            }
        }
        i += 1;
    }
    let piece = String::from_str(s.substring_char(start, n));
    let ghost outpre = out.deep_view();
    out.push(piece);
    proof {
        assert(out.deep_view() =~= outpre + seq![s@.subrange(start as int, n as int)]);
    }
    out
}

} // verus!
