//! Assembling report lines: decimal line numbers, fragment joining, and
//! the two report shapes (a text line with a line number, a binary run
//! without one).  The styled pieces run through `colored`, so a report's
//! exact text is not pinned down; the scanner's contracts instead pin
//! down exactly when a report is emitted.

use vstd::prelude::*;
use vstd::string::StringExecFns;

use crate::pattern::ascii_to_string;
use crate::style::{style_line_number, style_path};
use crate::text::printable;

verus! {

/// The decimal digits of a number, most significant first.
pub open spec fn dec_digits(n: nat) -> Seq<u8>
    decreases n,
{
    if n < 10 {
        seq![(0x30 + n) as u8]
    } else {
        dec_digits(n / 10).push((0x30 + n % 10) as u8)
    }
}

pub proof fn lemma_dec_digits_printable(n: nat)
    ensures
        forall|k: int| 0 <= k < dec_digits(n).len() ==> printable(dec_digits(n)[k]),
    decreases n,
{
    if n < 10 {
        assert(dec_digits(n)[0] == (0x30 + n) as u8);
    } else {
        lemma_dec_digits_printable(n / 10);
        assert forall|k: int| 0 <= k < dec_digits(n).len() implies printable(dec_digits(n)[k]) by {
            if k < dec_digits(n).len() - 1 {
                assert(dec_digits(n)[k] == dec_digits(n / 10)[k]);
            } else {
                assert(dec_digits(n)[k] == (0x30 + n % 10) as u8);
            }
        }
    }
}

fn push_dec(n: u64, out: &mut Vec<u8>)
    ensures
        final(out)@ == old(out)@ + dec_digits(n as nat),
    decreases n,
{
    if n < 10 {
        out.push(0x30 + (n as u8));
        assert(out@ =~= old(out)@ + dec_digits(n as nat));
    } else {
        push_dec(n / 10, out);
        out.push(0x30 + ((n % 10) as u8));
        assert(out@ =~= old(out)@ + dec_digits(n as nat));
    }
}

/// The decimal digits of a number, as characters.
pub open spec fn dec_chars(n: nat) -> Seq<char> {
    dec_digits(n).map_values(|b: u8| b as char)
}

/// Render a counter in decimal.
pub fn u64_to_string(n: u64) -> (r: String)
    ensures
        r@ == dec_chars(n as nat),
{
    let mut v: Vec<u8> = Vec::new();
    push_dec(n, &mut v);
    proof {
        lemma_dec_digits_printable(n as nat);
    }
    let s = ascii_to_string(&v);
    assert(s@ =~= dec_chars(n as nat));
    s
}

/// The fragments joined by the separator.
pub open spec fn join_with(parts: Seq<Seq<char>>, sep: Seq<char>) -> Seq<char>
    decreases parts.len(),
{
    if parts.len() == 0 {
        seq![]
    } else if parts.len() == 1 {
        parts[0]
    } else {
        join_with(parts.drop_last(), sep) + sep + parts.last()
    }
}

/// Join the fragments with the separator.
pub fn join(parts: &Vec<String>, sep: &str) -> (r: String)
    ensures
        r@ == join_with(parts.deep_view(), sep@),
{
    let n = parts.len();
    let mut r = String::new();
    if n == 0 {
        return r;
    }
    r.append(parts[0].as_str());
    let mut i: usize = 1;
    while i < n
        invariant
            1 <= i <= n,
            n == parts@.len(),
            r@ == join_with(parts.deep_view().take(i as int), sep@),
        decreases n - i,
    {
        r.append(sep);
        r.append(parts[i].as_str());
        proof {
            let dv = parts.deep_view();
            assert(dv.take(i + 1).drop_last() =~= dv.take(i as int));
            assert(dv.take(i + 1).last() == dv[i as int]);
        }
        i += 1;
    }
    proof {
        assert(parts.deep_view().take(n as int) =~= parts.deep_view());
    }
    r
}

/// A report for a matching text line: the styled path, the styled 1-based
/// line number, and the matched fragments joined by a comma.
pub fn report_line(path: &str, line_no: u64, frags: &Vec<String>) -> String {
    let mut r = style_path(path);
    r.append(":");
    let no = u64_to_string(line_no);
    r.append(style_line_number(no.as_str()).as_str());
    r.append(" ");
    r.append(join(frags, ", ").as_str());
    r
}

/// A report for a matching printable run of a binary file: the styled
/// path and the matched fragments, with no line number.
pub fn report_run(path: &str, frags: &Vec<String>) -> String {
    let mut r = style_path(path);
    r.append(": ");
    r.append(join(frags, ", ").as_str());
    r
}

} // verus!
