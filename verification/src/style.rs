//! Visual styling of report fragments, through the `colored` crate.
//!
//! Whether styling actually inserts escape codes depends on the terminal
//! and the environment, so nothing is promised of these results; all
//! counting and reporting decisions are taken on the unstyled text.

use vstd::prelude::*;

use colored::Colorize;

verus! {

/// Relies on `colored`: a matched keyword rendered red and bold.
#[verifier::external_body]
pub fn style_keyword(s: &str) -> String {
    s.red().bold().to_string()
}

/// Relies on `colored`: a regex match rendered green and bold.
#[verifier::external_body]
pub fn style_found(s: &str) -> String {
    s.green().bold().to_string()
}

/// Relies on `colored`: a file path rendered blue and bold.
#[verifier::external_body]
pub fn style_path(s: &str) -> String {
    s.blue().bold().to_string()
}

/// Relies on `colored`: a line number rendered yellow and bold.
#[verifier::external_body]
pub fn style_line_number(s: &str) -> String {
    s.yellow().bold().to_string()
}

} // verus!
