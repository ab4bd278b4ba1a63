use colored::Colorize;
use vstd::prelude::*;

verus! {

/// Paints the text red for terminal display.
///
/// Relies on `colored::Colorize::red` from the colored crate: it wraps
/// the text in color escape codes, or returns it unchanged when coloring
/// is off (a tty and environment decision), so nothing is promised of the
/// result.
#[verifier::external_body]
pub fn paint_red(s: &str) -> String {
    s.red().to_string()
}

/// Paints the text cyan for terminal display.
///
/// Relies on `colored::Colorize::cyan` from the colored crate; see
/// [`paint_red`] for why nothing is promised of the result.
#[verifier::external_body]
pub fn paint_cyan(s: &str) -> String {
    s.cyan().to_string()
}

/// Paints the text bold for terminal display.
///
/// Relies on `colored::Colorize::bold` from the colored crate; see
/// [`paint_red`] for why nothing is promised of the result.
#[verifier::external_body]
pub fn paint_bold(s: &str) -> String {
    s.bold().to_string()
}

} // verus!
