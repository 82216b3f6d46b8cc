use colored::Colorize;
use vstd::prelude::*;

verus! {

/// Calls `Colorize::yellow` and takes the painted text as a string. Nothing
/// is promised of it: whether and how a text is painted depends on the
/// terminal and the environment of the process.
#[verifier::external_body]
pub(crate) fn yellow(text: &str) -> (painted: String) {
    text.yellow().to_string()
}

/// Calls `Colorize::red` and takes the painted text as a string. Nothing is
/// promised of it: whether and how a text is painted depends on the terminal
/// and the environment of the process.
#[verifier::external_body]
pub(crate) fn red(text: &str) -> (painted: String) {
    text.red().to_string()
}

/// Calls `Colorize::blue` and takes the painted text as a string. Nothing is
/// promised of it: whether and how a text is painted depends on the terminal
/// and the environment of the process.
#[verifier::external_body]
pub(crate) fn blue(text: &str) -> (painted: String) {
    text.blue().to_string()
}

/// Calls `Colorize::cyan` and takes the painted text as a string. Nothing is
/// promised of it: whether and how a text is painted depends on the terminal
/// and the environment of the process.
#[verifier::external_body]
pub(crate) fn cyan(text: &str) -> (painted: String) {
    text.cyan().to_string()
}

/// Calls `Colorize::green` and takes the painted text as a string. Nothing
/// is promised of it: whether and how a text is painted depends on the
/// terminal and the environment of the process.
#[verifier::external_body]
pub(crate) fn green(text: &str) -> (painted: String) {
    text.green().to_string()
}

/// Calls `Colorize::bold` and takes the painted text as a string. Nothing is
/// promised of it: whether and how a text is painted depends on the terminal
/// and the environment of the process.
#[verifier::external_body]
pub(crate) fn bold(text: &str) -> (painted: String) {
    text.bold().to_string()
}

} // verus!
