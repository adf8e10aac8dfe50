//! Writing a document out as text, in one of three modes.

use vstd::prelude::*;
use crate::styled_string::Document;

pub mod ansi;
pub mod plain;
pub mod test_mode;
pub mod tty;

verus! {

/// Output mode for rendering documents.
#[derive(Debug, Clone, Copy, PartialEq, Eq, Structural)]
pub enum OutputMode {
    /// ANSI escape codes for terminal colours and styles.
    Tty,
    /// Plain text, no decoration.
    Plain,
    /// Pseudo-XML tags, e.g. `<keyword>struct</keyword>`.
    TestMode,
}

/// Render a document to a string based on the output mode.
pub fn render(document: &Document, mode: OutputMode) -> (output: String)
    ensures
        match mode {
            OutputMode::Tty => exists|width: nat|
                output@ == tty::nodes_ansi(
                    document.nodes@,
                    width,
                    crate::color_scheme::ocean_dark(),
                    document.nodes@.len() as nat,
                ),
            OutputMode::Plain => output@ == plain::nodes_text(
                document.nodes@,
                document.nodes@.len() as nat,
            ),
            OutputMode::TestMode => output@ == test_mode::nodes_markup(
                document.nodes@,
                document.nodes@.len() as nat,
            ),
        },
{
    match mode {
        OutputMode::Tty => tty::render(document),
        OutputMode::Plain => plain::render(document),
        OutputMode::TestMode => test_mode::render(document),
    }
}

} // verus!
