//! The settings under which documents are formatted and written out.

use vstd::prelude::*;
use crate::color_scheme::ColorScheme;
use crate::renderer::{render, OutputMode};
use crate::styled_string::Document;
use crate::verbosity::Verbosity;

verus! {

/// Context for formatting operations.
#[derive(Debug, Clone, Copy)]
pub struct FormatContext {
    /// Whether to include source code snippets.
    pub include_source: bool,
    /// Whether to show nested content.
    pub recursive: bool,
    /// Level of documentation detail to show.
    pub verbosity: Verbosity,
    /// Colour scheme for rendering.
    pub color_scheme: ColorScheme,
    /// Terminal width for wrapping and layout.
    pub terminal_width: usize,
    /// Output mode.
    pub output_mode: OutputMode,
}

impl FormatContext {
    /// A context for the given output mode and terminal width, with full
    /// documentation and the default colours.
    pub fn new(
        include_source: bool,
        recursive: bool,
        output_mode: OutputMode,
        terminal_width: usize,
    ) -> (r: FormatContext)
        ensures
            r.include_source == include_source,
            r.recursive == recursive,
            r.verbosity == Verbosity::Full,
            r.color_scheme == crate::color_scheme::ocean_dark(),
            r.terminal_width == terminal_width,
            r.output_mode == output_mode,
    {
        FormatContext {
            include_source,
            recursive,
            verbosity: Verbosity::Full,
            color_scheme: ColorScheme::default(),
            terminal_width,
            output_mode,
        }
    }

    pub fn include_source(&self) -> (r: bool)
        ensures
            r == self.include_source,
    {
        self.include_source
    }

    pub fn is_recursive(&self) -> (r: bool)
        ensures
            r == self.recursive,
    {
        self.recursive
    }

    pub fn verbosity(&self) -> (r: Verbosity)
        ensures
            r == self.verbosity,
    {
        self.verbosity
    }

    pub fn terminal_width(&self) -> (r: usize)
        ensures
            r == self.terminal_width,
    {
        self.terminal_width
    }

    pub fn output_mode(&self) -> (r: OutputMode)
        ensures
            r == self.output_mode,
    {
        self.output_mode
    }

    /// Render a document to a string in the context's output mode.
    pub fn render(&self, document: &Document) -> (output: String)
        ensures
            match self.output_mode {
                OutputMode::Tty => exists|width: nat|
                    output@ == crate::renderer::tty::nodes_ansi(
                        document.nodes@,
                        width,
                        crate::color_scheme::ocean_dark(),
                        document.nodes@.len() as nat,
                    ),
                OutputMode::Plain => output@ == crate::renderer::plain::nodes_text(
                    document.nodes@,
                    document.nodes@.len() as nat,
                ),
                OutputMode::TestMode => output@ == crate::renderer::test_mode::nodes_markup(
                    document.nodes@,
                    document.nodes@.len() as nat,
                ),
            },
    {
        render(document, self.output_mode)
    }
}

} // verus!
