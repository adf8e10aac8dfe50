//! The colours in which styled text is shown on a terminal.

use vstd::prelude::*;
use crate::styled_string::SpanStyle;

verus! {

/// A colour, by its red, green and blue parts.
#[derive(Debug, Clone, Copy, PartialEq, Eq, Structural)]
pub struct Rgb {
    pub r: u8,
    pub g: u8,
    pub b: u8,
}

/// One colour for each style of text, and the colours of plain text and of
/// the background of code.
#[derive(Debug, Clone, Copy, PartialEq, Eq, Structural)]
pub struct ColorScheme {
    pub foreground: Rgb,
    pub background: Rgb,
    pub keyword: Rgb,
    pub types: Rgb,
    pub function: Rgb,
    pub field: Rgb,
    pub lifetime: Rgb,
    pub generic: Rgb,
    pub operator: Rgb,
    pub comment: Rgb,
}

/// The scheme used where none is chosen: the dark "ocean" palette.
pub open spec fn ocean_dark() -> ColorScheme {
    ColorScheme {
        foreground: Rgb { r: 192, g: 197, b: 206 },
        background: Rgb { r: 43, g: 48, b: 59 },
        keyword: Rgb { r: 180, g: 142, b: 173 },
        types: Rgb { r: 235, g: 203, b: 139 },
        function: Rgb { r: 143, g: 161, b: 179 },
        field: Rgb { r: 191, g: 97, b: 106 },
        lifetime: Rgb { r: 208, g: 135, b: 112 },
        generic: Rgb { r: 235, g: 203, b: 139 },
        operator: Rgb { r: 150, g: 181, b: 180 },
        comment: Rgb { r: 101, g: 115, b: 126 },
    }
}

/// The colour of a style in a scheme. The styles that have no colour of
/// their own take the colour of plain text.
pub open spec fn style_color(scheme: ColorScheme, style: SpanStyle) -> Rgb {
    match style {
        SpanStyle::Keyword => scheme.keyword,
        SpanStyle::TypeName => scheme.types,
        SpanStyle::FunctionName => scheme.function,
        SpanStyle::FieldName => scheme.field,
        SpanStyle::Lifetime => scheme.lifetime,
        SpanStyle::Generic => scheme.generic,
        SpanStyle::Operator => scheme.operator,
        SpanStyle::Comment => scheme.comment,
        SpanStyle::Plain | SpanStyle::Punctuation | SpanStyle::InlineCode
        | SpanStyle::Unconverted => scheme.foreground,
    }
}

impl Default for ColorScheme {
    fn default() -> (r: ColorScheme)
        ensures
            r == ocean_dark(),
    {
        ColorScheme {
            foreground: Rgb { r: 192, g: 197, b: 206 },
            background: Rgb { r: 43, g: 48, b: 59 },
            keyword: Rgb { r: 180, g: 142, b: 173 },
            types: Rgb { r: 235, g: 203, b: 139 },
            function: Rgb { r: 143, g: 161, b: 179 },
            field: Rgb { r: 191, g: 97, b: 106 },
            lifetime: Rgb { r: 208, g: 135, b: 112 },
            generic: Rgb { r: 235, g: 203, b: 139 },
            operator: Rgb { r: 150, g: 181, b: 180 },
            comment: Rgb { r: 101, g: 115, b: 126 },
        }
    }
}

impl ColorScheme {
    /// The colour in which text of `style` is written.
    pub fn color_for(&self, style: SpanStyle) -> (c: Rgb)
        ensures
            c == style_color(*self, style),
    {
        match style {
            SpanStyle::Keyword => self.keyword,
            SpanStyle::TypeName => self.types,
            SpanStyle::FunctionName => self.function,
            SpanStyle::FieldName => self.field,
            SpanStyle::Lifetime => self.lifetime,
            SpanStyle::Generic => self.generic,
            SpanStyle::Operator => self.operator,
            SpanStyle::Comment => self.comment,
            SpanStyle::Plain | SpanStyle::Punctuation | SpanStyle::InlineCode
            | SpanStyle::Unconverted => self.foreground,
        }
    }

    /// The colour of plain text.
    pub fn default_foreground(&self) -> (c: Rgb)
        ensures
            c == self.foreground,
    {
        self.foreground
    }

    /// The colour behind code.
    pub fn default_background(&self) -> (c: Rgb)
        ensures
            c == self.background,
    {
        self.background
    }
}

} // verus!
