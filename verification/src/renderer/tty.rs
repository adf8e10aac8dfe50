//! Text with ANSI escape codes, for display on a terminal.

use vstd::prelude::*;
use vstd::string::*;
use crate::color_scheme::{style_color, ColorScheme, Rgb};
use crate::renderer::ansi::{
    background, black_on_white, bold, embolden, foreground, paint, paint_black, paint_on,
    paint_on_white, terminal_columns,
};
use crate::styled_string::{
    push_repeated, repeated, Document, DocumentNode, HeadingLevel, ListItem, Span, SpanStyle,
};
use crate::text::{chars_of, string_of};

verus! {

/// The characters that count as white space at the end of a text.
pub open spec fn is_white_space(c: char) -> bool {
    ||| ('\u{9}' <= c && c <= '\u{d}')
    ||| c == ' '
    ||| c == '\u{85}'
    ||| c == '\u{a0}'
    ||| c == '\u{1680}'
    ||| ('\u{2000}' <= c && c <= '\u{200a}')
    ||| c == '\u{2028}'
    ||| c == '\u{2029}'
    ||| c == '\u{202f}'
    ||| c == '\u{205f}'
    ||| c == '\u{3000}'
}

/// The length of `text` without the white space at its end.
pub open spec fn trimmed_len(text: Seq<char>) -> int
    decreases text.len(),
{
    if text.len() > 0 && is_white_space(text.last()) {
        trimmed_len(text.drop_last())
    } else {
        text.len() as int
    }
}

/// `text` without the white space at its end.
pub open spec fn trimmed(text: Seq<char>) -> Seq<char> {
    text.take(trimmed_len(text))
}

/// What is left of a text after its last `n` characters is what is left of
/// the whole, as long as those last characters are white space.
proof fn lemma_trimmed_len_take(text: Seq<char>, n: int)
    requires
        0 <= n <= text.len(),
        forall|i: int| n <= i < text.len() ==> is_white_space(text[i]),
    ensures
        trimmed_len(text) == trimmed_len(text.take(n)),
    decreases text.len() - n,
{
    if n < text.len() {
        assert(text.drop_last() =~= text.take(text.len() - 1));
        assert(text.drop_last().take(n) =~= text.take(n));
        lemma_trimmed_len_take(text.drop_last(), n);
    } else {
        assert(text.take(n) =~= text);
    }
}

/// Removes the white space at the end of `text`.
pub fn trim_end(text: &str) -> (r: String)
    ensures
        r@ == trimmed(text@),
{
    let chars = chars_of(text);
    let mut n: usize = chars.len();
    while n > 0 && is_space(chars[n - 1])
        invariant
            n <= chars.len(),
            chars@ == text@,
            forall|i: int| n <= i < chars.len() ==> is_white_space(chars@[i]),
        decreases n,
    {
        n -= 1;
    }
    proof {
        lemma_trimmed_len_take(text@, n as int);
        let rest = text@.take(n as int);
        if n > 0 {
            assert(rest.last() == text@[n - 1]);
        }
        assert(trimmed_len(rest) == n);
        assert(text@.subrange(0, n as int) =~= trimmed(text@));
    }
    string_of(&chars, 0, n)
}

/// Tells whether `c` is white space.
fn is_space(c: char) -> (r: bool)
    ensures
        r == is_white_space(c),
{
    ('\u{9}' <= c && c <= '\u{d}') || c == ' ' || c == '\u{85}' || c == '\u{a0}' || c
        == '\u{1680}' || ('\u{2000}' <= c && c <= '\u{200a}') || c == '\u{2028}' || c
        == '\u{2029}' || c == '\u{202f}' || c == '\u{205f}' || c == '\u{3000}'
}

/// A span as shown on a terminal. Plain text has the scheme's foreground
/// colour, punctuation is left bare, inline code stands on the scheme's
/// background colour, unconverted content is black on white, and every
/// other style has its colour of the scheme. Where `strong` is set, what is
/// coloured in the foreground is bold as well.
pub open spec fn span_ansi(span: Span, strong: bool, scheme: ColorScheme) -> Seq<char> {
    match span.style {
        SpanStyle::Punctuation => span.text@,
        SpanStyle::InlineCode => background(span.text@, scheme.background),
        SpanStyle::Unconverted => black_on_white(span.text@),
        _ => if strong {
            bold(foreground(span.text@, style_color(scheme, span.style)))
        } else {
            foreground(span.text@, style_color(scheme, span.style))
        },
    }
}

/// The first `n` spans as shown on a terminal, one after another.
pub open spec fn spans_ansi(spans: Seq<Span>, strong: bool, scheme: ColorScheme, n: int) -> Seq<
    char,
>
    decreases n,
{
    if n <= 0 || n > spans.len() {
        Seq::empty()
    } else {
        spans_ansi(spans, strong, scheme, n - 1) + span_ansi(spans[n - 1], strong, scheme)
    }
}

/// The rule drawn under a heading, as wide as the terminal, and a line
/// feed: a double line under a title, a single one under a section heading.
pub open spec fn rule(level: HeadingLevel, width: nat) -> Seq<char> {
    match level {
        HeadingLevel::Title => repeated('\u{2550}', width) + seq!['\n'],
        HeadingLevel::Section => repeated('\u{2500}', width) + seq!['\n'],
    }
}

/// A link: the sequence that opens a hyperlink to `url`, the text, and the
/// sequence that closes the hyperlink.
pub open spec fn hyperlink(url: Seq<char>, text: Seq<char>) -> Seq<char> {
    "\u{1b}]8;;"@ + url + "\u{1b}\\"@ + text + "\u{1b}]8;;\u{1b}\\"@
}

/// A node as shown on a terminal of the given width.
pub open spec fn node_ansi(node: DocumentNode, width: nat, scheme: ColorScheme) -> Seq<char>
    decreases node, 0nat,
{
    match node {
        DocumentNode::Span(span) => span_ansi(span, false, scheme),
        DocumentNode::Heading { level, spans } => spans_ansi(
            spans@,
            true,
            scheme,
            spans@.len() as int,
        ) + seq!['\n'] + rule(level, width),
        DocumentNode::Section { title, nodes } => (match title {
            Some(spans) => spans_ansi(spans@, true, scheme, spans@.len() as int) + seq!['\n'],
            None => Seq::<char>::empty(),
        }) + nodes_ansi(nodes@, width, scheme, nodes@.len() as nat),
        DocumentNode::List { items } => items_ansi(items@, width, scheme, items@.len() as nat),
        DocumentNode::CodeBlock { lang, code } => background(trimmed(code@), scheme.background)
            + seq!['\n', '\n'],
        DocumentNode::Link { url, text } => hyperlink(
            url@,
            spans_ansi(text@, false, scheme, text@.len() as int),
        ),
    }
}

/// The first `n` nodes as shown on a terminal.
pub open spec fn nodes_ansi(nodes: Seq<DocumentNode>, width: nat, scheme: ColorScheme, n: nat) -> Seq<
    char,
>
    decreases nodes, n,
{
    if n == 0 || n > nodes.len() {
        Seq::empty()
    } else {
        nodes_ansi(nodes, width, scheme, (n - 1) as nat) + node_ansi(nodes[n - 1], width, scheme)
    }
}

/// The first `n` list entries as shown on a terminal, each after a bullet
/// on a line of its own.
pub open spec fn items_ansi(items: Seq<ListItem>, width: nat, scheme: ColorScheme, n: nat) -> Seq<
    char,
>
    decreases items, n,
{
    if n == 0 || n > items.len() {
        Seq::empty()
    } else {
        items_ansi(items, width, scheme, (n - 1) as nat) + "  \u{2022} "@ + nodes_ansi(
            items[n - 1].nodes@,
            width,
            scheme,
            items[n - 1].nodes@.len() as nat,
        ) + seq!['\n']
    }
}

/// Render a document with ANSI escape codes for terminal display, as wide
/// as the terminal is, or 80 columns wide where that is not known, in the
/// default colour scheme.
pub fn render(document: &Document) -> (output: String)
    ensures
        exists|width: nat|
            output@ == nodes_ansi(
                document.nodes@,
                width,
                crate::color_scheme::ocean_dark(),
                document.nodes@.len() as nat,
            ),
{
    let terminal_width: usize = match terminal_columns() {
        Some(w) => w as usize,
        None => 80,
    };
    let color_scheme = ColorScheme::default();
    render_with(document, terminal_width, &color_scheme)
}

/// Render a document with ANSI escape codes for a terminal of the given
/// width, in the given colour scheme.
pub fn render_with(document: &Document, terminal_width: usize, color_scheme: &ColorScheme) -> (output:
    String)
    ensures
        output@ == nodes_ansi(
            document.nodes@,
            terminal_width as nat,
            *color_scheme,
            document.nodes@.len() as nat,
        ),
{
    let mut output = String::new();
    render_nodes(&document.nodes, &mut output, terminal_width, color_scheme);
    assert(Seq::<char>::empty() + nodes_ansi(
        document.nodes@,
        terminal_width as nat,
        *color_scheme,
        document.nodes@.len() as nat,
    ) =~= nodes_ansi(
        document.nodes@,
        terminal_width as nat,
        *color_scheme,
        document.nodes@.len() as nat,
    ));
    output
}

pub fn render_nodes(
    nodes: &Vec<DocumentNode>,
    output: &mut String,
    terminal_width: usize,
    color_scheme: &ColorScheme,
)
    ensures
        final(output)@ == old(output)@ + nodes_ansi(
            nodes@,
            terminal_width as nat,
            *color_scheme,
            nodes@.len() as nat,
        ),
    decreases nodes, 1nat,
{
    let ghost start = output@;
    let ghost width = terminal_width as nat;
    let mut i: usize = 0;
    assert(start + nodes_ansi(nodes@, width, *color_scheme, 0) =~= start);
    while i < nodes.len()
        invariant
            i <= nodes.len(),
            width == terminal_width as nat,
            output@ == start + nodes_ansi(nodes@, width, *color_scheme, i as nat),
        decreases nodes.len() - i,
    {
        render_node(&nodes[i], output, terminal_width, color_scheme);
        i += 1;
        assert(start + nodes_ansi(nodes@, width, *color_scheme, (i - 1) as nat) + node_ansi(
            nodes@[i - 1],
            width,
            *color_scheme,
        ) =~= start + nodes_ansi(nodes@, width, *color_scheme, i as nat));
    }
}

pub fn render_node(
    node: &DocumentNode,
    output: &mut String,
    terminal_width: usize,
    color_scheme: &ColorScheme,
)
    ensures
        final(output)@ == old(output)@ + node_ansi(*node, terminal_width as nat, *color_scheme),
    decreases node, 0nat,
{
    let ghost start = output@;
    let ghost width = terminal_width as nat;
    proof {
        reveal_strlit("\n");
        reveal_strlit("\n\n");
        reveal_strlit("\u{2550}");
        reveal_strlit("\u{2500}");
        assert("\n"@ =~= seq!['\n']);
        assert("\n\n"@ =~= seq!['\n', '\n']);
    }
    match node {
        DocumentNode::Span(span) => render_span(span, output, color_scheme),
        DocumentNode::Heading { level, spans } => {
            render_spans(spans, output, true, color_scheme);
            output.append("\n");
            // Decorative underlines.
            match level {
                HeadingLevel::Title => {
                    push_repeated(output, "\u{2550}", terminal_width);
                    output.append("\n");
                },
                HeadingLevel::Section => {
                    push_repeated(output, "\u{2500}", terminal_width);
                    output.append("\n");
                },
            }
            assert(output@ =~= start + node_ansi(*node, width, *color_scheme));
        },
        DocumentNode::Section { title, nodes } => {
            if let Some(title_spans) = title {
                render_spans(title_spans, output, true, color_scheme);
                output.append("\n");
            }
            render_nodes(nodes, output, terminal_width, color_scheme);
            assert(output@ =~= start + node_ansi(*node, width, *color_scheme));
        },
        DocumentNode::List { items } => {
            render_list_items(items, output, terminal_width, color_scheme);
        },
        DocumentNode::CodeBlock { code, .. } => {
            let bg = color_scheme.default_background();
            let body = trim_end(code.as_str());
            output.append(paint_on(body.as_str(), bg).as_str());
            output.append("\n\n");
            assert(output@ =~= start + node_ansi(*node, width, *color_scheme));
        },
        DocumentNode::Link { url, text } => {
            // OSC 8 hyperlink: the opening sequence with the address, the
            // text, and the closing sequence.
            output.append("\u{1b}]8;;");
            output.append(url.as_str());
            output.append("\u{1b}\\");
            render_spans(text, output, false, color_scheme);
            output.append("\u{1b}]8;;\u{1b}\\");
            assert(output@ =~= start + node_ansi(*node, width, *color_scheme));
        },
    }
}

fn render_list_items(
    items: &Vec<ListItem>,
    output: &mut String,
    terminal_width: usize,
    color_scheme: &ColorScheme,
)
    ensures
        final(output)@ == old(output)@ + items_ansi(
            items@,
            terminal_width as nat,
            *color_scheme,
            items@.len() as nat,
        ),
    decreases items, 3nat,
{
    let ghost start = output@;
    let ghost width = terminal_width as nat;
    let mut i: usize = 0;
    assert(start + items_ansi(items@, width, *color_scheme, 0) =~= start);
    while i < items.len()
        invariant
            i <= items.len(),
            width == terminal_width as nat,
            output@ == start + items_ansi(items@, width, *color_scheme, i as nat),
        decreases items.len() - i,
    {
        render_list_item(&items[i], output, terminal_width, color_scheme);
        i += 1;
        assert(output@ =~= start + items_ansi(items@, width, *color_scheme, i as nat));
    }
}

pub fn render_spans(spans: &Vec<Span>, output: &mut String, bold: bool, color_scheme: &ColorScheme)
    ensures
        final(output)@ == old(output)@ + spans_ansi(
            spans@,
            bold,
            *color_scheme,
            spans@.len() as int,
        ),
{
    let ghost start = output@;
    let mut i: usize = 0;
    assert(start + spans_ansi(spans@, bold, *color_scheme, 0) =~= start);
    while i < spans.len()
        invariant
            i <= spans.len(),
            output@ == start + spans_ansi(spans@, bold, *color_scheme, i as int),
        decreases spans.len() - i,
    {
        render_span_with_bold(&spans[i], output, bold, color_scheme);
        i += 1;
        assert(output@ =~= start + spans_ansi(spans@, bold, *color_scheme, i as int));
    }
}

pub fn render_span(span: &Span, output: &mut String, color_scheme: &ColorScheme)
    ensures
        final(output)@ == old(output)@ + span_ansi(*span, false, *color_scheme),
{
    render_span_with_bold(span, output, false, color_scheme);
}

pub fn render_span_with_bold(
    span: &Span,
    output: &mut String,
    force_bold: bool,
    color_scheme: &ColorScheme,
)
    ensures
        final(output)@ == old(output)@ + span_ansi(*span, force_bold, *color_scheme),
{
    let text = span.text.as_str();
    match span.style {
        SpanStyle::Punctuation => {
            // Punctuation keeps the terminal's own foreground.
            output.append(text);
        },
        SpanStyle::InlineCode => {
            // Inline code gets the background of code blocks.
            let bg = color_scheme.default_background();
            output.append(paint_on(text, bg).as_str());
        },
        SpanStyle::Unconverted => {
            // Unconverted content is made to stand out.
            let inked = paint_black(text);
            output.append(paint_on_white(inked.as_str()).as_str());
        },
        _ => {
            // Plain text has the default foreground, every other style
            // its colour of the scheme.
            let color = color_scheme.color_for(span.style);
            let coloured = paint(text, color);
            if force_bold {
                output.append(embolden(coloured.as_str()).as_str());
            } else {
                output.append(coloured.as_str());
            }
        },
    }
}

pub fn render_list_item(
    item: &ListItem,
    output: &mut String,
    terminal_width: usize,
    color_scheme: &ColorScheme,
)
    ensures
        final(output)@ == old(output)@ + "  \u{2022} "@ + nodes_ansi(
            item.nodes@,
            terminal_width as nat,
            *color_scheme,
            item.nodes@.len() as nat,
        ) + seq!['\n'],
    decreases item, 2nat,
{
    proof {
        reveal_strlit("\n");
        assert("\n"@ =~= seq!['\n']);
    }
    output.append("  \u{2022} ");
    render_nodes(&item.nodes, output, terminal_width, color_scheme);
    output.append("\n");
}

} // verus!
