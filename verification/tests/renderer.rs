use ferritin_common::renderer::plain;
use ferritin_common::renderer::test_mode;
use ferritin_common::renderer::tty;
use ferritin_common::renderer::{render, OutputMode};
use ferritin_common::color_scheme::ColorScheme;
use ferritin_common::styled_string::{Document, DocumentNode, HeadingLevel, ListItem, Span};

#[test]
fn test_render_modes() {
    let doc = Document::with_nodes(vec![
        DocumentNode::heading(
            HeadingLevel::Title,
            vec![Span::plain("Test"), Span::keyword("struct")],
        ),
        DocumentNode::Span(Span::typename("Foo")),
    ]);

    // All modes produce output without panicking.
    let tty_output = render(&doc, OutputMode::Tty);
    let plain_output = render(&doc, OutputMode::Plain);
    let test_output = render(&doc, OutputMode::TestMode);

    assert!(!tty_output.is_empty());
    assert!(!plain_output.is_empty());
    assert!(!test_output.is_empty());
}

#[test]
fn plain_test_render_spans() {
    let doc = Document::with_nodes(vec![
        DocumentNode::Span(Span::keyword("struct")),
        DocumentNode::Span(Span::plain(" ")),
        DocumentNode::Span(Span::typename("Foo")),
    ]);

    let output = plain::render(&doc);
    assert_eq!(output, "struct Foo");
}

#[test]
fn plain_test_render_heading() {
    let doc = Document::with_nodes(vec![DocumentNode::heading(
        HeadingLevel::Title,
        vec![Span::plain("Item: "), Span::typename("Vec")],
    )]);

    let output = plain::render(&doc);
    assert!(output.contains("Item: Vec"));
    assert!(output.contains("===="));
}

#[test]
fn test_render_list() {
    let doc = Document::with_nodes(vec![DocumentNode::list(vec![
        ListItem::from_span(Span::plain("First")),
        ListItem::from_span(Span::plain("Second")),
    ])]);

    let output = plain::render(&doc);
    assert!(output.contains("  • First"));
    assert!(output.contains("  • Second"));
}

#[test]
fn test_mode_test_render_spans() {
    let doc = Document::with_nodes(vec![
        DocumentNode::Span(Span::keyword("struct")),
        DocumentNode::Span(Span::plain(" ")),
        DocumentNode::Span(Span::typename("Foo")),
    ]);

    let output = test_mode::render(&doc);
    assert_eq!(output, "<keyword>struct</keyword> <type-name>Foo</type-name>");
}

#[test]
fn test_mode_test_render_heading() {
    let doc = Document::with_nodes(vec![DocumentNode::heading(
        HeadingLevel::Title,
        vec![Span::plain("Item: "), Span::typename("Vec")],
    )]);

    let output = test_mode::render(&doc);
    assert!(output.contains("<title>"));
    assert!(output.contains("Item: "));
    assert!(output.contains("<type-name>Vec</type-name>"));
    assert!(output.contains("</title>"));
}

#[test]
fn test_render_code_block() {
    let doc = Document::with_nodes(vec![DocumentNode::code_block(
        Some("rust".to_string()),
        "fn main() {}".to_string(),
    )]);

    let output = test_mode::render(&doc);
    assert!(output.contains("<code-block lang=\"rust\">"));
    assert!(output.contains("fn main() {}"));
    assert!(output.contains("</code-block>"));
}

#[test]
fn tty_test_render_spans() {
    let doc = Document::with_nodes(vec![
        DocumentNode::Span(Span::keyword("struct")),
        DocumentNode::Span(Span::plain(" ")),
        DocumentNode::Span(Span::typename("Foo")),
    ]);

    let output = tty::render(&doc);
    // ANSI codes are there
    assert!(output.contains("\x1b"));
    // and so is the text itself.
    assert!(output.contains("struct"));
    assert!(output.contains("Foo"));
}

#[test]
fn test_render_link() {
    let doc = Document::with_nodes(vec![DocumentNode::link(
        "https://example.com".to_string(),
        vec![Span::plain("Click here")],
    )]);

    let output = tty::render(&doc);
    // The OSC 8 escape sequence is there.
    assert!(output.contains("\x1b]8;;"));
    assert!(output.contains("https://example.com"));
    assert!(output.contains("Click here"));
}

#[test]
fn tty_test_render_heading() {
    let doc = Document::with_nodes(vec![DocumentNode::heading(
        HeadingLevel::Title,
        vec![Span::plain("Test")],
    )]);

    let output = tty::render(&doc);
    assert!(output.contains("Test"));
    // The decorative underline is there.
    assert!(output.contains("═"));
}

#[test]
fn plain_heading_is_underlined_with_eighty_signs() {
    let title = Document::with_nodes(vec![DocumentNode::heading(
        HeadingLevel::Title,
        vec![Span::plain("T")],
    )]);
    assert_eq!(plain::render(&title), format!("T\n{}\n", "=".repeat(80)));
    let section = Document::with_nodes(vec![DocumentNode::heading(
        HeadingLevel::Section,
        vec![Span::plain("S")],
    )]);
    assert_eq!(plain::render(&section), format!("S\n{}\n", "-".repeat(80)));
}

#[test]
fn plain_code_block_gets_a_final_newline_once() {
    let bare = Document::with_nodes(vec![DocumentNode::code_block(None, "x".to_string())]);
    assert_eq!(plain::render(&bare), "```\nx\n```\n");
    let ended = Document::with_nodes(vec![DocumentNode::code_block(None, "x\n".to_string())]);
    assert_eq!(plain::render(&ended), "```\nx\n```\n");
    let empty = Document::with_nodes(vec![DocumentNode::code_block(None, String::new())]);
    assert_eq!(plain::render(&empty), "```\n\n```\n");
}

#[test]
fn plain_section_and_link_and_nested_list() {
    let doc = Document::with_nodes(vec![
        DocumentNode::section(
            vec![Span::plain("Variants:")],
            vec![DocumentNode::list(vec![ListItem::new(vec![
                DocumentNode::Span(Span::typename("A")),
                DocumentNode::link("https://a".to_string(), vec![Span::plain("doc")]),
            ])])],
        ),
    ]);
    assert_eq!(plain::render(&doc), "Variants:\n  • Adoc\n");
}

#[test]
fn test_mode_section_list_and_link() {
    let doc = Document::with_nodes(vec![
        DocumentNode::section(
            vec![Span::plain("Variants:")],
            vec![DocumentNode::list(vec![ListItem::from_span(Span::field_name("a"))])],
        ),
        DocumentNode::link("https://a".to_string(), vec![Span::comment("c")]),
        DocumentNode::heading(HeadingLevel::Section, vec![Span::operator("=")]),
        DocumentNode::code_block(None, "y\n".to_string()),
    ]);
    assert_eq!(
        test_mode::render(&doc),
        "<section><section-title>Variants:</section-title><list>\n  <item><field-name>a</field-name></item>\n</list>\n</section><link href=\"https://a\"><comment>c</comment></link><section-heading><operator>=</operator></section-heading>\n<code-block>\ny\n</code-block>\n"
    );
}

#[test]
fn test_mode_tags_every_style() {
    let doc = Document::with_nodes(vec![
        DocumentNode::Span(Span::function_name("f")),
        DocumentNode::Span(Span::lifetime("'a")),
        DocumentNode::Span(Span::generic("T")),
        DocumentNode::Span(Span::punctuation(",")),
        DocumentNode::Span(Span::inline_code("c")),
    ]);
    assert_eq!(
        test_mode::render(&doc),
        "<function-name>f</function-name><lifetime>'a</lifetime><generic>T</generic><punctuation>,</punctuation><inline-code>c</inline-code>"
    );
}

#[test]
fn tty_spans_carry_the_escape_sequences_of_their_colours() {
    let scheme = ColorScheme::default();
    let doc = Document::with_nodes(vec![
        DocumentNode::Span(Span::keyword("struct")),
        DocumentNode::Span(Span::punctuation(";")),
        DocumentNode::Span(Span::inline_code("x")),
    ]);
    assert_eq!(
        tty::render_with(&doc, 10, &scheme),
        "\x1b[38;2;180;142;173mstruct\x1b[39m;\x1b[48;2;43;48;59mx\x1b[49m"
    );
}

#[test]
fn tty_heading_is_bold_and_ruled_to_the_width() {
    let scheme = ColorScheme::default();
    let doc = Document::with_nodes(vec![DocumentNode::heading(
        HeadingLevel::Section,
        vec![Span::plain("T")],
    )]);
    assert_eq!(
        tty::render_with(&doc, 3, &scheme),
        "\x1b[1m\x1b[38;2;192;197;206mT\x1b[39m\x1b[0m\n───\n"
    );
}

#[test]
fn tty_code_block_is_trimmed_at_the_end() {
    let scheme = ColorScheme::default();
    let doc = Document::with_nodes(vec![DocumentNode::code_block(
        None,
        "let x;  \n\n".to_string(),
    )]);
    assert_eq!(
        tty::render_with(&doc, 3, &scheme),
        "\x1b[48;2;43;48;59mlet x;\x1b[49m\n\n"
    );
    assert_eq!(tty::trim_end(" a\u{3000}\t "), " a");
    assert_eq!(tty::trim_end("\n"), "");
}

#[test]
fn tty_link_wraps_the_text_in_a_hyperlink() {
    let scheme = ColorScheme::default();
    let doc = Document::with_nodes(vec![DocumentNode::link(
        "u".to_string(),
        vec![Span::punctuation("t")],
    )]);
    assert_eq!(tty::render_with(&doc, 3, &scheme), "\x1b]8;;u\x1b\\t\x1b]8;;\x1b\\");
}
