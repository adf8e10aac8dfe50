use ferritin_common::format_context::FormatContext;
use ferritin_common::interactive::{DocumentLayoutCache, LoadingState, Position, ViewportState};
use ferritin_common::renderer::OutputMode;
use ferritin_common::styled_string::{Document, DocumentNode, Span, SpanStyle};
use ferritin_common::verbosity::Verbosity;

#[test]
fn full_documentation_is_the_default() {
    assert!(Verbosity::default().is_full());
    assert!(Verbosity::Full.is_full());
    assert!(!Verbosity::Brief.is_full());
    assert!(!Verbosity::Minimal.is_full());
}

#[test]
fn context_renders_in_its_mode() {
    let doc = Document::with_nodes(vec![
        DocumentNode::Span(Span::keyword("fn")),
        DocumentNode::Span(Span::styled("?", SpanStyle::Unconverted)),
    ]);
    let plain = FormatContext::new(true, false, OutputMode::Plain, 72);
    assert!(plain.include_source());
    assert!(!plain.is_recursive());
    assert_eq!(plain.terminal_width(), 72);
    assert_eq!(plain.output_mode(), OutputMode::Plain);
    assert!(plain.verbosity().is_full());
    assert_eq!(plain.render(&doc), "fn?");
    let tags = FormatContext::new(false, true, OutputMode::TestMode, 80);
    assert_eq!(tags.render(&doc), "<keyword>fn</keyword><unconverted>?</unconverted>");
    let tty = FormatContext::new(false, false, OutputMode::Tty, 80);
    assert_eq!(
        tty.render(&doc),
        "\x1b[38;2;180;142;173mfn\x1b[39m\x1b[47m\x1b[30m?\x1b[39m\x1b[49m"
    );
    assert!(Document::new().nodes.is_empty());
}

#[test]
fn a_request_that_starts_is_pending() {
    let mut loading = LoadingState::new();
    assert!(!loading.pending_request);
    let before = loading.started_at;
    loading.was_loading = true;
    loading.start();
    assert!(loading.pending_request);
    assert!(loading.was_loading);
    assert!(loading.started_at >= before);
}

#[test]
fn scrolling_stops_at_the_end_of_the_document() {
    let mut viewport = ViewportState::new();
    // Without a layout any offset is taken.
    viewport.set_scroll_offset(500);
    assert_eq!(viewport.scroll_offset, 500);
    assert!(!viewport.scrollbar_visible());
    viewport.cached_layout = Some(DocumentLayoutCache { render_width: 80, document_height: 100 });
    viewport.last_viewport_height = 30;
    viewport.set_scroll_offset(500);
    assert_eq!(viewport.scroll_offset, 70);
    viewport.set_scroll_offset(70);
    assert_eq!(viewport.scroll_offset, 70);
    viewport.set_scroll_offset(12);
    assert_eq!(viewport.scroll_offset, 12);
    assert!(viewport.scrollbar_visible());
    assert!(viewport.is_in_scrollbar(Position { x: 79, y: 29 }, 79));
    assert!(!viewport.is_in_scrollbar(Position { x: 79, y: 30 }, 79));
    assert!(!viewport.is_in_scrollbar(Position { x: 78, y: 0 }, 79));
    // A document that fits cannot be scrolled.
    viewport.last_viewport_height = 100;
    viewport.set_scroll_offset(1);
    assert_eq!(viewport.scroll_offset, 0);
    assert!(!viewport.scrollbar_visible());
    viewport.last_viewport_height = 200;
    viewport.set_scroll_offset(1);
    assert_eq!(viewport.scroll_offset, 0);
}
