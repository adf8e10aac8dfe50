//! Plain text, without any styling.

use vstd::prelude::*;
use vstd::string::*;
use crate::styled_string::{
    ends_with_newline, has_final_newline, push_repeated, repeated, Document, DocumentNode,
    HeadingLevel, ListItem, Span,
};

verus! {

/// The text of the first `n` spans, one after another.
pub open spec fn spans_text(spans: Seq<Span>, n: int) -> Seq<char>
    decreases n,
{
    if n <= 0 || n > spans.len() {
        Seq::empty()
    } else {
        spans_text(spans, n - 1) + spans[n - 1].text@
    }
}

/// The line drawn under a heading: 80 times `=` under a title, `-` under a
/// section heading, and a line feed.
pub open spec fn underline(level: HeadingLevel) -> Seq<char> {
    match level {
        HeadingLevel::Title => repeated('=', 80) + seq!['\n'],
        HeadingLevel::Section => repeated('-', 80) + seq!['\n'],
    }
}

/// A code block between two fence lines, with a line feed after the code
/// where it does not end in one.
pub open spec fn fenced(code: Seq<char>) -> Seq<char> {
    "```\n"@ + code + (if ends_with_newline(code) {
        Seq::<char>::empty()
    } else {
        seq!['\n']
    }) + "```\n"@
}

/// The plain text of a node.
pub open spec fn node_text(node: DocumentNode) -> Seq<char>
    decreases node, 0nat,
{
    match node {
        DocumentNode::Span(span) => span.text@,
        DocumentNode::Heading { level, spans } => spans_text(spans@, spans@.len() as int)
            + seq!['\n'] + underline(level),
        DocumentNode::Section { title, nodes } => (match title {
            Some(spans) => spans_text(spans@, spans@.len() as int) + seq!['\n'],
            None => Seq::<char>::empty(),
        }) + nodes_text(nodes@, nodes@.len() as nat),
        DocumentNode::List { items } => items_text(items@, items@.len() as nat),
        DocumentNode::CodeBlock { lang, code } => fenced(code@),
        DocumentNode::Link { url, text } => spans_text(text@, text@.len() as int),
    }
}

/// The plain text of the first `n` nodes.
pub open spec fn nodes_text(nodes: Seq<DocumentNode>, n: nat) -> Seq<char>
    decreases nodes, n,
{
    if n == 0 || n > nodes.len() {
        Seq::empty()
    } else {
        nodes_text(nodes, (n - 1) as nat) + node_text(nodes[n - 1])
    }
}

/// The plain text of the first `n` list entries: each after a bullet, on a
/// line of its own.
pub open spec fn items_text(items: Seq<ListItem>, n: nat) -> Seq<char>
    decreases items, n,
{
    if n == 0 || n > items.len() {
        Seq::empty()
    } else {
        items_text(items, (n - 1) as nat) + "  \u{2022} "@ + nodes_text(
            items[n - 1].nodes@,
            items[n - 1].nodes@.len() as nat,
        ) + seq!['\n']
    }
}

/// Render a document as plain text without any styling.
pub fn render(document: &Document) -> (output: String)
    ensures
        output@ == nodes_text(document.nodes@, document.nodes@.len() as nat),
{
    let mut output = String::new();
    render_nodes(&document.nodes, &mut output);
    assert(Seq::<char>::empty() + nodes_text(document.nodes@, document.nodes@.len() as nat)
        =~= nodes_text(document.nodes@, document.nodes@.len() as nat));
    output
}

pub fn render_nodes(nodes: &Vec<DocumentNode>, output: &mut String)
    ensures
        final(output)@ == old(output)@ + nodes_text(nodes@, nodes@.len() as nat),
    decreases nodes, 1nat,
{
    let ghost start = output@;
    let mut i: usize = 0;
    assert(start + nodes_text(nodes@, 0) =~= start);
    while i < nodes.len()
        invariant
            i <= nodes.len(),
            output@ == start + nodes_text(nodes@, i as nat),
        decreases nodes.len() - i,
    {
        render_node(&nodes[i], output);
        i += 1;
        assert(start + nodes_text(nodes@, (i - 1) as nat) + node_text(nodes@[i - 1]) =~= start
            + nodes_text(nodes@, i as nat));
    }
}

pub fn render_node(node: &DocumentNode, output: &mut String)
    ensures
        final(output)@ == old(output)@ + node_text(*node),
    decreases node, 0nat,
{
    let ghost start = output@;
    proof {
        reveal_strlit("\n");
        reveal_strlit("=");
        reveal_strlit("-");
        assert("\n"@ =~= seq!['\n']);
    }
    match node {
        DocumentNode::Span(span) => render_span(span, output),
        DocumentNode::Heading { level, spans } => {
            render_spans(spans, output);
            output.append("\n");
            // Underlines for headings.
            match level {
                HeadingLevel::Title => {
                    push_repeated(output, "=", 80);
                    output.append("\n");
                },
                HeadingLevel::Section => {
                    push_repeated(output, "-", 80);
                    output.append("\n");
                },
            }
            assert(output@ =~= start + node_text(*node));
        },
        DocumentNode::Section { title, nodes } => {
            if let Some(title_spans) = title {
                render_spans(title_spans, output);
                output.append("\n");
            }
            render_nodes(nodes, output);
            assert(output@ =~= start + node_text(*node));
        },
        DocumentNode::List { items } => {
            render_list_items(items, output);
        },
        DocumentNode::CodeBlock { code, .. } => {
            output.append("```\n");
            output.append(code.as_str());
            if !has_final_newline(code.as_str()) {
                output.append("\n");
            }
            output.append("```\n");
            assert(output@ =~= start + node_text(*node));
        },
        DocumentNode::Link { text, .. } => {
            // In plain mode, only the text of the link is written.
            render_spans(text, output);
        },
    }
}

fn render_list_items(items: &Vec<ListItem>, output: &mut String)
    ensures
        final(output)@ == old(output)@ + items_text(items@, items@.len() as nat),
    decreases items, 3nat,
{
    let ghost start = output@;
    let mut i: usize = 0;
    assert(start + items_text(items@, 0) =~= start);
    while i < items.len()
        invariant
            i <= items.len(),
            output@ == start + items_text(items@, i as nat),
        decreases items.len() - i,
    {
        render_list_item(&items[i], output);
        i += 1;
        assert(output@ =~= start + items_text(items@, i as nat));
    }
}

pub fn render_spans(spans: &Vec<Span>, output: &mut String)
    ensures
        final(output)@ == old(output)@ + spans_text(spans@, spans@.len() as int),
{
    let ghost start = output@;
    let mut i: usize = 0;
    assert(start + spans_text(spans@, 0) =~= start);
    while i < spans.len()
        invariant
            i <= spans.len(),
            output@ == start + spans_text(spans@, i as int),
        decreases spans.len() - i,
    {
        render_span(&spans[i], output);
        i += 1;
        assert(output@ =~= start + spans_text(spans@, i as int));
    }
}

pub fn render_span(span: &Span, output: &mut String)
    ensures
        final(output)@ == old(output)@ + span.text@,
{
    output.append(span.text.as_str());
}

pub fn render_list_item(item: &ListItem, output: &mut String)
    ensures
        final(output)@ == old(output)@ + "  \u{2022} "@ + nodes_text(
            item.nodes@,
            item.nodes@.len() as nat,
        ) + seq!['\n'],
    decreases item, 2nat,
{
    proof {
        reveal_strlit("\n");
        assert("\n"@ =~= seq!['\n']);
    }
    output.append("  \u{2022} ");
    render_nodes(&item.nodes, output);
    output.append("\n");
}

} // verus!
