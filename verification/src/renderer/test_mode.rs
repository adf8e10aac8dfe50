//! Semantic pseudo-XML tags, for comparing output in tests.

use vstd::prelude::*;
use vstd::string::*;
use crate::styled_string::{
    ends_with_newline, has_final_newline, Document, DocumentNode, HeadingLevel, ListItem, Span,
    SpanStyle,
};

verus! {

/// The name of the tag that marks a style; plain text has none.
pub open spec fn style_tag(style: SpanStyle) -> Option<Seq<char>> {
    match style {
        SpanStyle::Keyword => Some("keyword"@),
        SpanStyle::TypeName => Some("type-name"@),
        SpanStyle::FunctionName => Some("function-name"@),
        SpanStyle::FieldName => Some("field-name"@),
        SpanStyle::Lifetime => Some("lifetime"@),
        SpanStyle::Generic => Some("generic"@),
        SpanStyle::Plain => None,
        SpanStyle::Punctuation => Some("punctuation"@),
        SpanStyle::Operator => Some("operator"@),
        SpanStyle::Comment => Some("comment"@),
        SpanStyle::InlineCode => Some("inline-code"@),
        SpanStyle::Unconverted => Some("unconverted"@),
    }
}

/// The opening tag `<name>`.
pub open spec fn open_tag(name: Seq<char>) -> Seq<char> {
    seq!['<'] + name + seq!['>']
}

/// The closing tag `</name>`.
pub open spec fn close_tag(name: Seq<char>) -> Seq<char> {
    seq!['<', '/'] + name + seq!['>']
}

/// A span: its text between the tags of its style, or bare where it is
/// plain.
pub open spec fn span_markup(span: Span) -> Seq<char> {
    match style_tag(span.style) {
        Some(tag) => open_tag(tag) + span.text@ + close_tag(tag),
        None => span.text@,
    }
}

/// The markup of the first `n` spans, one after another.
pub open spec fn spans_markup(spans: Seq<Span>, n: int) -> Seq<char>
    decreases n,
{
    if n <= 0 || n > spans.len() {
        Seq::empty()
    } else {
        spans_markup(spans, n - 1) + span_markup(spans[n - 1])
    }
}

/// The name of the tag of a heading.
pub open spec fn heading_tag(level: HeadingLevel) -> Seq<char> {
    match level {
        HeadingLevel::Title => "title"@,
        HeadingLevel::Section => "section-heading"@,
    }
}

/// A code block: the code between `<code-block>` lines, the opening one
/// with the language where one is given, and a line feed after the code
/// where it does not end in one.
pub open spec fn code_markup(lang: Option<String>, code: Seq<char>) -> Seq<char> {
    "<code-block"@ + (match lang {
        Some(l) => " lang=\""@ + l@ + "\""@,
        None => Seq::<char>::empty(),
    }) + ">\n"@ + code + (if ends_with_newline(code) {
        Seq::<char>::empty()
    } else {
        seq!['\n']
    }) + "</code-block>\n"@
}

/// The markup of a node.
pub open spec fn node_markup(node: DocumentNode) -> Seq<char>
    decreases node, 0nat,
{
    match node {
        DocumentNode::Span(span) => span_markup(span),
        DocumentNode::Heading { level, spans } => open_tag(heading_tag(level)) + spans_markup(
            spans@,
            spans@.len() as int,
        ) + close_tag(heading_tag(level)) + seq!['\n'],
        DocumentNode::Section { title, nodes } => "<section>"@ + (match title {
            Some(spans) => "<section-title>"@ + spans_markup(spans@, spans@.len() as int)
                + "</section-title>"@,
            None => Seq::<char>::empty(),
        }) + nodes_markup(nodes@, nodes@.len() as nat) + "</section>"@,
        DocumentNode::List { items } => "<list>\n"@ + items_markup(items@, items@.len() as nat)
            + "</list>\n"@,
        DocumentNode::CodeBlock { lang, code } => code_markup(lang, code@),
        DocumentNode::Link { url, text } => "<link href=\""@ + url@ + "\">"@ + spans_markup(
            text@,
            text@.len() as int,
        ) + "</link>"@,
    }
}

/// The markup of the first `n` nodes.
pub open spec fn nodes_markup(nodes: Seq<DocumentNode>, n: nat) -> Seq<char>
    decreases nodes, n,
{
    if n == 0 || n > nodes.len() {
        Seq::empty()
    } else {
        nodes_markup(nodes, (n - 1) as nat) + node_markup(nodes[n - 1])
    }
}

/// The markup of the first `n` list entries, each in `<item>` tags on a
/// line of its own.
pub open spec fn items_markup(items: Seq<ListItem>, n: nat) -> Seq<char>
    decreases items, n,
{
    if n == 0 || n > items.len() {
        Seq::empty()
    } else {
        items_markup(items, (n - 1) as nat) + "  <item>"@ + nodes_markup(
            items[n - 1].nodes@,
            items[n - 1].nodes@.len() as nat,
        ) + "</item>\n"@
    }
}

/// The text `<`, `</` and `>` hold the characters that the tags are made
/// of, and the line feed is one character.
proof fn lemma_tag_literals()
    ensures
        "<"@ == seq!['<'],
        "</"@ == seq!['<', '/'],
        ">"@ == seq!['>'],
        "\n"@ == seq!['\n'],
{
    reveal_strlit("<");
    reveal_strlit("</");
    reveal_strlit(">");
    reveal_strlit("\n");
    assert("<"@ =~= seq!['<']);
    assert("</"@ =~= seq!['<', '/']);
    assert(">"@ =~= seq!['>']);
    assert("\n"@ =~= seq!['\n']);
}

/// Render a document with semantic XML-like tags for testing.
pub fn render(document: &Document) -> (output: String)
    ensures
        output@ == nodes_markup(document.nodes@, document.nodes@.len() as nat),
{
    let mut output = String::new();
    render_nodes(&document.nodes, &mut output);
    assert(Seq::<char>::empty() + nodes_markup(document.nodes@, document.nodes@.len() as nat)
        =~= nodes_markup(document.nodes@, document.nodes@.len() as nat));
    output
}

pub fn render_nodes(nodes: &Vec<DocumentNode>, output: &mut String)
    ensures
        final(output)@ == old(output)@ + nodes_markup(nodes@, nodes@.len() as nat),
    decreases nodes, 1nat,
{
    let ghost start = output@;
    let mut i: usize = 0;
    assert(start + nodes_markup(nodes@, 0) =~= start);
    while i < nodes.len()
        invariant
            i <= nodes.len(),
            output@ == start + nodes_markup(nodes@, i as nat),
        decreases nodes.len() - i,
    {
        render_node(&nodes[i], output);
        i += 1;
        assert(start + nodes_markup(nodes@, (i - 1) as nat) + node_markup(nodes@[i - 1])
            =~= start + nodes_markup(nodes@, i as nat));
    }
}

/// Appends `<tag>`.
fn push_open_tag(tag: &str, output: &mut String)
    ensures
        final(output)@ == old(output)@ + open_tag(tag@),
{
    proof {
        lemma_tag_literals();
    }
    let ghost start = output@;
    output.append("<");
    output.append(tag);
    output.append(">");
    assert(output@ =~= start + open_tag(tag@));
}

/// Appends `</tag>`.
fn push_close_tag(tag: &str, output: &mut String)
    ensures
        final(output)@ == old(output)@ + close_tag(tag@),
{
    proof {
        lemma_tag_literals();
    }
    let ghost start = output@;
    output.append("</");
    output.append(tag);
    output.append(">");
    assert(output@ =~= start + close_tag(tag@));
}

pub fn render_node(node: &DocumentNode, output: &mut String)
    ensures
        final(output)@ == old(output)@ + node_markup(*node),
    decreases node, 0nat,
{
    let ghost start = output@;
    proof {
        lemma_tag_literals();
    }
    match node {
        DocumentNode::Span(span) => render_span(span, output),
        DocumentNode::Heading { level, spans } => {
            let tag = match level {
                HeadingLevel::Title => "title",
                HeadingLevel::Section => "section-heading",
            };
            push_open_tag(tag, output);
            render_spans(spans, output);
            push_close_tag(tag, output);
            output.append("\n");
            assert(output@ =~= start + node_markup(*node));
        },
        DocumentNode::Section { title, nodes } => {
            output.append("<section>");
            if let Some(title_spans) = title {
                output.append("<section-title>");
                render_spans(title_spans, output);
                output.append("</section-title>");
            }
            render_nodes(nodes, output);
            output.append("</section>");
            assert(output@ =~= start + node_markup(*node));
        },
        DocumentNode::List { items } => {
            output.append("<list>\n");
            render_list_items(items, output);
            output.append("</list>\n");
            assert(output@ =~= start + node_markup(*node));
        },
        DocumentNode::CodeBlock { lang, code } => {
            output.append("<code-block");
            if let Some(l) = lang {
                output.append(" lang=\"");
                output.append(l.as_str());
                output.append("\"");
            }
            output.append(">\n");
            output.append(code.as_str());
            if !has_final_newline(code.as_str()) {
                output.append("\n");
            }
            output.append("</code-block>\n");
            assert(output@ =~= start + node_markup(*node));
        },
        DocumentNode::Link { url, text } => {
            output.append("<link href=\"");
            output.append(url.as_str());
            output.append("\">");
            render_spans(text, output);
            output.append("</link>");
            assert(output@ =~= start + node_markup(*node));
        },
    }
}

fn render_list_items(items: &Vec<ListItem>, output: &mut String)
    ensures
        final(output)@ == old(output)@ + items_markup(items@, items@.len() as nat),
    decreases items, 3nat,
{
    let ghost start = output@;
    let mut i: usize = 0;
    assert(start + items_markup(items@, 0) =~= start);
    while i < items.len()
        invariant
            i <= items.len(),
            output@ == start + items_markup(items@, i as nat),
        decreases items.len() - i,
    {
        render_list_item(&items[i], output);
        i += 1;
        assert(output@ =~= start + items_markup(items@, i as nat));
    }
}

pub fn render_spans(spans: &Vec<Span>, output: &mut String)
    ensures
        final(output)@ == old(output)@ + spans_markup(spans@, spans@.len() as int),
{
    let ghost start = output@;
    let mut i: usize = 0;
    assert(start + spans_markup(spans@, 0) =~= start);
    while i < spans.len()
        invariant
            i <= spans.len(),
            output@ == start + spans_markup(spans@, i as int),
        decreases spans.len() - i,
    {
        render_span(&spans[i], output);
        i += 1;
        assert(output@ =~= start + spans_markup(spans@, i as int));
    }
}

pub fn render_span(span: &Span, output: &mut String)
    ensures
        final(output)@ == old(output)@ + span_markup(*span),
{
    let ghost start = output@;
    let tag = match span.style {
        SpanStyle::Keyword => "keyword",
        SpanStyle::TypeName => "type-name",
        SpanStyle::FunctionName => "function-name",
        SpanStyle::FieldName => "field-name",
        SpanStyle::Lifetime => "lifetime",
        SpanStyle::Generic => "generic",
        SpanStyle::Plain => {
            // Plain text has no tag.
            output.append(span.text.as_str());
            return ;
        },
        SpanStyle::Punctuation => "punctuation",
        SpanStyle::Operator => "operator",
        SpanStyle::Comment => "comment",
        SpanStyle::InlineCode => "inline-code",
        SpanStyle::Unconverted => "unconverted",
    };
    push_open_tag(tag, output);
    output.append(span.text.as_str());
    push_close_tag(tag, output);
    assert(output@ =~= start + span_markup(*span));
}

pub fn render_list_item(item: &ListItem, output: &mut String)
    ensures
        final(output)@ == old(output)@ + "  <item>"@ + nodes_markup(
            item.nodes@,
            item.nodes@.len() as nat,
        ) + "</item>\n"@,
    decreases item, 2nat,
{
    output.append("  <item>");
    render_nodes(&item.nodes, output);
    output.append("</item>\n");
}

} // verus!
