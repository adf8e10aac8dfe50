//! Documents as trees of styled text, independent of how they are shown.

use vstd::prelude::*;
use vstd::string::*;

verus! {

/// What a span of text means, which decides how it is shown.
#[derive(Debug, Clone, Copy, PartialEq, Eq, Structural)]
pub enum SpanStyle {
    Keyword,
    TypeName,
    FunctionName,
    FieldName,
    Lifetime,
    Generic,
    Plain,
    Punctuation,
    Operator,
    Comment,
    InlineCode,
    Unconverted,
}

/// A run of text of one style.
#[derive(Debug)]
pub struct Span {
    pub text: String,
    pub style: SpanStyle,
}

/// The rank of a heading.
#[derive(Debug, Clone, Copy, PartialEq, Eq, Structural)]
pub enum HeadingLevel {
    Title,
    Section,
}

/// One entry of a list.
#[derive(Debug)]
pub struct ListItem {
    pub nodes: Vec<DocumentNode>,
}

/// One node of a document.
#[derive(Debug)]
pub enum DocumentNode {
    Span(Span),
    Heading { level: HeadingLevel, spans: Vec<Span> },
    Section { title: Option<Vec<Span>>, nodes: Vec<DocumentNode> },
    List { items: Vec<ListItem> },
    CodeBlock { lang: Option<String>, code: String },
    Link { url: String, text: Vec<Span> },
}

/// A document: a sequence of nodes.
#[derive(Debug)]
pub struct Document {
    pub nodes: Vec<DocumentNode>,
}

impl Span {
    /// A span of `text` in the given style.
    pub fn styled(text: &str, style: SpanStyle) -> (r: Span)
        ensures
            r.text@ == text@,
            r.style == style,
    {
        Span { text: String::from_str(text), style }
    }

    pub fn plain(text: &str) -> (r: Span)
        ensures
            r.text@ == text@,
            r.style == SpanStyle::Plain,
    {
        Span::styled(text, SpanStyle::Plain)
    }

    pub fn keyword(text: &str) -> (r: Span)
        ensures
            r.text@ == text@,
            r.style == SpanStyle::Keyword,
    {
        Span::styled(text, SpanStyle::Keyword)
    }

    pub fn typename(text: &str) -> (r: Span)
        ensures
            r.text@ == text@,
            r.style == SpanStyle::TypeName,
    {
        Span::styled(text, SpanStyle::TypeName)
    }

    pub fn function_name(text: &str) -> (r: Span)
        ensures
            r.text@ == text@,
            r.style == SpanStyle::FunctionName,
    {
        Span::styled(text, SpanStyle::FunctionName)
    }

    pub fn field_name(text: &str) -> (r: Span)
        ensures
            r.text@ == text@,
            r.style == SpanStyle::FieldName,
    {
        Span::styled(text, SpanStyle::FieldName)
    }

    pub fn lifetime(text: &str) -> (r: Span)
        ensures
            r.text@ == text@,
            r.style == SpanStyle::Lifetime,
    {
        Span::styled(text, SpanStyle::Lifetime)
    }

    pub fn generic(text: &str) -> (r: Span)
        ensures
            r.text@ == text@,
            r.style == SpanStyle::Generic,
    {
        Span::styled(text, SpanStyle::Generic)
    }

    pub fn punctuation(text: &str) -> (r: Span)
        ensures
            r.text@ == text@,
            r.style == SpanStyle::Punctuation,
    {
        Span::styled(text, SpanStyle::Punctuation)
    }

    pub fn operator(text: &str) -> (r: Span)
        ensures
            r.text@ == text@,
            r.style == SpanStyle::Operator,
    {
        Span::styled(text, SpanStyle::Operator)
    }

    pub fn comment(text: &str) -> (r: Span)
        ensures
            r.text@ == text@,
            r.style == SpanStyle::Comment,
    {
        Span::styled(text, SpanStyle::Comment)
    }

    pub fn inline_code(text: &str) -> (r: Span)
        ensures
            r.text@ == text@,
            r.style == SpanStyle::InlineCode,
    {
        Span::styled(text, SpanStyle::InlineCode)
    }
}

impl ListItem {
    /// An entry made of `nodes`.
    pub fn new(nodes: Vec<DocumentNode>) -> (r: ListItem)
        ensures
            r.nodes == nodes,
    {
        ListItem { nodes }
    }

    /// An entry that holds one span.
    pub fn from_span(span: Span) -> (r: ListItem)
        ensures
            r.nodes@ == seq![DocumentNode::Span(span)],
    {
        let mut nodes: Vec<DocumentNode> = Vec::new();
        nodes.push(DocumentNode::Span(span));
        assert(nodes@ =~= seq![DocumentNode::Span(span)]);
        ListItem { nodes }
    }
}

impl DocumentNode {
    pub fn heading(level: HeadingLevel, spans: Vec<Span>) -> (r: DocumentNode)
        ensures
            r == (DocumentNode::Heading { level, spans }),
    {
        DocumentNode::Heading { level, spans }
    }

    pub fn section(title: Vec<Span>, nodes: Vec<DocumentNode>) -> (r: DocumentNode)
        ensures
            r == (DocumentNode::Section { title: Some(title), nodes }),
    {
        DocumentNode::Section { title: Some(title), nodes }
    }

    pub fn list(items: Vec<ListItem>) -> (r: DocumentNode)
        ensures
            r == (DocumentNode::List { items }),
    {
        DocumentNode::List { items }
    }

    pub fn code_block(lang: Option<String>, code: String) -> (r: DocumentNode)
        ensures
            r == (DocumentNode::CodeBlock { lang, code }),
    {
        DocumentNode::CodeBlock { lang, code }
    }

    pub fn link(url: String, text: Vec<Span>) -> (r: DocumentNode)
        ensures
            r == (DocumentNode::Link { url, text }),
    {
        DocumentNode::Link { url, text }
    }
}

impl Document {
    /// A document without nodes.
    pub fn new() -> (r: Document)
        ensures
            r.nodes@.len() == 0,
    {
        Document { nodes: Vec::new() }
    }

    /// The document made of `nodes`.
    pub fn with_nodes(nodes: Vec<DocumentNode>) -> (r: Document)
        ensures
            r.nodes == nodes,
    {
        Document { nodes }
    }
}

/// `count` times the character `c`.
pub open spec fn repeated(c: char, count: nat) -> Seq<char> {
    Seq::new(count, |i: int| c)
}

/// Appends `count` times the one-character text `unit` to `output`.
pub(crate) fn push_repeated(output: &mut String, unit: &str, count: usize)
    requires
        unit@.len() == 1,
    ensures
        final(output)@ == old(output)@ + repeated(unit@[0], count as nat),
{
    let ghost start = output@;
    let mut i: usize = 0;
    assert(start + repeated(unit@[0], 0) =~= start);
    while i < count
        invariant
            i <= count,
            unit@.len() == 1,
            output@ == start + repeated(unit@[0], i as nat),
        decreases count - i,
    {
        output.append(unit);
        i += 1;
        assert(output@ =~= start + repeated(unit@[0], i as nat));
    }
}

/// Tells whether `text` ends with a line feed.
pub open spec fn ends_with_newline(text: Seq<char>) -> bool {
    text.len() > 0 && text.last() == '\n'
}

/// Tells whether `text` ends with a line feed.
pub fn has_final_newline(text: &str) -> (r: bool)
    ensures
        r == ends_with_newline(text@),
{
    let n = text.unicode_len();
    n > 0 && text.get_char(n - 1) == '\n'
}

} // verus!
