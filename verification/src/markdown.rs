//! Chat-message markdown: cleaning the text, reading it into a tree of blocks and spans,
//! and sizing table columns.
use crate::text::{replace_all, replace_str};
use pulldown_cmark::{Options, Parser};
use vstd::prelude::*;

verus! {

#[derive(Clone, Copy, Debug)]
pub struct MarkdownRenderConfig {
    pub enable_obsidian_tags: bool,
}

impl Default for MarkdownRenderConfig {
    fn default() -> (r: Self)
        ensures
            !r.enable_obsidian_tags,
    {
        Self { enable_obsidian_tags: false }
    }
}

// ---------------------------------------------------------------------------
// Cleaning
// ---------------------------------------------------------------------------
/// The text as the markdown reader gets it: carriage returns dropped, LaTeX arrows turned
/// into arrow characters, and a `$\` line break joined.
pub open spec fn sanitized(content: Seq<char>) -> Seq<char> {
    let s = replace_all(content, seq!['\r'], Seq::<char>::empty());
    let s = replace_all(s, "$\\rightarrow$"@, "→"@);
    let s = replace_all(s, "$\\Rightarrow$"@, "⇒"@);
    let s = replace_all(s, "\\rightarrow"@, "→"@);
    let s = replace_all(s, "\\Rightarrow"@, "⇒"@);
    replace_all(s, "$\\\n"@, "$\\"@)
}

pub fn sanitize_markdown(content: &str) -> (r: String)
    ensures
        r@ == sanitized(content@),
{
    let c = crate::text::chars_of(content);
    let cr = vec!['\r'];
    let nothing: Vec<char> = Vec::new();
    assert(cr@ =~= seq!['\r']);
    assert(nothing@ =~= Seq::<char>::empty());
    let s = crate::text::replace_chars(&c, &cr, &nothing);
    let s = replace_str(&s, "$\\rightarrow$", "→");
    let s = replace_str(&s, "$\\Rightarrow$", "⇒");
    let s = replace_str(&s, "\\rightarrow", "→");
    let s = replace_str(&s, "\\Rightarrow", "⇒");
    let s = replace_str(&s, "$\\\n", "$\\");
    crate::text::string_of(&s)
}

// ---------------------------------------------------------------------------
// The tree
// ---------------------------------------------------------------------------
#[derive(Clone, Copy, PartialEq, Eq, Debug, Structural)]
pub enum CellAlignment {
    Unaligned,
    Left,
    Center,
    Right,
}

#[derive(Clone, Copy, PartialEq, Eq, Debug, Structural)]
pub struct InlineStyle {
    pub bold: bool,
    pub italic: bool,
    pub strikethrough: bool,
}

/// A node of a read markdown message.
#[derive(Debug)]
pub enum MdNode {
    Paragraph(Vec<MdNode>),
    Heading(u8, Vec<MdNode>),
    BlockQuote(Vec<MdNode>),
    /// Whether the list is numbered, and its items.
    List(bool, Vec<MdNode>),
    /// Whether the item is a task, whether it is checked, and its content.
    Item(bool, bool, Vec<MdNode>),
    CodeInline(String, InlineStyle),
    Text(String, InlineStyle),
    Link(String, Vec<MdNode>),
    /// The language and the code.
    CodeBlock(String, String),
    Table(Vec<CellAlignment>, Vec<MdNode>),
    /// Whether the row is the header, the table's alignments, and the cells.
    TableRow(bool, Vec<CellAlignment>, Vec<MdNode>),
    TableCell(CellAlignment, Vec<MdNode>),
    Rule,
    Html(String),
}

/// The mathematical value of a markdown node.
pub enum MdTree {
    Paragraph(Seq<MdTree>),
    Heading(u8, Seq<MdTree>),
    BlockQuote(Seq<MdTree>),
    List(bool, Seq<MdTree>),
    Item(bool, bool, Seq<MdTree>),
    CodeInline(Seq<char>, InlineStyle),
    Text(Seq<char>, InlineStyle),
    Link(Seq<char>, Seq<MdTree>),
    CodeBlock(Seq<char>, Seq<char>),
    Table(Seq<CellAlignment>, Seq<MdTree>),
    TableRow(bool, Seq<CellAlignment>, Seq<MdTree>),
    TableCell(CellAlignment, Seq<MdTree>),
    Rule,
    Html(Seq<char>),
}

/// The value of a node.
pub open spec fn tree_of(n: MdNode) -> MdTree
    decreases n, 1int,
{
    match n {
        MdNode::Paragraph(c) => MdTree::Paragraph(trees_of(c@)),
        MdNode::Heading(l, c) => MdTree::Heading(l, trees_of(c@)),
        MdNode::BlockQuote(c) => MdTree::BlockQuote(trees_of(c@)),
        MdNode::List(o, c) => MdTree::List(o, trees_of(c@)),
        MdNode::Item(t, k, c) => MdTree::Item(t, k, trees_of(c@)),
        MdNode::CodeInline(s, st) => MdTree::CodeInline(s@, st),
        MdNode::Text(s, st) => MdTree::Text(s@, st),
        MdNode::Link(u, c) => MdTree::Link(u@, trees_of(c@)),
        MdNode::CodeBlock(l, s) => MdTree::CodeBlock(l@, s@),
        MdNode::Table(a, c) => MdTree::Table(a@, trees_of(c@)),
        MdNode::TableRow(h, a, c) => MdTree::TableRow(h, a@, trees_of(c@)),
        MdNode::TableCell(a, c) => MdTree::TableCell(a, trees_of(c@)),
        MdNode::Rule => MdTree::Rule,
        MdNode::Html(s) => MdTree::Html(s@),
    }
}

/// The values of a list of nodes.
pub open spec fn trees_of(s: Seq<MdNode>) -> Seq<MdTree>
    decreases s, 0int,
{
    if s.len() == 0 {
        Seq::<MdTree>::empty()
    } else {
        trees_of(s.drop_last()).push(tree_of(s.last()))
    }
}

// ---------------------------------------------------------------------------
// Events
// ---------------------------------------------------------------------------
/// The start of a markdown element, as far as the reader tells them apart.
#[derive(Debug)]
pub enum MdTag {
    Paragraph,
    Heading(u8),
    BlockQuote,
    /// The language of a fenced block (empty for an indented one).
    CodeBlock(String),
    /// The first number of a numbered list.
    List(Option<u64>),
    Item,
    Table(Vec<CellAlignment>),
    TableHead,
    TableRow,
    TableCell,
    Emphasis,
    Strong,
    Strikethrough,
    Link(String),
    Other,
}

/// The end of a markdown element.
#[derive(Clone, Copy, PartialEq, Eq, Debug, Structural)]
pub enum MdTagEnd {
    Paragraph,
    Heading,
    BlockQuote,
    CodeBlock,
    List,
    Item,
    Table,
    TableHead,
    TableRow,
    TableCell,
    Emphasis,
    Strong,
    Strikethrough,
    Link,
    Other,
}

/// A markdown parse event.
#[derive(Debug)]
pub enum MdEvent {
    Start(MdTag),
    End(MdTagEnd),
    Text(String),
    Code(String),
    Html(String),
    SoftBreak,
    HardBreak,
    Rule,
    TaskListMarker(bool),
    Other,
}

#[verifier::external_type_specification]
#[verifier::external_body]
pub struct ExCmarkEvent<'a>(pulldown_cmark::Event<'a>);

#[verifier::external_type_specification]
#[verifier::external_body]
pub struct ExCmarkTag<'a>(pulldown_cmark::Tag<'a>);

#[verifier::external_type_specification]
#[verifier::external_body]
pub struct ExCmarkTagEnd(pulldown_cmark::TagEnd);

#[verifier::external_type_specification]
#[verifier::external_body]
pub struct ExCmarkCodeBlockKind<'a>(pulldown_cmark::CodeBlockKind<'a>);

#[verifier::external_type_specification]
#[verifier::external_body]
pub struct ExCmarkAlignment(pulldown_cmark::Alignment);

/// Turns a `pulldown_cmark::Alignment` into a `CellAlignment`, variant for variant.
#[verifier::external_body]
fn alignment_of(a: pulldown_cmark::Alignment) -> CellAlignment {
    match a {
        pulldown_cmark::Alignment::None => CellAlignment::Unaligned,
        pulldown_cmark::Alignment::Left => CellAlignment::Left,
        pulldown_cmark::Alignment::Center => CellAlignment::Center,
        pulldown_cmark::Alignment::Right => CellAlignment::Right,
    }
}

/// The language of a code block: the info string of a fenced block, empty for an
/// indented one.
#[verifier::external_body]
fn code_block_language(kind: pulldown_cmark::CodeBlockKind) -> String {
    match kind {
        pulldown_cmark::CodeBlockKind::Fenced(lang) => lang.to_string(),
        pulldown_cmark::CodeBlockKind::Indented => String::new(),
    }
}

/// Turns a block-level `pulldown_cmark::Tag` into an `MdTag`, variant for variant; the
/// variants that the reader ignores become `Other`.
#[verifier::external_body]
fn block_tag_of(t: pulldown_cmark::Tag) -> MdTag {
    match t {
        pulldown_cmark::Tag::Paragraph => MdTag::Paragraph,
        pulldown_cmark::Tag::Heading { level, .. } => MdTag::Heading(level as u8),
        pulldown_cmark::Tag::BlockQuote(_) => MdTag::BlockQuote,
        pulldown_cmark::Tag::CodeBlock(kind) => MdTag::CodeBlock(code_block_language(kind)),
        pulldown_cmark::Tag::List(start) => MdTag::List(start),
        pulldown_cmark::Tag::Item => MdTag::Item,
        pulldown_cmark::Tag::Table(a) => MdTag::Table(a.into_iter().map(alignment_of).collect()),
        pulldown_cmark::Tag::TableHead => MdTag::TableHead,
        pulldown_cmark::Tag::TableRow => MdTag::TableRow,
        pulldown_cmark::Tag::TableCell => MdTag::TableCell,
        _ => MdTag::Other,
    }
}

/// Turns a `pulldown_cmark::Tag` into an `MdTag`, variant for variant.
#[verifier::external_body]
fn tag_of(t: pulldown_cmark::Tag) -> MdTag {
    match t {
        pulldown_cmark::Tag::Emphasis => MdTag::Emphasis,
        pulldown_cmark::Tag::Strong => MdTag::Strong,
        pulldown_cmark::Tag::Strikethrough => MdTag::Strikethrough,
        pulldown_cmark::Tag::Link { dest_url, .. } => MdTag::Link(dest_url.to_string()),
        other => block_tag_of(other),
    }
}

/// Turns a block-level `pulldown_cmark::TagEnd` into an `MdTagEnd`, variant for variant;
/// the variants that the reader ignores become `Other`.
#[verifier::external_body]
fn block_tag_end_of(t: pulldown_cmark::TagEnd) -> MdTagEnd {
    match t {
        pulldown_cmark::TagEnd::Paragraph => MdTagEnd::Paragraph,
        pulldown_cmark::TagEnd::Heading(_) => MdTagEnd::Heading,
        pulldown_cmark::TagEnd::BlockQuote(_) => MdTagEnd::BlockQuote,
        pulldown_cmark::TagEnd::CodeBlock => MdTagEnd::CodeBlock,
        pulldown_cmark::TagEnd::List(_) => MdTagEnd::List,
        pulldown_cmark::TagEnd::Item => MdTagEnd::Item,
        pulldown_cmark::TagEnd::Table => MdTagEnd::Table,
        pulldown_cmark::TagEnd::TableHead => MdTagEnd::TableHead,
        pulldown_cmark::TagEnd::TableRow => MdTagEnd::TableRow,
        pulldown_cmark::TagEnd::TableCell => MdTagEnd::TableCell,
        _ => MdTagEnd::Other,
    }
}

/// Turns a `pulldown_cmark::TagEnd` into an `MdTagEnd`, variant for variant.
#[verifier::external_body]
fn tag_end_of(t: pulldown_cmark::TagEnd) -> MdTagEnd {
    match t {
        pulldown_cmark::TagEnd::Emphasis => MdTagEnd::Emphasis,
        pulldown_cmark::TagEnd::Strong => MdTagEnd::Strong,
        pulldown_cmark::TagEnd::Strikethrough => MdTagEnd::Strikethrough,
        pulldown_cmark::TagEnd::Link => MdTagEnd::Link,
        other => block_tag_end_of(other),
    }
}

/// Turns a `pulldown_cmark::Event` into an `MdEvent`, variant for variant; the variants
/// that the reader ignores become `Other`.
#[verifier::external_body]
fn event_of(e: pulldown_cmark::Event) -> MdEvent {
    match e {
        pulldown_cmark::Event::Start(t) => MdEvent::Start(tag_of(t)),
        pulldown_cmark::Event::End(t) => MdEvent::End(tag_end_of(t)),
        pulldown_cmark::Event::Text(s) => MdEvent::Text(s.to_string()),
        pulldown_cmark::Event::Code(s) => MdEvent::Code(s.to_string()),
        pulldown_cmark::Event::Html(s) => MdEvent::Html(s.to_string()),
        pulldown_cmark::Event::SoftBreak => MdEvent::SoftBreak,
        pulldown_cmark::Event::HardBreak => MdEvent::HardBreak,
        pulldown_cmark::Event::Rule => MdEvent::Rule,
        pulldown_cmark::Event::TaskListMarker(b) => MdEvent::TaskListMarker(b),
        _ => MdEvent::Other,
    }
}

/// What `pulldown_cmark::Parser::new_ext` yields for a text, with tables, task lists,
/// strikethrough and footnotes enabled.
pub uninterp spec fn cmark_events(content: Seq<char>) -> Seq<MdEvent>;

/// `pulldown_cmark::Parser::new_ext` with tables, task lists, strikethrough and footnotes
/// enabled: the contract names the event stream of the text and says nothing more of it.
#[verifier::external_body]
pub(crate) fn markdown_events(content: &str) -> (r: Vec<MdEvent>)
    ensures
        r@ == cmark_events(content@),
{
    let options = Options::ENABLE_TABLES | Options::ENABLE_TASKLISTS
        | Options::ENABLE_STRIKETHROUGH | Options::ENABLE_FOOTNOTES;
    let mut events = Vec::new();
    for event in Parser::new_ext(content, options) {
        events.push(event_of(event));
    }
    events
}

// ---------------------------------------------------------------------------
// Reading events into a tree
// ---------------------------------------------------------------------------
/// What the reader knows between two events: the open elements (the outermost first), the
/// open emphasis levels, the code block being read, and the table being read.
pub struct ReadState {
    pub stack: Seq<MdTree>,
    pub strong: nat,
    pub emphasis: nat,
    pub strike: nat,
    pub in_code: bool,
    pub code_lang: Seq<char>,
    pub code: Seq<char>,
    pub aligns: Seq<CellAlignment>,
    pub cell: nat,
}

pub open spec fn initial_read_state() -> ReadState {
    ReadState {
        stack: seq![MdTree::Paragraph(Seq::<MdTree>::empty())],
        strong: 0,
        emphasis: 0,
        strike: 0,
        in_code: false,
        code_lang: Seq::<char>::empty(),
        code: Seq::<char>::empty(),
        aligns: Seq::<CellAlignment>::empty(),
        cell: 0,
    }
}

/// `t` with `n` added as its last child, when `t` holds children.
pub open spec fn with_child(t: MdTree, n: MdTree) -> Option<MdTree> {
    match t {
        MdTree::Paragraph(c) => Some(MdTree::Paragraph(c.push(n))),
        MdTree::Heading(l, c) => Some(MdTree::Heading(l, c.push(n))),
        MdTree::BlockQuote(c) => Some(MdTree::BlockQuote(c.push(n))),
        MdTree::List(o, c) => Some(MdTree::List(o, c.push(n))),
        MdTree::Item(t, k, c) => Some(MdTree::Item(t, k, c.push(n))),
        MdTree::Table(a, c) => Some(MdTree::Table(a, c.push(n))),
        MdTree::TableRow(h, a, c) => Some(MdTree::TableRow(h, a, c.push(n))),
        MdTree::TableCell(a, c) => Some(MdTree::TableCell(a, c.push(n))),
        MdTree::Link(u, c) => Some(MdTree::Link(u, c.push(n))),
        _ => None,
    }
}

/// The open elements after `n` is added to the innermost one (dropped if it holds no
/// children, or if none is open).
pub open spec fn add_child(stack: Seq<MdTree>, n: MdTree) -> Seq<MdTree> {
    if stack.len() == 0 {
        stack
    } else {
        match with_child(stack.last(), n) {
            Some(t) => stack.drop_last().push(t),
            None => stack,
        }
    }
}

pub open spec fn style_of(st: ReadState) -> InlineStyle {
    InlineStyle { bold: st.strong > 0, italic: st.emphasis > 0, strikethrough: st.strike > 0 }
}

pub open spec fn closes_element(t: MdTagEnd) -> bool {
    match t {
        MdTagEnd::Paragraph | MdTagEnd::Heading | MdTagEnd::BlockQuote | MdTagEnd::List
        | MdTagEnd::Item | MdTagEnd::Table | MdTagEnd::TableRow | MdTagEnd::TableCell
        | MdTagEnd::Link | MdTagEnd::TableHead => true,
        _ => false,
    }
}

pub open spec fn dec(n: nat) -> nat {
    if n > 0 {
        (n - 1) as nat
    } else {
        0
    }
}

/// The reader's state after the start of an element.
pub open spec fn read_start(st: ReadState, tag: MdTag) -> ReadState {
    match tag {
        MdTag::Paragraph => ReadState {
            stack: st.stack.push(MdTree::Paragraph(Seq::<MdTree>::empty())),
            ..st
        },
        MdTag::Heading(l) => ReadState {
            stack: st.stack.push(MdTree::Heading(l, Seq::<MdTree>::empty())),
            ..st
        },
        MdTag::BlockQuote => ReadState {
            stack: st.stack.push(MdTree::BlockQuote(Seq::<MdTree>::empty())),
            ..st
        },
        MdTag::List(start) => ReadState {
            stack: st.stack.push(MdTree::List(start is Some, Seq::<MdTree>::empty())),
            ..st
        },
        MdTag::Item => ReadState {
            stack: st.stack.push(MdTree::Item(false, false, Seq::<MdTree>::empty())),
            ..st
        },
        MdTag::Table(a) => ReadState {
            aligns: a@,
            stack: st.stack.push(MdTree::Table(a@, Seq::<MdTree>::empty())),
            ..st
        },
        MdTag::TableHead => ReadState {
            cell: 0,
            stack: st.stack.push(MdTree::TableRow(true, st.aligns, Seq::<MdTree>::empty())),
            ..st
        },
        MdTag::TableRow => ReadState {
            cell: 0,
            stack: st.stack.push(MdTree::TableRow(false, st.aligns, Seq::<MdTree>::empty())),
            ..st
        },
        MdTag::TableCell => ReadState {
            stack: st.stack.push(
                MdTree::TableCell(
                    if st.cell < st.aligns.len() {
                        st.aligns[st.cell as int]
                    } else {
                        CellAlignment::Unaligned
                    },
                    Seq::<MdTree>::empty(),
                ),
            ),
            cell: st.cell + 1,
            ..st
        },
        MdTag::Strong => ReadState { strong: st.strong + 1, ..st },
        MdTag::Emphasis => ReadState { emphasis: st.emphasis + 1, ..st },
        MdTag::Strikethrough => ReadState { strike: st.strike + 1, ..st },
        MdTag::Link(u) => ReadState {
            stack: st.stack.push(MdTree::Link(u@, Seq::<MdTree>::empty())),
            ..st
        },
        MdTag::CodeBlock(lang) => ReadState {
            in_code: true,
            code: Seq::<char>::empty(),
            code_lang: lang@,
            ..st
        },
        MdTag::Other => st,
    }
}

/// The reader's state after the end of an element.
pub open spec fn read_end(st: ReadState, t: MdTagEnd) -> ReadState {
    if closes_element(t) {
        if st.stack.len() == 0 {
            st
        } else {
            ReadState { stack: add_child(st.stack.drop_last(), st.stack.last()), ..st }
        }
    } else {
        match t {
            MdTagEnd::Strong => ReadState { strong: dec(st.strong), ..st },
            MdTagEnd::Emphasis => ReadState { emphasis: dec(st.emphasis), ..st },
            MdTagEnd::Strikethrough => ReadState { strike: dec(st.strike), ..st },
            MdTagEnd::CodeBlock => ReadState {
                in_code: false,
                stack: add_child(st.stack, MdTree::CodeBlock(st.code_lang, st.code)),
                ..st
            },
            _ => st,
        }
    }
}

/// The reader's state after one event.
pub open spec fn read_step(st: ReadState, e: MdEvent) -> ReadState {
    let style = style_of(st);
    match e {
        MdEvent::Start(tag) => read_start(st, tag),
        MdEvent::End(t) => read_end(st, t),
        MdEvent::TaskListMarker(checked) => if st.stack.len() > 0 && st.stack.last() is Item {
            ReadState {
                stack: st.stack.drop_last().push(
                    MdTree::Item(true, checked, st.stack.last()->Item_2),
                ),
                ..st
            }
        } else {
            st
        },
        MdEvent::Html(h) => ReadState { stack: add_child(st.stack, MdTree::Html(h@)), ..st },
        MdEvent::Text(t) => if st.in_code {
            ReadState { code: st.code + t@, ..st }
        } else {
            ReadState { stack: add_child(st.stack, MdTree::Text(t@, style)), ..st }
        },
        MdEvent::Code(c) => ReadState {
            stack: add_child(st.stack, MdTree::CodeInline(c@, style)),
            ..st
        },
        MdEvent::SoftBreak => if st.in_code {
            ReadState { code: st.code.push('\n'), ..st }
        } else {
            ReadState { stack: add_child(st.stack, MdTree::Text(seq![' '], style)), ..st }
        },
        MdEvent::HardBreak => if st.in_code {
            ReadState { code: st.code.push('\n'), ..st }
        } else {
            ReadState { stack: add_child(st.stack, MdTree::Text(seq!['\n'], style)), ..st }
        },
        MdEvent::Rule => ReadState { stack: add_child(st.stack, MdTree::Rule), ..st },
        MdEvent::Other => st,
    }
}

/// The reader's state after the first `n` events.
pub open spec fn read_events(events: Seq<MdEvent>, n: nat) -> ReadState
    decreases n,
{
    if n == 0 || n > events.len() {
        initial_read_state()
    } else {
        read_step(read_events(events, (n - 1) as nat), events[n - 1])
    }
}

/// The blocks of a message read from its events: the children of the outer paragraph
/// that is open when the events end (none if another element is open then).
pub open spec fn read_blocks(events: Seq<MdEvent>) -> Seq<MdTree> {
    let st = read_events(events, events.len());
    if st.stack.len() > 0 && st.stack.last() is Paragraph {
        st.stack.last()->Paragraph_0
    } else {
        Seq::<MdTree>::empty()
    }
}

/// The blocks of a markdown text.
pub open spec fn markdown_blocks(content: Seq<char>) -> Seq<MdTree> {
    read_blocks(cmark_events(content))
}

proof fn lemma_trees_push(s: Seq<MdNode>, x: MdNode)
    ensures
        trees_of(s.push(x)) == trees_of(s).push(tree_of(x)),
{
    assert(s.push(x).drop_last() =~= s);
}

proof fn lemma_trees_len(s: Seq<MdNode>)
    ensures
        trees_of(s).len() == s.len(),
    decreases s.len(),
{
    if s.len() > 0 {
        lemma_trees_len(s.drop_last());
    }
}

proof fn lemma_trees_last(s: Seq<MdNode>)
    requires
        s.len() > 0,
    ensures
        trees_of(s).last() == tree_of(s.last()),
        trees_of(s).drop_last() == trees_of(s.drop_last()),
{
    lemma_trees_len(s.drop_last());
}

/// `node` with `child` added as its last child, when it holds children.
fn node_with_child(node: MdNode, child: MdNode) -> (r: MdNode)
    ensures
        tree_of(r) == match with_child(tree_of(node), tree_of(child)) {
            Some(t) => t,
            None => tree_of(node),
        },
{
    let ghost c = tree_of(child);
    match node {
        MdNode::Paragraph(mut v) => {
            proof {
                lemma_trees_push(v@, child);
            }
            v.push(child);
            MdNode::Paragraph(v)
        },
        MdNode::Heading(l, mut v) => {
            proof {
                lemma_trees_push(v@, child);
            }
            v.push(child);
            MdNode::Heading(l, v)
        },
        MdNode::BlockQuote(mut v) => {
            proof {
                lemma_trees_push(v@, child);
            }
            v.push(child);
            MdNode::BlockQuote(v)
        },
        MdNode::List(o, mut v) => {
            proof {
                lemma_trees_push(v@, child);
            }
            v.push(child);
            MdNode::List(o, v)
        },
        MdNode::Item(t, k, mut v) => {
            proof {
                lemma_trees_push(v@, child);
            }
            v.push(child);
            MdNode::Item(t, k, v)
        },
        MdNode::Table(a, mut v) => {
            proof {
                lemma_trees_push(v@, child);
            }
            v.push(child);
            MdNode::Table(a, v)
        },
        MdNode::TableRow(h, a, mut v) => {
            proof {
                lemma_trees_push(v@, child);
            }
            v.push(child);
            MdNode::TableRow(h, a, v)
        },
        MdNode::TableCell(a, mut v) => {
            proof {
                lemma_trees_push(v@, child);
            }
            v.push(child);
            MdNode::TableCell(a, v)
        },
        MdNode::Link(u, mut v) => {
            proof {
                lemma_trees_push(v@, child);
            }
            v.push(child);
            MdNode::Link(u, v)
        },
        other => other,
    }
}

/// Adds `n` to the innermost open element.
fn add_child_exec(stack: &mut Vec<MdNode>, n: MdNode)
    ensures
        trees_of(final(stack)@) == add_child(trees_of(old(stack)@), tree_of(n)),
{
    let ghost old_stack = stack@;
    match stack.pop() {
        Some(last) => {
            proof {
                assert(old_stack.drop_last() =~= stack@);
                lemma_trees_last(old_stack);
            }
            let updated = node_with_child(last, n);
            stack.push(updated);
            proof {
                lemma_trees_push(old_stack.drop_last(), updated);
            }
        },
        None => {
            proof {
                lemma_trees_len(old_stack);
            }
        },
    }
}

fn copy_alignments(a: &Vec<CellAlignment>) -> (r: Vec<CellAlignment>)
    ensures
        r@ == a@,
{
    let mut r: Vec<CellAlignment> = Vec::new();
    let mut i: usize = 0;
    while i < a.len()
        invariant
            i <= a.len(),
            r@ == a@.take(i as int),
        decreases a.len() - i,
    {
        r.push(a[i]);
        assert(r@ =~= a@.take(i + 1));
        i = i + 1;
    }
    assert(a@.take(a.len() as int) =~= a@);
    r
}

/// Reads a markdown text into its blocks.
pub fn parse_markdown(content: &str) -> (r: Vec<MdNode>)
    ensures
        trees_of(r@) == markdown_blocks(content@),
{
    let events = markdown_events(content);
    read_markdown_events(events)
}

/// Reads markdown events into the blocks of the message.
pub fn read_markdown_events(events: Vec<MdEvent>) -> (r: Vec<MdNode>)
    ensures
        trees_of(r@) == read_blocks(events@),
{
    let ghost evs = events@;
    let count = events.len();
    assert(evs.len() == count);
    let first = MdNode::Paragraph(Vec::new());
    let mut stack: Vec<MdNode> = Vec::new();
    proof {
        lemma_trees_push(stack@, first);
        assert(trees_of(stack@) =~= Seq::<MdTree>::empty());
        let fv: Vec<MdNode> = first->Paragraph_0;
        assert(trees_of(fv@) =~= Seq::<MdTree>::empty());
    }
    stack.push(first);
    let mut strong: usize = 0;
    let mut emphasis: usize = 0;
    let mut strike: usize = 0;
    let mut in_code = false;
    let mut code_lang: Vec<char> = Vec::new();
    let mut code: Vec<char> = Vec::new();
    let mut aligns: Vec<CellAlignment> = Vec::new();
    let mut cell: usize = 0;
    let mut i: usize = 0;
    for event in it: events
        invariant
            evs == it.seq(),
            evs.len() <= usize::MAX,
            i == it.index(),
            i <= evs.len(),
            strong <= i,
            emphasis <= i,
            strike <= i,
            cell <= i,
            ({
                let st = read_events(evs, i as nat);
                &&& trees_of(stack@) == st.stack
                &&& strong == st.strong
                &&& emphasis == st.emphasis
                &&& strike == st.strike
                &&& in_code == st.in_code
                &&& code_lang@ == st.code_lang
                &&& code@ == st.code
                &&& aligns@ == st.aligns
                &&& cell == st.cell
            }),
    {
        let ghost st = read_events(evs, i as nat);
        assert(i < evs.len());
        assert(event == evs[i as int]);
        let style = InlineStyle { bold: strong > 0, italic: emphasis > 0, strikethrough: strike > 0 };
        assert(style == style_of(st));
        match event {
            MdEvent::Start(tag) => match tag {
                MdTag::Paragraph => {
                    let n = MdNode::Paragraph(Vec::new());
                    proof { lemma_trees_push(stack@, n); }
                    stack.push(n);
                },
                MdTag::Heading(l) => {
                    let n = MdNode::Heading(l, Vec::new());
                    proof { lemma_trees_push(stack@, n); }
                    stack.push(n);
                },
                MdTag::BlockQuote => {
                    let n = MdNode::BlockQuote(Vec::new());
                    proof { lemma_trees_push(stack@, n); }
                    stack.push(n);
                },
                MdTag::List(start) => {
                    let n = MdNode::List(start.is_some(), Vec::new());
                    proof { lemma_trees_push(stack@, n); }
                    stack.push(n);
                },
                MdTag::Item => {
                    let n = MdNode::Item(false, false, Vec::new());
                    proof { lemma_trees_push(stack@, n); }
                    stack.push(n);
                },
                MdTag::Table(a) => {
                    aligns = copy_alignments(&a);
                    let n = MdNode::Table(a, Vec::new());
                    proof { lemma_trees_push(stack@, n); }
                    stack.push(n);
                },
                MdTag::TableHead => {
                    cell = 0;
                    let n = MdNode::TableRow(true, copy_alignments(&aligns), Vec::new());
                    proof { lemma_trees_push(stack@, n); }
                    stack.push(n);
                },
                MdTag::TableRow => {
                    cell = 0;
                    let n = MdNode::TableRow(false, copy_alignments(&aligns), Vec::new());
                    proof { lemma_trees_push(stack@, n); }
                    stack.push(n);
                },
                MdTag::TableCell => {
                    let a = if cell < aligns.len() {
                        aligns[cell]
                    } else {
                        CellAlignment::Unaligned
                    };
                    let n = MdNode::TableCell(a, Vec::new());
                    proof { lemma_trees_push(stack@, n); }
                    stack.push(n);
                    cell = cell + 1;
                },
                MdTag::Strong => {
                    strong = strong + 1;
                },
                MdTag::Emphasis => {
                    emphasis = emphasis + 1;
                },
                MdTag::Strikethrough => {
                    strike = strike + 1;
                },
                MdTag::Link(u) => {
                    let n = MdNode::Link(u, Vec::new());
                    proof { lemma_trees_push(stack@, n); }
                    stack.push(n);
                },
                MdTag::CodeBlock(lang) => {
                    in_code = true;
                    code = Vec::new();
                    code_lang = crate::text::chars_of(lang.as_str());
                },
                MdTag::Other => {},
            },
            MdEvent::End(t) => {
                let closes = match t {
                    MdTagEnd::Paragraph | MdTagEnd::Heading | MdTagEnd::BlockQuote
                    | MdTagEnd::List | MdTagEnd::Item | MdTagEnd::Table | MdTagEnd::TableRow
                    | MdTagEnd::TableCell | MdTagEnd::Link | MdTagEnd::TableHead => true,
                    _ => false,
                };
                if closes {
                    let ghost before = stack@;
                    match stack.pop() {
                        Some(node) => {
                            proof {
                                assert(before.drop_last() =~= stack@);
                                lemma_trees_last(before);
                            }
                            add_child_exec(&mut stack, node);
                        },
                        None => {
                            proof { lemma_trees_len(before); }
                        },
                    }
                } else {
                    match t {
                        MdTagEnd::Strong => {
                            if strong > 0 {
                                strong = strong - 1;
                            }
                        },
                        MdTagEnd::Emphasis => {
                            if emphasis > 0 {
                                emphasis = emphasis - 1;
                            }
                        },
                        MdTagEnd::Strikethrough => {
                            if strike > 0 {
                                strike = strike - 1;
                            }
                        },
                        MdTagEnd::CodeBlock => {
                            in_code = false;
                            let n = MdNode::CodeBlock(
                                crate::text::string_of(&code_lang),
                                crate::text::string_of(&code),
                            );
                            add_child_exec(&mut stack, n);
                        },
                        _ => {},
                    }
                }
            },
            MdEvent::TaskListMarker(checked) => {
                let ghost before = stack@;
                match stack.pop() {
                    Some(node) => {
                        proof {
                            assert(before.drop_last() =~= stack@);
                            lemma_trees_last(before);
                        }
                        let node = match node {
                            MdNode::Item(_, _, c) => MdNode::Item(true, checked, c),
                            other => other,
                        };
                        proof { lemma_trees_push(stack@, node); }
                        stack.push(node);
                        proof {
                            if !(tree_of(before.last()) is Item) {
                                assert(stack@ =~= before);
                            }
                        }
                    },
                    None => {
                        proof { lemma_trees_len(before); }
                    },
                }
            },
            MdEvent::Html(h) => {
                add_child_exec(&mut stack, MdNode::Html(h));
            },
            MdEvent::Text(t) => {
                if in_code {
                    crate::text::append_str(&mut code, t.as_str());
                } else {
                    add_child_exec(&mut stack, MdNode::Text(t, style));
                }
            },
            MdEvent::Code(c) => {
                add_child_exec(&mut stack, MdNode::CodeInline(c, style));
            },
            MdEvent::SoftBreak => {
                if in_code {
                    code.push('\n');
                } else {
                    let sp = crate::text::string_of(&vec![' ']);
                    assert(sp@ =~= seq![' ']);
                    add_child_exec(&mut stack, MdNode::Text(sp, style));
                }
            },
            MdEvent::HardBreak => {
                if in_code {
                    code.push('\n');
                } else {
                    let nl = crate::text::string_of(&vec!['\n']);
                    assert(nl@ =~= seq!['\n']);
                    add_child_exec(&mut stack, MdNode::Text(nl, style));
                }
            },
            MdEvent::Rule => {
                add_child_exec(&mut stack, MdNode::Rule);
            },
            MdEvent::Other => {},
        }
        i = i + 1;
    }
    let ghost fin = stack@;
    match stack.pop() {
        Some(MdNode::Paragraph(children)) => {
            proof {
                lemma_trees_last(fin);
            }
            children
        },
        other => {
            proof {
                if fin.len() > 0 {
                    lemma_trees_last(fin);
                } else {
                    lemma_trees_len(fin);
                }
            }
            let none: Vec<MdNode> = Vec::new();
            assert(trees_of(none@) =~= Seq::<MdTree>::empty());
            none
        },
    }
}

// ---------------------------------------------------------------------------
// Text length and table columns
// ---------------------------------------------------------------------------
/// The length, in UTF-8 bytes, of the trimmed texts of a node.
pub open spec fn text_len(t: MdTree) -> nat
    decreases t, 1int,
{
    match t {
        MdTree::Text(s, _) => crate::text::utf8_len(crate::text::trim(s)),
        MdTree::CodeInline(s, _) => crate::text::utf8_len(crate::text::trim(s)),
        MdTree::CodeBlock(_, s) => crate::text::utf8_len(crate::text::trim(s)),
        MdTree::Html(s) => crate::text::utf8_len(crate::text::trim(s)),
        MdTree::Rule => 0,
        MdTree::Paragraph(c) => texts_len(c),
        MdTree::Heading(_, c) => texts_len(c),
        MdTree::BlockQuote(c) => texts_len(c),
        MdTree::List(_, c) => texts_len(c),
        MdTree::Item(_, _, c) => texts_len(c),
        MdTree::Link(_, c) => texts_len(c),
        MdTree::Table(_, c) => texts_len(c),
        MdTree::TableRow(_, _, c) => texts_len(c),
        MdTree::TableCell(_, c) => texts_len(c),
    }
}

/// The summed text length of a list of nodes.
pub open spec fn texts_len(s: Seq<MdTree>) -> nat
    decreases s, 0int,
{
    if s.len() == 0 {
        0
    } else {
        texts_len(s.drop_last()) + text_len(s.last())
    }
}

proof fn lemma_texts_len_prefix(s: Seq<MdTree>, k: int)
    requires
        0 <= k <= s.len(),
    ensures
        texts_len(s.take(k)) <= texts_len(s),
        k < s.len() ==> texts_len(s.take(k)) + text_len(s[k]) <= texts_len(s),
    decreases s.len() - k,
{
    if k < s.len() {
        lemma_texts_len_prefix(s, k + 1);
        assert(s.take(k + 1).drop_last() =~= s.take(k));
    } else {
        assert(s.take(k) =~= s);
    }
}

fn trimmed_utf8_len(s: &String) -> (r: usize)
    requires
        crate::text::utf8_len(crate::text::trim(s@)) <= usize::MAX,
    ensures
        r == crate::text::utf8_len(crate::text::trim(s@)),
{
    let c = crate::text::chars_of(s.as_str());
    let t = crate::text::trim_chars(&c);
    let mut total: usize = 0;
    let mut i: usize = 0;
    while i < t.len()
        invariant
            i <= t.len(),
            total == crate::text::utf8_len(t@.take(i as int)),
            crate::text::utf8_len(t@) <= usize::MAX,
        decreases t.len() - i,
    {
        assert(t@.take(i + 1).drop_last() =~= t@.take(i as int));
        proof {
            crate::text::lemma_utf8_len_prefix(t@, i + 1);
        }
        total = total + crate::text::char_utf8_width(t[i]);
        i = i + 1;
    }
    assert(t@.take(t.len() as int) =~= t@);
    total
}

fn nodes_text_len(v: &Vec<MdNode>) -> (r: usize)
    requires
        texts_len(trees_of(v@)) <= usize::MAX,
    ensures
        r == texts_len(trees_of(v@)),
    decreases v, 0int,
{
    let mut total: usize = 0;
    let mut i: usize = 0;
    proof {
        lemma_trees_len(v@);
    }
    while i < v.len()
        invariant
            i <= v.len(),
            trees_of(v@).len() == v@.len(),
            texts_len(trees_of(v@)) <= usize::MAX,
            total == texts_len(trees_of(v@).take(i as int)),
        decreases v.len() - i,
    {
        proof {
            lemma_texts_len_prefix(trees_of(v@), i as int);
            assert(trees_of(v@).take(i + 1).drop_last() =~= trees_of(v@).take(i as int));
            lemma_trees_nth(v@, i as int);
        }
        assert(decreases_to!(v => v@[i as int]));
        let n = node_text_len(&v[i]);
        total = total + n;
        i = i + 1;
    }
    assert(trees_of(v@).take(v.len() as int) =~= trees_of(v@));
    total
}

proof fn lemma_trees_nth(s: Seq<MdNode>, i: int)
    requires
        0 <= i < s.len(),
    ensures
        trees_of(s)[i] == tree_of(s[i]),
    decreases s.len(),
{
    lemma_trees_len(s);
    if i < s.len() - 1 {
        lemma_trees_nth(s.drop_last(), i);
    }
}

/// The length, in UTF-8 bytes, of the trimmed texts of a node.
pub fn node_text_len(node: &MdNode) -> (r: usize)
    requires
        text_len(tree_of(*node)) <= usize::MAX,
    ensures
        r == text_len(tree_of(*node)),
    decreases node, 1int,
{
    match node {
        MdNode::Text(s, _) => trimmed_utf8_len(s),
        MdNode::CodeInline(s, _) => trimmed_utf8_len(s),
        MdNode::CodeBlock(_, s) => trimmed_utf8_len(s),
        MdNode::Html(s) => trimmed_utf8_len(s),
        MdNode::Rule => 0,
        MdNode::Paragraph(c) => nodes_text_len(c),
        MdNode::Heading(_, c) => nodes_text_len(c),
        MdNode::BlockQuote(c) => nodes_text_len(c),
        MdNode::List(_, c) => nodes_text_len(c),
        MdNode::Item(_, _, c) => nodes_text_len(c),
        MdNode::Link(_, c) => nodes_text_len(c),
        MdNode::Table(_, c) => nodes_text_len(c),
        MdNode::TableRow(_, _, c) => nodes_text_len(c),
        MdNode::TableCell(_, c) => nodes_text_len(c),
    }
}


/// The number of cells of a table row; zero for any other node.
pub open spec fn row_cell_count(t: MdTree) -> nat {
    match t {
        MdTree::TableRow(_, _, c) => c.len(),
        _ => 0,
    }
}

/// The number of columns of a table: the number of its alignments, or more
/// where a row has more cells.
pub open spec fn column_count(aligns: nat, rows: Seq<MdTree>) -> nat
    decreases rows.len(),
{
    if rows.len() == 0 {
        aligns
    } else {
        let m = column_count(aligns, rows.drop_last());
        let k = row_cell_count(rows.last());
        if k > m {
            k
        } else {
            m
        }
    }
}

/// The text length of cell `i` of a table row; zero where there is no such cell.
pub open spec fn cell_len_at(t: MdTree, i: int) -> nat {
    match t {
        MdTree::TableRow(_, _, c) => if 0 <= i < c.len() {
            text_len(c[i])
        } else {
            0
        },
        _ => 0,
    }
}

/// The longest text of column `i` over the rows of a table.
pub open spec fn column_len(rows: Seq<MdTree>, i: int) -> nat
    decreases rows.len(),
{
    if rows.len() == 0 {
        0
    } else {
        let m = column_len(rows.drop_last(), i);
        let k = cell_len_at(rows.last(), i);
        if k > m {
            k
        } else {
            m
        }
    }
}

/// The width in pixels of a column whose longest text is `len` bytes: the
/// length is held between 6 and 40, seven pixels each plus 48, and the width
/// between 160 and 420.
pub open spec fn column_width(len: nat) -> nat {
    let l: nat = if len < 6 {
        6
    } else if len > 40 {
        40
    } else {
        len
    };
    let w: nat = l * 7 + 48;
    if w < 160 {
        160
    } else if w > 420 {
        420
    } else {
        w
    }
}

/// The number of columns of a table with the given alignments and rows.
pub fn table_column_count(aligns: &Vec<CellAlignment>, rows: &Vec<MdNode>) -> (r: usize)
    ensures
        r == column_count(aligns.len() as nat, trees_of(rows@)),
{
    let mut count: usize = aligns.len();
    let mut i: usize = 0;
    proof {
        lemma_trees_len(rows@);
    }
    while i < rows.len()
        invariant
            i <= rows.len(),
            trees_of(rows@).len() == rows@.len(),
            count == column_count(aligns.len() as nat, trees_of(rows@).take(i as int)),
        decreases rows.len() - i,
    {
        proof {
            assert(trees_of(rows@).take(i + 1).drop_last() =~= trees_of(rows@).take(i as int));
            lemma_trees_nth(rows@, i as int);
        }
        match &rows[i] {
            MdNode::TableRow(_, _, cells) => {
                proof {
                    lemma_trees_len(cells@);
                }
                if cells.len() > count {
                    count = cells.len();
                }
            },
            _ => {},
        }
        i = i + 1;
    }
    assert(trees_of(rows@).take(rows.len() as int) =~= trees_of(rows@));
    count
}

/// The longest text, in UTF-8 bytes, of column `col` over the rows of a table.
fn table_column_len(rows: &Vec<MdNode>, col: usize) -> (r: usize)
    requires
        texts_len(trees_of(rows@)) <= usize::MAX,
    ensures
        r == column_len(trees_of(rows@), col as int),
{
    let mut best: usize = 0;
    let mut i: usize = 0;
    proof {
        lemma_trees_len(rows@);
    }
    while i < rows.len()
        invariant
            i <= rows.len(),
            trees_of(rows@).len() == rows@.len(),
            texts_len(trees_of(rows@)) <= usize::MAX,
            best == column_len(trees_of(rows@).take(i as int), col as int),
        decreases rows.len() - i,
    {
        proof {
            assert(trees_of(rows@).take(i + 1).drop_last() =~= trees_of(rows@).take(i as int));
            lemma_trees_nth(rows@, i as int);
            lemma_texts_len_prefix(trees_of(rows@), i as int);
        }
        match &rows[i] {
            MdNode::TableRow(_, _, cells) => {
                proof {
                    lemma_trees_len(cells@);
                }
                if col < cells.len() {
                    proof {
                        lemma_trees_nth(cells@, col as int);
                        lemma_texts_len_prefix(trees_of(cells@), col as int);
                    }
                    let n = node_text_len(&cells[col]);
                    if n > best {
                        best = n;
                    }
                }
            },
            _ => {},
        }
        i = i + 1;
    }
    assert(trees_of(rows@).take(rows.len() as int) =~= trees_of(rows@));
    best
}

/// The width in pixels of each column of a table, from the longest text in it.
pub fn table_column_widths(aligns: &Vec<CellAlignment>, rows: &Vec<MdNode>) -> (r: Vec<u32>)
    requires
        texts_len(trees_of(rows@)) <= usize::MAX,
    ensures
        r.len() == column_count(aligns.len() as nat, trees_of(rows@)),
        forall|j: int|
            0 <= j < r.len() ==> r[j] == column_width(#[trigger] column_len(trees_of(rows@), j)),
{
    let count = table_column_count(aligns, rows);
    let mut widths: Vec<u32> = Vec::new();
    let mut j: usize = 0;
    while j < count
        invariant
            j <= count,
            count == column_count(aligns.len() as nat, trees_of(rows@)),
            texts_len(trees_of(rows@)) <= usize::MAX,
            widths.len() == j,
            forall|k: int|
                0 <= k < j ==> widths[k] == column_width(#[trigger] column_len(trees_of(rows@), k)),
        decreases count - j,
    {
        let len = table_column_len(rows, j);
        let l: u32 = if len < 6 {
            6
        } else if len > 40 {
            40
        } else {
            len as u32
        };
        let w: u32 = l * 7 + 48;
        let w: u32 = if w < 160 {
            160
        } else if w > 420 {
            420
        } else {
            w
        };
        widths.push(w);
        j = j + 1;
    }
    widths
}

/// The alignment of cell `col` of a row: the row's own where it has one for
/// that column, else the table's, else none.
pub fn column_alignment(
    row_aligns: &Vec<CellAlignment>,
    table_aligns: &Vec<CellAlignment>,
    col: usize,
) -> (r: CellAlignment)
    ensures
        col < row_aligns.len() ==> r == row_aligns[col as int],
        !(col < row_aligns.len()) && col < table_aligns.len() ==> r == table_aligns[col as int],
        !(col < row_aligns.len()) && !(col < table_aligns.len()) ==> r == CellAlignment::Unaligned,
{
    if col < row_aligns.len() {
        row_aligns[col]
    } else if col < table_aligns.len() {
        table_aligns[col]
    } else {
        CellAlignment::Unaligned
    }
}

} // verus!

verus! {

// ---------------------------------------------------------------------------
// The words of a text span
// ---------------------------------------------------------------------------
/// What a text span is drawn as: its words, one by one, and a break where a line ends.
#[derive(Debug)]
pub enum InlinePiece {
    LineBreak,
    /// A word, and whether it is drawn as an Obsidian tag.
    Word { text: String, tag: bool },
}

/// What a piece shows.
pub enum PieceView {
    LineBreak,
    Word(Seq<char>, bool),
}

pub open spec fn piece_view(p: InlinePiece) -> PieceView {
    match p {
        InlinePiece::LineBreak => PieceView::LineBreak,
        InlinePiece::Word { text, tag } => PieceView::Word(text@, tag),
    }
}

pub open spec fn pieces_view(ps: Seq<InlinePiece>) -> Seq<PieceView> {
    ps.map_values(|p: InlinePiece| piece_view(p))
}

/// A word is drawn as a tag where tags are on and it is `#` followed by something.
pub open spec fn is_tag_word(w: Seq<char>, tags: bool) -> bool {
    tags && w.len() > 1 && w[0] == '#'
}

/// The pieces of the words `ws`.
pub open spec fn word_pieces(ws: Seq<Seq<char>>, tags: bool) -> Seq<PieceView> {
    ws.map_values(|w: Seq<char>| PieceView::Word(w, is_tag_word(w, tags)))
}

/// The pieces of the first `n` lines: a break before each line but the first, then
/// its words.
pub open spec fn line_pieces(lines: Seq<Seq<char>>, tags: bool, n: int) -> Seq<PieceView>
    decreases n,
{
    if n <= 0 {
        Seq::empty()
    } else {
        let before = line_pieces(lines, tags, n - 1);
        let brk = if n - 1 > 0 { seq![PieceView::LineBreak] } else { Seq::<PieceView>::empty() };
        before + brk + word_pieces(crate::monitoring::words(lines[n - 1]), tags)
    }
}

/// The pieces a text span is drawn as: a lone line break is a break; any other text
/// is split into lines, and each line into its words.
pub open spec fn inline_pieces_of(text: Seq<char>, tags: bool) -> Seq<PieceView> {
    if text == seq!['\n'] {
        seq![PieceView::LineBreak]
    } else {
        let lines = crate::text::split_char(text, '\n');
        line_pieces(lines, tags, lines.len() as int)
    }
}

/// The pieces the text `text` of a span is drawn as, with Obsidian tags marked where
/// `config` turns them on.
pub fn inline_pieces(text: &str, config: MarkdownRenderConfig) -> (r: Vec<InlinePiece>)
    ensures
        pieces_view(r@) == inline_pieces_of(text@, config.enable_obsidian_tags),
{
    let tags = config.enable_obsidian_tags;
    let cs = crate::text::chars_of(text);
    let mut out: Vec<InlinePiece> = Vec::new();
    if cs.len() == 1 && cs[0] == '\n' {
        assert(text@ =~= seq!['\n']);
        out.push(InlinePiece::LineBreak);
        assert(pieces_view(out@) =~= seq![PieceView::LineBreak]);
        return out;
    }
    assert(text@ != seq!['\n']) by {
        if text@ == seq!['\n'] {
            assert(cs@.len() == 1 && cs@[0] == '\n');
        }
    }
    let lines = crate::text::split_chars(&cs, '\n');
    let ghost ls = crate::text::views(lines@);
    let mut n: usize = 0;
    while n < lines.len()
        invariant
            n <= lines.len(),
            ls == crate::text::views(lines@),
            pieces_view(out@) == line_pieces(ls, tags, n as int),
        decreases lines.len() - n,
    {
        let ghost start = pieces_view(out@);
        if n > 0 {
            out.push(InlinePiece::LineBreak);
        }
        let ghost mid = pieces_view(out@);
        assert(mid =~= start + if n > 0 { seq![PieceView::LineBreak] } else { Seq::<PieceView>::empty() });
        let ws = crate::monitoring::split_words(&lines[n]);
        assert(ls[n as int] == lines@[n as int]@);
        let mut k: usize = 0;
        while k < ws.len()
            invariant
                k <= ws.len(),
                crate::text::views(ws@) == crate::monitoring::words(ls[n as int]),
                pieces_view(out@) == mid + word_pieces(crate::text::views(ws@).take(k as int), tags),
            decreases ws.len() - k,
        {
            let w = &ws[k];
            let is_tag = tags && w.len() > 1 && w[0] == '#';
            let ghost before = pieces_view(out@);
            out.push(InlinePiece::Word { text: crate::text::string_of(w), tag: is_tag });
            proof {
                assert(crate::text::views(ws@)[k as int] == w@);
                assert(crate::text::views(ws@).take(k + 1) =~= crate::text::views(ws@).take(k as int).push(w@));
                assert(pieces_view(out@) =~= before.push(PieceView::Word(w@, is_tag_word(w@, tags))));
                assert(word_pieces(crate::text::views(ws@).take(k + 1), tags) =~= word_pieces(
                    crate::text::views(ws@).take(k as int),
                    tags,
                ).push(PieceView::Word(w@, is_tag_word(w@, tags))));
            }
            k = k + 1;
        }
        assert(crate::text::views(ws@).take(ws.len() as int) =~= crate::text::views(ws@));
        n = n + 1;
    }
    out
}

} // verus!

verus! {

// ---------------------------------------------------------------------------
// List rows
// ---------------------------------------------------------------------------
/// The mark before the item at position `index` of a list: its number and a dot for
/// an ordered list, a bullet otherwise.
pub fn list_prefix(ordered: bool, index: usize) -> (r: String)
    requires
        index < usize::MAX,
    ensures
        ordered ==> r@ == crate::text::decimal((index + 1) as nat) + ". "@,
        !ordered ==> r@ == "• "@,
{
    if ordered {
        let n: u64 = (index + 1) as u64;
        let mut v = crate::text::decimal_chars(n);
        crate::text::append_str(&mut v, ". ");
        crate::text::string_of(&v)
    } else {
        crate::text::string_from("• ")
    }
}

/// The box drawn before a task item: ticked where it is done; none for an item that
/// is not a task.
pub fn task_checkbox(is_task: bool, is_checked: bool) -> (r: Option<&'static str>)
    ensures
        !is_task ==> r is None,
        is_task && is_checked ==> (r matches Some(s) && s@ == "☑"@),
        is_task && !is_checked ==> (r matches Some(s) && s@ == "☐"@),
{
    if !is_task {
        None
    } else if is_checked {
        Some("☑")
    } else {
        Some("☐")
    }
}

} // verus!

verus! {

// ---------------------------------------------------------------------------
// Laws of reading
// ---------------------------------------------------------------------------
/// Only the end of an emphasis closes an emphasis level: after an event other than
/// `End(Emphasis)` at least as many levels are open as before, and a `Start(Emphasis)`
/// opens one.
proof fn lemma_emphasis_stays_open(st: ReadState, e: MdEvent)
    requires
        e != MdEvent::End(MdTagEnd::Emphasis),
    ensures
        read_step(st, e).emphasis >= st.emphasis,
        e == MdEvent::Start(MdTag::Emphasis) ==> read_step(st, e).emphasis > 0,
{
}

/// An emphasis opened at `i` is still open after `k` events, where none of the events
/// between ends an emphasis.
proof fn lemma_emphasis_open_until(events: Seq<MdEvent>, i: int, k: int)
    requires
        0 <= i < k <= events.len(),
        events[i] == MdEvent::Start(MdTag::Emphasis),
        forall|q: int| i < q < k ==> events[q] != MdEvent::End(MdTagEnd::Emphasis),
    ensures
        read_events(events, k as nat).emphasis > 0,
    decreases k - i,
{
    if k == i + 1 {
        lemma_emphasis_stays_open(read_events(events, i as nat), events[i]);
    } else {
        lemma_emphasis_open_until(events, i, k - 1);
        lemma_emphasis_stays_open(read_events(events, (k - 1) as nat), events[k - 1]);
    }
}

/// A strong element opened at `i` is still open after `k` events, where none of the
/// events between ends a strong element.
proof fn lemma_strong_open_until(events: Seq<MdEvent>, i: int, k: int)
    requires
        0 <= i < k <= events.len(),
        events[i] == MdEvent::Start(MdTag::Strong),
        forall|q: int| i < q < k ==> events[q] != MdEvent::End(MdTagEnd::Strong),
    ensures
        read_events(events, k as nat).strong > 0,
    decreases k - i,
{
    if k > i + 1 {
        lemma_strong_open_until(events, i, k - 1);
        let st = read_events(events, (k - 1) as nat);
        assert(read_step(st, events[k - 1]).strong >= st.strong);
    }
}

/// Emphasised text is shown in italics: a text read after the start of an emphasis
/// and before its end (outside a code block) is added to the innermost open element
/// with an italic style.
pub proof fn law_emphasised_text_is_italic(events: Seq<MdEvent>, i: int, j: int)
    requires
        0 <= i < j < events.len(),
        events[i] == MdEvent::Start(MdTag::Emphasis),
        forall|k: int| i < k < j ==> events[k] != MdEvent::End(MdTagEnd::Emphasis),
        events[j] is Text,
        !read_events(events, j as nat).in_code,
    ensures
        exists|s: InlineStyle|
            s.italic && read_events(events, (j + 1) as nat).stack == add_child(
                read_events(events, j as nat).stack,
                MdTree::Text(events[j]->Text_0@, s),
            ),
{
    lemma_emphasis_open_until(events, i, j);
    let st = read_events(events, j as nat);
    assert(read_events(events, (j + 1) as nat) == read_step(st, events[j]));
    let s = style_of(st);
    assert(s.italic);
}

/// Strong text is shown in bold: a text read after the start of a strong element
/// and before its end (outside a code block) is added with a bold style.
pub proof fn law_strong_text_is_bold(events: Seq<MdEvent>, i: int, j: int)
    requires
        0 <= i < j < events.len(),
        events[i] == MdEvent::Start(MdTag::Strong),
        forall|k: int| i < k < j ==> events[k] != MdEvent::End(MdTagEnd::Strong),
        events[j] is Text,
        !read_events(events, j as nat).in_code,
    ensures
        exists|s: InlineStyle|
            s.bold && read_events(events, (j + 1) as nat).stack == add_child(
                read_events(events, j as nat).stack,
                MdTree::Text(events[j]->Text_0@, s),
            ),
{
    lemma_strong_open_until(events, i, j);
    let st = read_events(events, j as nat);
    assert(read_events(events, (j + 1) as nat) == read_step(st, events[j]));
    let s = style_of(st);
    assert(s.bold);
}

/// A strikethrough opened at `i` is still open after `k` events, where none of the
/// events between ends a strikethrough.
proof fn lemma_strike_open_until(events: Seq<MdEvent>, i: int, k: int)
    requires
        0 <= i < k <= events.len(),
        events[i] == MdEvent::Start(MdTag::Strikethrough),
        forall|q: int| i < q < k ==> events[q] != MdEvent::End(MdTagEnd::Strikethrough),
    ensures
        read_events(events, k as nat).strike > 0,
    decreases k - i,
{
    if k > i + 1 {
        lemma_strike_open_until(events, i, k - 1);
        let st = read_events(events, (k - 1) as nat);
        assert(read_step(st, events[k - 1]).strike >= st.strike);
    }
}

/// Struck-through text is shown struck through: a text read after the start of a
/// strikethrough and before its end (outside a code block) is added with a
/// strikethrough style.
pub proof fn law_struck_text_is_struck_through(events: Seq<MdEvent>, i: int, j: int)
    requires
        0 <= i < j < events.len(),
        events[i] == MdEvent::Start(MdTag::Strikethrough),
        forall|k: int| i < k < j ==> events[k] != MdEvent::End(MdTagEnd::Strikethrough),
        events[j] is Text,
        !read_events(events, j as nat).in_code,
    ensures
        exists|s: InlineStyle|
            s.strikethrough && read_events(events, (j + 1) as nat).stack == add_child(
                read_events(events, j as nat).stack,
                MdTree::Text(events[j]->Text_0@, s),
            ),
{
    lemma_strike_open_until(events, i, j);
    let st = read_events(events, j as nat);
    assert(read_events(events, (j + 1) as nat) == read_step(st, events[j]));
    let s = style_of(st);
    assert(s.strikethrough);
}

} // verus!
