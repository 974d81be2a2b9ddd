use agentforge_ui::markdown::{
    column_alignment, node_text_len, parse_markdown, sanitize_markdown, table_column_count,
    table_column_widths, CellAlignment, InlineStyle, MarkdownRenderConfig, MdNode,
};

fn plain() -> InlineStyle {
    InlineStyle { bold: false, italic: false, strikethrough: false }
}

fn text(s: &str) -> MdNode {
    MdNode::Text(s.to_string(), plain())
}

fn cell(a: CellAlignment, s: &str) -> MdNode {
    MdNode::TableCell(a, vec![text(s)])
}

#[test]
fn sanitize_drops_carriage_returns_and_rewrites_arrows() {
    assert_eq!(sanitize_markdown("a\r\nb $\\rightarrow$ c \\Rightarrow d"), "a\nb → c ⇒ d");
    assert_eq!(sanitize_markdown("x $\\Rightarrow$ y \\rightarrow z"), "x ⇒ y → z");
}

#[test]
fn sanitize_joins_a_dollar_backslash_line_break() {
    assert_eq!(sanitize_markdown("x $\\\ny"), "x $\\y");
    assert_eq!(sanitize_markdown("nothing to do"), "nothing to do");
}

#[test]
fn default_config_leaves_obsidian_tags_off() {
    assert!(!MarkdownRenderConfig::default().enable_obsidian_tags);
}

#[test]
fn parse_reads_headings_and_bold_spans() {
    let nodes = parse_markdown("# Title\n\nHello **world**");
    assert_eq!(nodes.len(), 2);
    match &nodes[0] {
        MdNode::Heading(1, children) => {
            assert_eq!(children.len(), 1);
            assert!(matches!(&children[0], MdNode::Text(t, s) if t == "Title" && *s == plain()));
        }
        other => panic!("unexpected {:?}", other),
    }
    match &nodes[1] {
        MdNode::Paragraph(children) => {
            assert_eq!(children.len(), 2);
            assert!(matches!(&children[0], MdNode::Text(t, s) if t == "Hello " && !s.bold));
            assert!(matches!(&children[1], MdNode::Text(t, s) if t == "world" && s.bold && !s.italic));
        }
        other => panic!("unexpected {:?}", other),
    }
}

#[test]
fn parse_reads_task_lists() {
    let nodes = parse_markdown("- [x] done\n- [ ] todo");
    assert_eq!(nodes.len(), 1);
    match &nodes[0] {
        MdNode::List(false, items) => {
            assert_eq!(items.len(), 2);
            assert!(matches!(&items[0], MdNode::Item(true, true, c) if c.len() == 1));
            assert!(matches!(&items[1], MdNode::Item(true, false, c) if c.len() == 1));
        }
        other => panic!("unexpected {:?}", other),
    }
}

#[test]
fn parse_reads_numbered_lists_and_code_blocks() {
    let nodes = parse_markdown("1. one\n\n```rust\nfn main() {}\n```");
    assert_eq!(nodes.len(), 2);
    assert!(matches!(&nodes[0], MdNode::List(true, items) if items.len() == 1));
    assert!(matches!(&nodes[1], MdNode::CodeBlock(l, c) if l == "rust" && c == "fn main() {}\n"));
}

#[test]
fn parse_reads_inline_code_links_and_strikethrough() {
    let nodes = parse_markdown("`x` [site](https://a.test) ~~gone~~");
    match &nodes[0] {
        MdNode::Paragraph(children) => {
            assert!(matches!(&children[0], MdNode::CodeInline(c, _) if c == "x"));
            assert!(matches!(&children[2], MdNode::Link(u, c) if u == "https://a.test" && c.len() == 1));
            assert!(matches!(&children[4], MdNode::Text(t, s) if t == "gone" && s.strikethrough));
        }
        other => panic!("unexpected {:?}", other),
    }
}

#[test]
fn parse_reads_tables_with_their_alignments() {
    let nodes = parse_markdown("| a | bb |\n|:-|-:|\n| 1 | 2 |");
    assert_eq!(nodes.len(), 1);
    match &nodes[0] {
        MdNode::Table(aligns, rows) => {
            assert_eq!(aligns, &vec![CellAlignment::Left, CellAlignment::Right]);
            assert_eq!(rows.len(), 2);
            assert!(matches!(&rows[0], MdNode::TableRow(true, _, cells) if cells.len() == 2));
            match &rows[1] {
                MdNode::TableRow(false, _, cells) => {
                    assert!(matches!(&cells[1], MdNode::TableCell(CellAlignment::Right, _)));
                }
                other => panic!("unexpected {:?}", other),
            }
        }
        other => panic!("unexpected {:?}", other),
    }
}

#[test]
fn node_text_len_counts_trimmed_utf8_bytes() {
    assert_eq!(node_text_len(&text("  hi  ")), 2);
    let para = MdNode::Paragraph(vec![text(" é "), MdNode::CodeInline("ab".to_string(), plain())]);
    assert_eq!(node_text_len(&para), 4);
    assert_eq!(node_text_len(&MdNode::Rule), 0);
}

#[test]
fn table_columns_follow_the_widest_row() {
    let aligns = vec![CellAlignment::Left];
    let rows = vec![
        MdNode::TableRow(true, aligns.clone(), vec![cell(CellAlignment::Left, "a")]),
        MdNode::TableRow(false, aligns.clone(), vec![cell(CellAlignment::Left, "b"), cell(CellAlignment::Unaligned, "c")]),
    ];
    assert_eq!(table_column_count(&aligns, &rows), 2);
}

#[test]
fn table_column_widths_are_clamped() {
    let thirty = "x".repeat(30);
    let fifty = "y".repeat(50);
    let rows = vec![
        MdNode::TableRow(true, vec![], vec![cell(CellAlignment::Unaligned, "a"), cell(CellAlignment::Unaligned, &thirty), cell(CellAlignment::Unaligned, &fifty)]),
    ];
    // 6 bytes at least: 6 * 7 + 48 = 90, raised to 160; 30 * 7 + 48 = 258; 40 * 7 + 48 = 328.
    assert_eq!(table_column_widths(&vec![], &rows), vec![160, 258, 328]);
}

#[test]
fn column_alignment_prefers_the_row_then_the_table() {
    let row = vec![CellAlignment::Center];
    let table = vec![CellAlignment::Left, CellAlignment::Right];
    assert_eq!(column_alignment(&row, &table, 0), CellAlignment::Center);
    assert_eq!(column_alignment(&row, &table, 1), CellAlignment::Right);
    assert_eq!(column_alignment(&row, &table, 2), CellAlignment::Unaligned);
}
