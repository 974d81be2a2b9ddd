//! The knowledge base: filtering records, relating them for the graph, and preparing
//! their text for display.
use crate::text::{
    append_chars, append_str, chars_eq, chars_of, contains, contains_chars, find, find_from, find_spec,
    lemma_find_spec, occurs_at, slice_chars, string_of, take_chars, take_chars_exec, trim,
    trim_chars, utf8_len, utf8_len_at_most,
};
use vstd::prelude::*;

verus! {

#[derive(Clone, Copy, PartialEq, Eq, Debug, Structural)]
pub enum KnowledgeRecordKind {
    Document,
    Memory,
    Artifact,
}

/// Which records the knowledge panel lists.
#[derive(Clone, Copy, PartialEq, Eq, Debug, Structural)]
pub enum KnowledgeFilter {
    All,
    Documents,
    Memories,
    Artifacts,
}

/// A record of the knowledge base, as far as the panel reads it.
#[derive(Debug)]
pub struct KnowledgeItem {
    pub id: String,
    pub title: String,
    pub content: String,
    pub record_kind: KnowledgeRecordKind,
    pub origin_instance_id: Option<String>,
    /// The names of its tags.
    pub tags: Vec<String>,
    /// Where a document was read from in the vault, if it was.
    pub vault_path: Option<String>,
}

pub open spec fn opt_text(o: Option<String>) -> Option<Seq<char>> {
    match o {
        Some(s) => Some(s@),
        None => None,
    }
}

// ---------------------------------------------------------------------------
// Listing
// ---------------------------------------------------------------------------
/// Whether the filter `f` lists records of kind `k`.
pub open spec fn filter_admits(f: KnowledgeFilter, k: KnowledgeRecordKind) -> bool {
    match f {
        KnowledgeFilter::All => true,
        KnowledgeFilter::Documents => k == KnowledgeRecordKind::Document,
        KnowledgeFilter::Memories => k == KnowledgeRecordKind::Memory,
        KnowledgeFilter::Artifacts => k == KnowledgeRecordKind::Artifact,
    }
}

/// The kind filters split the records: `All` lists every record, and each record is
/// listed by exactly one of `Documents`, `Memories` and `Artifacts`, the one named
/// after its kind.
pub proof fn law_each_record_under_its_own_filter(k: KnowledgeRecordKind)
    ensures
        filter_admits(KnowledgeFilter::All, k),
        filter_admits(KnowledgeFilter::Documents, k) == (k == KnowledgeRecordKind::Document),
        filter_admits(KnowledgeFilter::Memories, k) == (k == KnowledgeRecordKind::Memory),
        filter_admits(KnowledgeFilter::Artifacts, k) == (k == KnowledgeRecordKind::Artifact),
        (filter_admits(KnowledgeFilter::Documents, k) as int) + (filter_admits(
            KnowledgeFilter::Memories,
            k,
        ) as int) + (filter_admits(KnowledgeFilter::Artifacts, k) as int) == 1,
{
}

pub fn filter_admits_exec(f: KnowledgeFilter, k: KnowledgeRecordKind) -> (r: bool)
    ensures
        r == filter_admits(f, k),
{
    match f {
        KnowledgeFilter::All => true,
        KnowledgeFilter::Documents => k == KnowledgeRecordKind::Document,
        KnowledgeFilter::Memories => k == KnowledgeRecordKind::Memory,
        KnowledgeFilter::Artifacts => k == KnowledgeRecordKind::Artifact,
    }
}

/// The positions of the records that the filter lists, in order.
pub open spec fn listed_positions(items: Seq<KnowledgeItem>, f: KnowledgeFilter, i: int) -> Seq<int>
    decreases items.len() - i,
{
    if i < 0 || i >= items.len() {
        Seq::<int>::empty()
    } else if filter_admits(f, items[i].record_kind) {
        seq![i] + listed_positions(items, f, i + 1)
    } else {
        listed_positions(items, f, i + 1)
    }
}

/// The positions of the records of `all_items` that the filter `f` lists, in order.
pub fn apply_filter(all_items: &Vec<KnowledgeItem>, f: KnowledgeFilter) -> (r: Vec<usize>)
    ensures
        r@.map_values(|p: usize| p as int) == listed_positions(all_items@, f, 0),
{
    let mut r: Vec<usize> = Vec::new();
    let mut i: usize = 0;
    while i < all_items.len()
        invariant
            i <= all_items.len(),
            r@.map_values(|p: usize| p as int) + listed_positions(all_items@, f, i as int)
                == listed_positions(all_items@, f, 0),
        decreases all_items.len() - i,
    {
        let ghost before = r@.map_values(|p: usize| p as int);
        if filter_admits_exec(f, all_items[i].record_kind) {
            r.push(i);
            assert(r@.map_values(|p: usize| p as int) =~= before.push(i as int));
            assert(before + (seq![i as int] + listed_positions(all_items@, f, i + 1)) =~= before.push(
                i as int,
            ) + listed_positions(all_items@, f, i + 1));
        }
        i = i + 1;
    }
    assert(r@.map_values(|p: usize| p as int) + Seq::<int>::empty() =~= r@.map_values(
        |p: usize| p as int,
    ));
    r
}

/// Records from the same instance as `item` (other than `item`), at most eight, from
/// position `i` on.
pub open spec fn same_instance_from(
    items: Seq<KnowledgeItem>,
    item: KnowledgeItem,
    instance: Seq<char>,
    i: int,
    room: nat,
) -> Seq<int>
    decreases items.len() - i,
{
    if i < 0 || i >= items.len() || room == 0 {
        Seq::<int>::empty()
    } else if items[i].id@ != item.id@ && opt_text(items[i].origin_instance_id) == Some(instance) {
        seq![i] + same_instance_from(items, item, instance, i + 1, (room - 1) as nat)
    } else {
        same_instance_from(items, item, instance, i + 1, room)
    }
}

/// The positions of the records related to `item` by their instance, in order.
pub open spec fn related_positions(items: Seq<KnowledgeItem>, item: KnowledgeItem) -> Seq<int> {
    match item.origin_instance_id {
        Some(instance) => same_instance_from(items, item, instance@, 0, 8),
        None => Seq::<int>::empty(),
    }
}

fn opt_text_eq(a: &Option<String>, b: &Vec<char>) -> (r: bool)
    ensures
        r == (opt_text(*a) == Some(b@)),
{
    match a {
        Some(s) => {
            let c = chars_of(s.as_str());
            chars_eq(&c, b)
        },
        None => false,
    }
}

/// The records (at most eight) that come from the same instance as `item`.
pub fn related_items_for_instance(item: &KnowledgeItem, all_items: &Vec<KnowledgeItem>) -> (r: Vec<
    usize,
>)
    ensures
        r@.map_values(|p: usize| p as int) == related_positions(all_items@, *item),
{
    let instance = match &item.origin_instance_id {
        Some(s) => chars_of(s.as_str()),
        None => {
            let none: Vec<usize> = Vec::new();
            assert(none@.map_values(|p: usize| p as int) =~= Seq::<int>::empty());
            return none;
        },
    };
    let id = chars_of(item.id.as_str());
    let mut r: Vec<usize> = Vec::new();
    let mut room: usize = 8;
    let mut i: usize = 0;
    while i < all_items.len() && room > 0
        invariant
            i <= all_items.len(),
            room <= 8,
            instance@ == item.origin_instance_id->0@,
            item.origin_instance_id is Some,
            id@ == item.id@,
            r@.map_values(|p: usize| p as int) + same_instance_from(
                all_items@,
                *item,
                instance@,
                i as int,
                room as nat,
            ) == related_positions(all_items@, *item),
        decreases all_items.len() - i,
    {
        let ghost before = r@.map_values(|p: usize| p as int);
        let cid = chars_of(all_items[i].id.as_str());
        if !chars_eq(&cid, &id) && opt_text_eq(&all_items[i].origin_instance_id, &instance) {
            r.push(i);
            room = room - 1;
            assert(r@.map_values(|p: usize| p as int) =~= before.push(i as int));
            assert(before + (seq![i as int] + same_instance_from(
                all_items@,
                *item,
                instance@,
                i + 1,
                room as nat,
            )) =~= before.push(i as int) + same_instance_from(
                all_items@,
                *item,
                instance@,
                i + 1,
                room as nat,
            ));
        }
        i = i + 1;
    }
    assert(r@.map_values(|p: usize| p as int) + Seq::<int>::empty() =~= r@.map_values(
        |p: usize| p as int,
    ));
    r
}

// ---------------------------------------------------------------------------
// Graph
// ---------------------------------------------------------------------------
/// Two records are linked in the graph when the first names the second in a wiki link,
/// or when both come from the same instance (one edge per pair, from the earlier record).
pub open spec fn related_for_graph(
    left_index: int,
    left: KnowledgeItem,
    right_index: int,
    right: KnowledgeItem,
) -> bool {
    left_index != right_index && (contains(left.content@, "[["@ + right.title@ + "]]"@) || (
    left_index < right_index && left.origin_instance_id is Some && opt_text(left.origin_instance_id)
        == opt_text(right.origin_instance_id)))
}

pub fn items_are_related_for_graph(
    left_index: usize,
    left: &KnowledgeItem,
    right_index: usize,
    right: &KnowledgeItem,
) -> (r: bool)
    ensures
        r == related_for_graph(left_index as int, *left, right_index as int, *right),
{
    if left_index == right_index {
        return false;
    }
    let mut link = chars_of("[[");
    append_str(&mut link, right.title.as_str());
    append_str(&mut link, "]]");
    let content = chars_of(left.content.as_str());
    if contains_chars(&content, &link) {
        return true;
    }
    if left_index < right_index {
        match (&left.origin_instance_id, &right.origin_instance_id) {
            (Some(l), Some(r)) => {
                let lc = chars_of(l.as_str());
                let rc = chars_of(r.as_str());
                chars_eq(&lc, &rc)
            },
            _ => false,
        }
    } else {
        false
    }
}

// ---------------------------------------------------------------------------
// Short identifiers
// ---------------------------------------------------------------------------
/// An identifier as the panel shows it: trimmed, and cut to eight characters when it
/// takes more than twelve bytes.
pub open spec fn short_id_of(value: Seq<char>) -> Seq<char> {
    let t = trim(value);
    if utf8_len(t) <= 12 {
        t
    } else {
        take_chars(t, 8)
    }
}

pub fn short_id(value: &str) -> (r: String)
    ensures
        r@ == short_id_of(value@),
{
    let v = chars_of(value);
    let t = trim_chars(&v);
    if utf8_len_at_most(&t, 12) {
        string_of(&t)
    } else {
        string_of(&take_chars_exec(&t, 8))
    }
}

// ---------------------------------------------------------------------------
// Tool-call blocks
// ---------------------------------------------------------------------------
pub open spec fn tool_open() -> Seq<char> {
    "<tool_call"@
}

pub open spec fn tool_close() -> Seq<char> {
    "</tool_call>"@
}

/// The text from position `i` on, without its `<tool_call ... </tool_call>` blocks; an
/// unclosed block runs to the end of the text.
pub open spec fn strip_tools_from(s: Seq<char>, i: int) -> Seq<char>
    decreases s.len() - i,
{
    if i < 0 || i > s.len() {
        Seq::<char>::empty()
    } else {
        match find_spec(s, tool_open(), i) {
            None => s.subrange(i, s.len() as int),
            Some(st) => s.subrange(i, st) + match find_spec(s, tool_close(), st) {
                None => Seq::<char>::empty(),
                Some(en) => {
                    proof {
                        lemma_find_spec(s, tool_open(), i);
                        lemma_find_spec(s, tool_close(), st);
                        reveal_strlit("</tool_call>");
                    }
                    strip_tools_from(s, en + tool_close().len())
                },
            },
        }
    }
}

/// The text without its tool-call blocks.
pub fn strip_tool_call_blocks(raw: &str) -> (r: String)
    ensures
        r@ == strip_tools_from(raw@, 0),
{
    let s = chars_of(raw);
    let open = chars_of("<tool_call");
    let close = chars_of("</tool_call>");
    proof {
        reveal_strlit("</tool_call>");
    }
    let mut out: Vec<char> = Vec::new();
    let mut i: usize = 0;
    loop
        invariant
            i <= s.len(),
            s@ == raw@,
            open@ == tool_open(),
            close@ == tool_close(),
            close@.len() == 12,
            out@ + strip_tools_from(s@, i as int) == strip_tools_from(s@, 0),
        decreases s.len() - i,
    {
        let ghost before = out@;
        match find_from(&s, &open, i) {
            None => {
                let rest = slice_chars(&s, i, s.len());
                append_chars(&mut out, &rest);
                assert(strip_tools_from(s@, i as int) == s@.subrange(i as int, s.len() as int));
                assert(out@ =~= before + strip_tools_from(s@, i as int));
                return string_of(&out);
            },
            Some(start) => {
                assert(occurs_at(s@, open@, start as int));
                let head = slice_chars(&s, i, start);
                append_chars(&mut out, &head);
                match find_from(&s, &close, start) {
                    None => {
                        assert(out@ =~= before + s@.subrange(i as int, start as int));
                        assert(strip_tools_from(s@, i as int) == s@.subrange(
                            i as int,
                            start as int,
                        ) + Seq::<char>::empty());
                        assert(out@ =~= before + strip_tools_from(s@, i as int));
                        return string_of(&out);
                    },
                    Some(end) => {
                        assert(occurs_at(s@, close@, end as int));
                        let next = end + close.len();
                        assert(strip_tools_from(s@, i as int) == s@.subrange(
                            i as int,
                            start as int,
                        ) + strip_tools_from(s@, next as int));
                        assert(out@ + strip_tools_from(s@, next as int) =~= before
                            + strip_tools_from(s@, i as int));
                        i = next;
                    },
                }
            },
        }
    }
}

// ---------------------------------------------------------------------------
// Obsidian markdown
// ---------------------------------------------------------------------------
/// The characters that `urlencoding::encode` leaves as they are.
pub open spec fn unreserved(c: char) -> bool {
    crate::text::is_ascii_alnum(c) || c == '-' || c == '.' || c == '_' || c == '~'
}

/// The upper-case hexadecimal digit of `d` (below 16).
pub open spec fn hex_digit(d: u32) -> char {
    if d < 10 {
        (('0' as u32) + d) as char
    } else {
        (('A' as u32) + d - 10) as char
    }
}

/// The UTF-8 bytes of `c`.
pub open spec fn utf8_bytes(c: char) -> Seq<u32> {
    let u = c as u32;
    if u < 0x80 {
        seq![u]
    } else if u < 0x800 {
        seq![(0xC0 + u / 64) as u32, (0x80 + u % 64) as u32]
    } else if u < 0x10000 {
        seq![(0xE0 + u / 4096) as u32, (0x80 + (u / 64) % 64) as u32, (0x80 + u % 64) as u32]
    } else {
        seq![
            (0xF0 + u / 262144) as u32,
            (0x80 + (u / 4096) % 64) as u32,
            (0x80 + (u / 64) % 64) as u32,
            (0x80 + u % 64) as u32,
        ]
    }
}

/// Each byte of `bs` as `%` and two upper-case hexadecimal digits.
pub open spec fn percent_bytes(bs: Seq<u32>) -> Seq<char>
    decreases bs.len(),
{
    if bs.len() == 0 {
        Seq::<char>::empty()
    } else {
        seq!['%', hex_digit(bs[0] / 16), hex_digit(bs[0] % 16)] + percent_bytes(bs.drop_first())
    }
}

/// Percent-encoding of a text, as `urlencoding::encode` does it: ASCII letters, digits
/// and `-`, `.`, `_`, `~` stay; every byte of the UTF-8 form of any other character
/// becomes `%` and two upper-case hexadecimal digits.
pub open spec fn url_encode(s: Seq<char>) -> Seq<char>
    decreases s.len(),
{
    if s.len() == 0 {
        Seq::<char>::empty()
    } else {
        let c = s[0];
        (if unreserved(c) {
            seq![c]
        } else {
            percent_bytes(utf8_bytes(c))
        }) + url_encode(s.drop_first())
    }
}

/// `urlencoding::encode`: percent-encodes every byte of the UTF-8 text except ASCII
/// letters, digits and `-`, `.`, `_`, `~` (urlencoding's `enc.rs`: kept bytes are pushed
/// as they are, every other byte as `%` and two upper-case hex digits).
#[verifier::external_body]
fn encode_component(s: &str) -> (r: String)
    ensures
        r@ == url_encode(s@),
{
    urlencoding::encode(s).into_owned()
}

pub open spec fn open_link() -> Seq<char> {
    seq!['[', '[']
}

pub open spec fn close_link() -> Seq<char> {
    seq![']', ']']
}

/// The markdown link made of the inside of a `[[target|label]]` wiki link.
pub open spec fn wiki_link_markup(inner: Seq<char>) -> Seq<char> {
    let (target, label) = match find(inner, seq!['|']) {
        Some(p) => (trim(inner.subrange(0, p)), trim(inner.subrange(p + 1, inner.len() as int))),
        None => (trim(inner), trim(inner)),
    };
    "["@ + label + "](obsidian://open?file="@ + url_encode(target) + ")"@
}

/// A line from position `i` on, with its `[[...]]` wiki links turned into markdown links.
pub open spec fn wikilinks_from(l: Seq<char>, i: int) -> Seq<char>
    decreases l.len() - i,
{
    if i < 0 || i > l.len() {
        Seq::<char>::empty()
    } else {
        match find_spec(l, open_link(), i) {
            None => l.subrange(i, l.len() as int),
            Some(a) => {
                proof {
                    lemma_find_spec(l, open_link(), i);
                }
                l.subrange(i, a) + match find_spec(l, close_link(), a + 2) {
                    Some(e) => {
                        proof {
                            lemma_find_spec(l, close_link(), a + 2);
                        }
                        wiki_link_markup(l.subrange(a + 2, e)) + wikilinks_from(l, e + 2)
                    },
                    None => open_link() + wikilinks_from(l, a + 2),
                }
            },
        }
    }
}

pub open spec fn tag_char(c: char) -> bool {
    crate::text::is_ascii_alnum(c) || c == '-' || c == '_'
}

/// The number of tag characters in a row from position `j`.
pub open spec fn tag_run(s: Seq<char>, j: int) -> nat
    decreases s.len() - j,
{
    if j < 0 || j >= s.len() || !tag_char(s[j]) {
        0
    } else {
        1 + tag_run(s, j + 1)
    }
}

/// A run of tag characters stays within the text.
pub proof fn lemma_tag_run_bound(s: Seq<char>, j: int)
    requires
        0 <= j <= s.len(),
    ensures
        j + tag_run(s, j) <= s.len(),
    decreases s.len() - j,
{
    if j < s.len() && tag_char(s[j]) {
        lemma_tag_run_bound(s, j + 1);
    }
}

/// A line from position `i` on, with each `#tag` that follows whitespace (or starts the
/// line) turned into a link; `prev_ws` tells whether the character before `i` was
/// whitespace.
pub open spec fn tags_from(s: Seq<char>, i: int, prev_ws: bool) -> Seq<char>
    decreases s.len() - i,
{
    if i < 0 || i >= s.len() {
        Seq::<char>::empty()
    } else if s[i] == '#' && prev_ws {
        let n = tag_run(s, i + 1);
        if n > 0 {
            proof {
                lemma_tag_run_bound(s, i + 1);
            }
            let tag = s.subrange(i + 1, i + 1 + n);
            "[#"@ + tag + "](agentforge://tag/"@ + url_encode(tag) + ")"@ + tags_from(
                s,
                i + 1 + n,
                false,
            )
        } else {
            seq!['#'] + tags_from(s, i + 1, false)
        }
    } else {
        seq![s[i]] + tags_from(s, i + 1, crate::text::is_space(s[i]))
    }
}

/// Lines from position `i` on, each followed by a newline; outside fenced code blocks
/// (which `in_code` tells for line `i`) wiki links and tags are turned into links.
pub open spec fn obsidian_lines(lines: Seq<Seq<char>>, i: int, in_code: bool) -> Seq<char>
    decreases lines.len() - i,
{
    if i < 0 || i >= lines.len() {
        Seq::<char>::empty()
    } else {
        let line = lines[i];
        if crate::text::starts_with(crate::text::trim_start(line), seq!['`', '`', '`']) {
            line + seq!['\n'] + obsidian_lines(lines, i + 1, !in_code)
        } else if in_code {
            line + seq!['\n'] + obsidian_lines(lines, i + 1, true)
        } else {
            tags_from(wikilinks_from(line, 0), 0, true) + seq!['\n'] + obsidian_lines(
                lines,
                i + 1,
                false,
            )
        }
    }
}

/// The digit character for `d` (below 10).
pub open spec fn digit_char(d: nat) -> char {
    (('0' as u32) + d) as char
}

/// The keycap emoji of digit `d` (`d`, U+FE0F, U+20E3).
pub open spec fn keycap(d: nat) -> Seq<char> {
    seq![digit_char(d), '\u{fe0f}', '\u{20e3}']
}

/// The text with the keycap emojis of the digits below `n` turned into `d.`.
pub open spec fn keycaps_below(s: Seq<char>, n: nat) -> Seq<char>
    decreases n,
{
    if n == 0 {
        s
    } else {
        crate::text::replace_all(
            keycaps_below(s, (n - 1) as nat),
            keycap((n - 1) as nat),
            seq![digit_char((n - 1) as nat), '.'],
        )
    }
}

/// Obsidian markdown as the knowledge viewer renders it.
pub open spec fn obsidian_markdown(input: Seq<char>) -> Seq<char> {
    let normalized = keycaps_below(input, 10);
    let lines = crate::text::split_char(
        crate::text::replace_all(normalized, seq!['\r'], Seq::<char>::empty()),
        '\n',
    );
    obsidian_lines(lines, 0, false)
}

fn wiki_link_markup_exec(inner: &Vec<char>) -> (r: Vec<char>)
    ensures
        r@ == wiki_link_markup(inner@),
{
    let bar = vec!['|'];
    let (target, label) = match find_from(inner, &bar, 0) {
        Some(p) => {
            assert(occurs_at(inner@, bar@, p as int));
            assert(p + 1 <= inner.len());
            let t = slice_chars(inner, 0, p);
            let l = slice_chars(inner, p + 1, inner.len());
            (trim_chars(&t), trim_chars(&l))
        },
        None => (trim_chars(inner), trim_chars(inner)),
    };
    assert(bar@ =~= seq!['|']);
    let target_text = string_of(&target);
    let encoded = encode_component(target_text.as_str());
    let mut r = chars_of("[");
    append_chars(&mut r, &label);
    append_str(&mut r, "](obsidian://open?file=");
    append_str(&mut r, encoded.as_str());
    append_str(&mut r, ")");
    r
}

fn wikilinks_exec(l: &Vec<char>) -> (r: Vec<char>)
    ensures
        r@ == wikilinks_from(l@, 0),
{
    let open = vec!['[', '['];
    let close = vec![']', ']'];
    assert(open@ =~= open_link());
    assert(close@ =~= close_link());
    let mut out: Vec<char> = Vec::new();
    let mut i: usize = 0;
    loop
        invariant
            i <= l.len(),
            open@ == open_link(),
            close@ == close_link(),
            out@ + wikilinks_from(l@, i as int) == wikilinks_from(l@, 0),
        decreases l.len() - i,
    {
        let ghost before = out@;
        match find_from(l, &open, i) {
            None => {
                let rest = slice_chars(l, i, l.len());
                append_chars(&mut out, &rest);
                assert(wikilinks_from(l@, i as int) == l@.subrange(i as int, l.len() as int));
                assert(out@ =~= before + wikilinks_from(l@, i as int));
                return out;
            },
            Some(a) => {
                assert(occurs_at(l@, open@, a as int));
                let head = slice_chars(l, i, a);
                append_chars(&mut out, &head);
                match find_from(l, &close, a + 2) {
                    Some(e) => {
                        assert(occurs_at(l@, close@, e as int));
                        let inner = slice_chars(l, a + 2, e);
                        let markup = wiki_link_markup_exec(&inner);
                        append_chars(&mut out, &markup);
                        assert(wikilinks_from(l@, i as int) == l@.subrange(i as int, a as int) + (
                        wiki_link_markup(l@.subrange(a + 2, e as int)) + wikilinks_from(
                            l@,
                            e + 2,
                        )));
                        assert(out@ + wikilinks_from(l@, e + 2) =~= before + wikilinks_from(
                            l@,
                            i as int,
                        ));
                        i = e + 2;
                    },
                    None => {
                        append_chars(&mut out, &open);
                        assert(wikilinks_from(l@, i as int) == l@.subrange(i as int, a as int) + (
                        open_link() + wikilinks_from(l@, a + 2)));
                        assert(out@ + wikilinks_from(l@, a + 2) =~= before + wikilinks_from(
                            l@,
                            i as int,
                        ));
                        i = a + 2;
                    },
                }
            },
        }
    }
}

fn tag_run_exec(s: &Vec<char>, j: usize) -> (n: usize)
    requires
        j <= s.len(),
    ensures
        n == tag_run(s@, j as int),
        j + n <= s.len(),
{
    let mut k: usize = j;
    while k < s.len() && (crate::text::char_is_ascii_alnum(s[k]) || s[k] == '-' || s[k] == '_')
        invariant
            j <= k <= s.len(),
            tag_run(s@, j as int) == (k - j) + tag_run(s@, k as int),
        decreases s.len() - k,
    {
        k = k + 1;
    }
    k - j
}

fn tags_exec(s: &Vec<char>) -> (r: Vec<char>)
    ensures
        r@ == tags_from(s@, 0, true),
{
    let mut out: Vec<char> = Vec::new();
    let mut prev_ws = true;
    let mut i: usize = 0;
    while i < s.len()
        invariant
            i <= s.len(),
            out@ + tags_from(s@, i as int, prev_ws) == tags_from(s@, 0, true),
        decreases s.len() - i,
    {
        let ghost before = out@;
        let ghost old_prev = prev_ws;
        let c = s[i];
        if c == '#' && prev_ws {
            let n = tag_run_exec(s, i + 1);
            if n > 0 {
                let tag = slice_chars(s, i + 1, i + 1 + n);
                let tag_text = string_of(&tag);
                let encoded = encode_component(tag_text.as_str());
                append_str(&mut out, "[#");
                append_chars(&mut out, &tag);
                append_str(&mut out, "](agentforge://tag/");
                append_str(&mut out, encoded.as_str());
                append_str(&mut out, ")");
                prev_ws = false;
                assert(out@ + tags_from(s@, i + 1 + n, false) =~= before + tags_from(
                    s@,
                    i as int,
                    old_prev,
                ));
                i = i + 1 + n;
            } else {
                out.push('#');
                prev_ws = false;
                assert(out@ + tags_from(s@, i + 1, false) =~= before + tags_from(
                    s@,
                    i as int,
                    old_prev,
                ));
                i = i + 1;
            }
        } else {
            out.push(c);
            prev_ws = crate::text::char_is_space(c);
            assert(out@ + tags_from(s@, i + 1, prev_ws) =~= before + tags_from(
                s@,
                i as int,
                old_prev,
            ));
            i = i + 1;
        }
    }
    assert(out@ + Seq::<char>::empty() =~= out@);
    out
}

/// Turns Obsidian markdown into the markdown that the viewer renders: keycap digits
/// become `1.`, carriage returns go, and outside fenced code blocks `[[target|label]]`
/// wiki links and `#tags` become links.
pub fn preprocess_obsidian_markdown(input: &str) -> (r: String)
    ensures
        r@ == obsidian_markdown(input@),
{
    let mut s = chars_of(input);
    let mut d: u32 = 0;
    while d < 10
        invariant
            d <= 10,
            s@ == keycaps_below(input@, d as nat),
        decreases 10 - d,
    {
        let digit: char = (('0' as u8) + (d as u8)) as char;
        assert(digit == digit_char(d as nat));
        let pat = vec![digit, '\u{fe0f}', '\u{20e3}'];
        let rep = vec![digit, '.'];
        assert(pat@ =~= keycap(d as nat));
        assert(rep@ =~= seq![digit_char(d as nat), '.']);
        s = crate::text::replace_chars(&s, &pat, &rep);
        d = d + 1;
    }
    let cr = vec!['\r'];
    let nothing: Vec<char> = Vec::new();
    assert(cr@ =~= seq!['\r']);
    assert(nothing@ =~= Seq::<char>::empty());
    let no_cr = crate::text::replace_chars(&s, &cr, &nothing);
    let lines = crate::text::split_chars(&no_cr, '\n');
    let ghost lv = crate::text::views(lines@);
    let fence = vec!['`', '`', '`'];
    assert(fence@ =~= seq!['`', '`', '`']);
    let mut out: Vec<char> = Vec::new();
    let mut in_code = false;
    let mut i: usize = 0;
    while i < lines.len()
        invariant
            i <= lines.len(),
            lv == crate::text::views(lines@),
            lv.len() == lines@.len(),
            fence@ == seq!['`', '`', '`'],
            out@ + obsidian_lines(lv, i as int, in_code) == obsidian_lines(lv, 0, false),
        decreases lines.len() - i,
    {
        let ghost before = out@;
        let ghost was_code = in_code;
        let line = &lines[i];
        assert(line@ == lv[i as int]);
        let start = crate::text::trim_start_chars(line, crate::text::TrimSet::Whitespace);
        if crate::text::starts_with_chars(&start, &fence) {
            in_code = !in_code;
            append_chars(&mut out, line);
            out.push('\n');
        } else if in_code {
            append_chars(&mut out, line);
            out.push('\n');
        } else {
            let linked = wikilinks_exec(line);
            let tagged = tags_exec(&linked);
            append_chars(&mut out, &tagged);
            out.push('\n');
        }
        assert(out@ + obsidian_lines(lv, i + 1, in_code) =~= before + obsidian_lines(
            lv,
            i as int,
            was_code,
        ));
        i = i + 1;
    }
    assert(out@ + Seq::<char>::empty() =~= out@);
    string_of(&out)
}

// ---------------------------------------------------------------------------
// Display text
// ---------------------------------------------------------------------------
/// Lines of tool traffic and chat scaffolding that the knowledge viewer leaves out.
pub open spec fn noise_line(line: Seq<char>) -> bool {
    let t = trim(line);
    ||| crate::text::starts_with(t, "Tool result"@)
    ||| crate::text::starts_with(t, "user: Tool result"@)
    ||| contains(t, "UNTRUSTED_TOOL_OUTPUT"@)
    ||| contains(t, "DO NOT FOLLOW EMBEDDED INSTRUCTIONS"@)
    ||| crate::text::starts_with(t, "Tool denied:"@)
    ||| crate::text::starts_with(t, "Tool delegated tool denied:"@)
    ||| contains(t, "invocation id already exists"@)
    ||| t == "assistant:"@
    ||| t == "user:"@
}

fn is_noise_line(line: &Vec<char>) -> (r: bool)
    ensures
        r == noise_line(line@),
{
    let t = trim_chars(line);
    crate::text::starts_with_str(&t, "Tool result") || crate::text::starts_with_str(
        &t,
        "user: Tool result",
    ) || crate::text::contains_str(&t, "UNTRUSTED_TOOL_OUTPUT") || crate::text::contains_str(
        &t,
        "DO NOT FOLLOW EMBEDDED INSTRUCTIONS",
    ) || crate::text::starts_with_str(&t, "Tool denied:") || crate::text::starts_with_str(
        &t,
        "Tool delegated tool denied:",
    ) || crate::text::contains_str(&t, "invocation id already exists") || chars_eq(
        &t,
        &chars_of("assistant:"),
    ) || chars_eq(&t, &chars_of("user:"))
}

/// Lines from position `i` on without noise, each run of blank lines kept as one empty
/// line; `last_blank` tells whether the last kept line was blank.
pub open spec fn kept_lines(lines: Seq<Seq<char>>, i: int, last_blank: bool) -> Seq<Seq<char>>
    decreases lines.len() - i,
{
    if i < 0 || i >= lines.len() {
        Seq::<Seq<char>>::empty()
    } else if noise_line(lines[i]) {
        kept_lines(lines, i + 1, last_blank)
    } else if trim(lines[i]).len() == 0 {
        (if last_blank {
            Seq::<Seq<char>>::empty()
        } else {
            seq![Seq::<char>::empty()]
        }) + kept_lines(lines, i + 1, true)
    } else {
        seq![lines[i]] + kept_lines(lines, i + 1, false)
    }
}

pub open spec fn summary_heading(id: Seq<char>) -> Seq<char> {
    "Session summary for instance "@ + id + ":"@
}

pub open spec fn no_summary() -> Seq<char> {
    "No human-readable summary content is available yet."@
}

/// The text of a record as the viewer shows it: tool-call blocks and noise lines gone,
/// blank runs collapsed, the instance named instead of its id, trimmed.
pub open spec fn display_text(content: Seq<char>, instance: Option<(Seq<char>, Seq<char>)>) -> Seq<
    char,
> {
    let stripped = strip_tools_from(content, 0);
    let named = match instance {
        Some((id, name)) => crate::text::replace_all(
            stripped,
            summary_heading(id),
            summary_heading(name),
        ),
        None => stripped,
    };
    let lines = crate::text::lines_of(
        crate::text::replace_all(named, seq!['\r'], Seq::<char>::empty()),
    );
    let display = trim(crate::text::join(kept_lines(lines, 0, false), seq!['\n']));
    if display.len() == 0 {
        no_summary()
    } else {
        display
    }
}

/// The list of related records appended under the display text, from title `i` on.
pub open spec fn related_list(titles: Seq<Seq<char>>, i: int) -> Seq<char>
    decreases titles.len() - i,
{
    if i < 0 || i >= titles.len() || i >= 6 {
        Seq::<char>::empty()
    } else {
        "- [["@ + titles[i] + "]]\n"@ + related_list(titles, i + 1)
    }
}

/// The display text followed by a "Related Knowledge" section naming (up to six of) the
/// related records, unless there are none or the text already has a related section.
pub open spec fn display_with_related(display: Seq<char>, titles: Seq<Seq<char>>) -> Seq<char> {
    if titles.len() > 0 && !contains(display, "## Related"@) {
        display + "\n\n## Related Knowledge\n"@ + related_list(titles, 0)
    } else {
        display
    }
}

fn lines_exec(s: &Vec<char>) -> (r: Vec<Vec<char>>)
    ensures
        crate::text::views(r@) == crate::text::lines_of(s@),
{
    let mut pieces = crate::text::split_chars(s, '\n');
    let ghost p = crate::text::views(pieces@);
    let last = pieces.len() - 1;
    if pieces[last].len() == 0 {
        pieces.pop();
        assert(crate::text::views(pieces@) =~= p.drop_last());
    }
    pieces
}

/// The text of a knowledge record as the viewer shows it. `instance` gives the id of the
/// instance the record comes from and the name to show for it.
pub fn clean_knowledge_content(content: &str, instance: &Option<(String, String)>) -> (r: String)
    ensures
        r@ == display_text(
            content@,
            match instance {
                Some(p) => Some((p.0@, p.1@)),
                None => None,
            },
        ),
{
    let stripped = strip_tool_call_blocks(content);
    let mut text = chars_of(stripped.as_str());
    match instance {
        Some((id, name)) => {
            let mut from = chars_of("Session summary for instance ");
            append_str(&mut from, id.as_str());
            append_str(&mut from, ":");
            let mut to = chars_of("Session summary for instance ");
            append_str(&mut to, name.as_str());
            append_str(&mut to, ":");
            text = crate::text::replace_chars(&text, &from, &to);
        },
        None => {},
    }
    let cr = vec!['\r'];
    let nothing: Vec<char> = Vec::new();
    assert(cr@ =~= seq!['\r']);
    assert(nothing@ =~= Seq::<char>::empty());
    let no_cr = crate::text::replace_chars(&text, &cr, &nothing);
    let lines = lines_exec(&no_cr);
    let ghost lv = crate::text::views(lines@);
    let mut kept: Vec<Vec<char>> = Vec::new();
    let mut last_blank = false;
    let mut i: usize = 0;
    while i < lines.len()
        invariant
            i <= lines.len(),
            lv == crate::text::views(lines@),
            lv.len() == lines@.len(),
            crate::text::views(kept@) + kept_lines(lv, i as int, last_blank) == kept_lines(
                lv,
                0,
                false,
            ),
        decreases lines.len() - i,
    {
        let ghost before = crate::text::views(kept@);
        let ghost was_blank = last_blank;
        let line = &lines[i];
        assert(line@ == lv[i as int]);
        if is_noise_line(line) {
        } else {
            let t = trim_chars(line);
            if t.len() == 0 {
                if !last_blank {
                    kept.push(Vec::new());
                    assert(crate::text::views(kept@) =~= before + seq![Seq::<char>::empty()]);
                } else {
                    assert(crate::text::views(kept@) =~= before + Seq::<Seq<char>>::empty());
                }
                last_blank = true;
            } else {
                kept.push(line.clone());
                assert(crate::text::views(kept@) =~= before + seq![line@]);
                last_blank = false;
            }
        }
        assert(crate::text::views(kept@) + kept_lines(lv, i + 1, last_blank) =~= before
            + kept_lines(lv, i as int, was_blank));
        i = i + 1;
    }
    assert(crate::text::views(kept@) + Seq::<Seq<char>>::empty() =~= crate::text::views(kept@));
    let nl = vec!['\n'];
    assert(nl@ =~= seq!['\n']);
    let joined = crate::text::join_chars(&kept, &nl);
    let display = trim_chars(&joined);
    if display.len() == 0 {
        crate::text::string_from("No human-readable summary content is available yet.")
    } else {
        string_of(&display)
    }
}

/// Appends to a display text the "Related Knowledge" section that names the related
/// records by their titles.
pub fn append_related_knowledge(display: &str, titles: &Vec<String>) -> (r: String)
    ensures
        r@ == display_with_related(display@, titles@.map_values(|t: String| t@)),
{
    let ghost tv = titles@.map_values(|t: String| t@);
    let d = chars_of(display);
    if titles.len() == 0 || crate::text::contains_str(&d, "## Related") {
        return string_of(&d);
    }
    let mut out = d.clone();
    append_str(&mut out, "\n\n## Related Knowledge\n");
    let ghost head = out@;
    let mut i: usize = 0;
    while i < titles.len() && i < 6
        invariant
            i <= titles.len(),
            i <= 6,
            tv == titles@.map_values(|t: String| t@),
            out@ + related_list(tv, i as int) == head + related_list(tv, 0),
        decreases titles.len() - i,
    {
        let ghost before = out@;
        append_str(&mut out, "- [[");
        append_str(&mut out, titles[i].as_str());
        append_str(&mut out, "]]\n");
        assert(tv[i as int] == titles@[i as int]@);
        assert(out@ + related_list(tv, i + 1) =~= before + related_list(tv, i as int));
        i = i + 1;
    }
    assert(related_list(tv, i as int) == Seq::<char>::empty());
    assert(out@ =~= out@ + related_list(tv, i as int));
    string_of(&out)
}

} // verus!

verus! {

// ---------------------------------------------------------------------------
// The analytics view and the graph
// ---------------------------------------------------------------------------
/// How many of `items` are of the kind `k`.
pub open spec fn kind_count(items: Seq<KnowledgeItem>, k: KnowledgeRecordKind) -> nat
    decreases items.len(),
{
    if items.len() == 0 {
        0
    } else {
        kind_count(items.drop_last(), k) + if items.last().record_kind == k {
            1nat
        } else {
            0nat
        }
    }
}

/// How many records are of the kind `k`.
pub fn count_kind(items: &Vec<KnowledgeItem>, k: KnowledgeRecordKind) -> (r: usize)
    ensures
        r == kind_count(items@, k),
{
    let mut n: usize = 0;
    let mut i: usize = 0;
    while i < items.len()
        invariant
            i <= items.len(),
            n == kind_count(items@.take(i as int), k),
            n <= i,
        decreases items.len() - i,
    {
        assert(items@.take(i + 1).drop_last() =~= items@.take(i as int));
        if items[i].record_kind == k {
            n = n + 1;
        }
        i = i + 1;
    }
    assert(items@.take(items.len() as int) =~= items@);
    n
}

/// The tags of the records, one after another.
pub open spec fn all_tags(items: Seq<KnowledgeItem>) -> Seq<Seq<char>>
    decreases items.len(),
{
    if items.len() == 0 {
        Seq::<Seq<char>>::empty()
    } else {
        all_tags(items.drop_last()) + crate::orchestration::texts(items.last().tags@)
    }
}

/// The number of distinct tags over the records.
pub fn distinct_tag_count(items: &Vec<KnowledgeItem>) -> (r: usize)
    ensures
        exists|t: Seq<(String, usize)>|
            #![trigger crate::orchestration::tallies(all_tags(items@), t)]
            crate::orchestration::tallies(all_tags(items@), t) && r == t.len(),
{
    let mut tags: Vec<String> = Vec::new();
    let mut i: usize = 0;
    while i < items.len()
        invariant
            i <= items.len(),
            crate::orchestration::texts(tags@) == all_tags(items@.take(i as int)),
        decreases items.len() - i,
    {
        assert(items@.take(i + 1).drop_last() =~= items@.take(i as int));
        let ghost base = tags@;
        let t = &items[i].tags;
        let mut j: usize = 0;
        while j < t.len()
            invariant
                j <= t.len(),
                i < items.len(),
                t == &items@[i as int].tags,
                crate::orchestration::texts(tags@) == crate::orchestration::texts(base)
                    + crate::orchestration::texts(t@).take(j as int),
            decreases t.len() - j,
        {
            let ghost before = tags@;
            let x = t[j].clone();
            tags.push(x);
            proof {
                crate::orchestration::lemma_texts_push(before, x);
                assert(crate::orchestration::texts(t@).take(j + 1) =~= crate::orchestration::texts(
                    t@,
                ).take(j as int).push(t@[j as int]@));
            }
            assert(crate::orchestration::texts(tags@) =~= crate::orchestration::texts(base)
                + crate::orchestration::texts(t@).take(j + 1));
            j = j + 1;
        }
        assert(crate::orchestration::texts(t@).take(t.len() as int) =~= crate::orchestration::texts(
            t@,
        ));
        i = i + 1;
    }
    assert(items@.take(items.len() as int) =~= items@);
    let tally = crate::orchestration::count_labels(&tags);
    tally.len()
}

/// The record `other` is linked from the content of `item`: they differ by id and
/// the content holds `[[`, the other's title and `]]`.
pub open spec fn links_to(item: KnowledgeItem, other: KnowledgeItem) -> bool {
    item.id@ != other.id@ && contains(item.content@, "[["@ + other.title@ + "]]"@)
}

/// The number of records that `item` links to among `items`.
pub open spec fn links_from_item(item: KnowledgeItem, items: Seq<KnowledgeItem>) -> nat
    decreases items.len(),
{
    if items.len() == 0 {
        0
    } else {
        links_from_item(item, items.drop_last()) + if links_to(item, items.last()) {
            1nat
        } else {
            0nat
        }
    }
}

/// The number of links over the first `m` records.
pub open spec fn link_total(items: Seq<KnowledgeItem>, m: int) -> nat
    decreases m,
{
    if m <= 0 {
        0
    } else {
        link_total(items, m - 1) + links_from_item(items[m - 1], items)
    }
}

proof fn lemma_links_from_item_bound(item: KnowledgeItem, items: Seq<KnowledgeItem>)
    ensures
        links_from_item(item, items) <= items.len(),
    decreases items.len(),
{
    if items.len() > 0 {
        lemma_links_from_item_bound(item, items.drop_last());
    }
}

proof fn lemma_link_total_bound(items: Seq<KnowledgeItem>, m: int)
    requires
        0 <= m <= items.len(),
    ensures
        link_total(items, m) <= m * items.len(),
    decreases m,
{
    if m > 0 {
        lemma_link_total_bound(items, m - 1);
        lemma_links_from_item_bound(items[m - 1], items);
        assert((m - 1) * items.len() + items.len() == m * items.len()) by (nonlinear_arith);
    }
}

fn item_links_to(item: &KnowledgeItem, other: &KnowledgeItem) -> (r: bool)
    ensures
        r == links_to(*item, *other),
{
    if crate::text::str_eq(item.id.as_str(), other.id.as_str()) {
        return false;
    }
    let mut link = chars_of("[[");
    append_str(&mut link, other.title.as_str());
    append_str(&mut link, "]]");
    contains_chars(&chars_of(item.content.as_str()), &link)
}

/// The number of wiki links between records, summed over the records.
pub fn connection_count(items: &Vec<KnowledgeItem>) -> (r: usize)
    requires
        items.len() * items.len() <= usize::MAX,
    ensures
        r == link_total(items@, items.len() as int),
{
    let mut total: usize = 0;
    let mut i: usize = 0;
    while i < items.len()
        invariant
            i <= items.len(),
            items.len() * items.len() <= usize::MAX,
            total == link_total(items@, i as int),
        decreases items.len() - i,
    {
        let mut n: usize = 0;
        let mut j: usize = 0;
        while j < items.len()
            invariant
                i < items.len(),
                j <= items.len(),
                n == links_from_item(items@[i as int], items@.take(j as int)),
                n <= j,
            decreases items.len() - j,
        {
            assert(items@.take(j + 1).drop_last() =~= items@.take(j as int));
            if item_links_to(&items[i], &items[j]) {
                n = n + 1;
            }
            j = j + 1;
        }
        assert(items@.take(items.len() as int) =~= items@);
        proof {
            lemma_link_total_bound(items@, i + 1);
            assert((i + 1) * items.len() <= items.len() * items.len()) by (nonlinear_arith)
                requires
                    i + 1 <= items.len(),
            ;
        }
        total = total + n;
        i = i + 1;
    }
    total
}

/// The edges of the knowledge graph over the first `m` records: every ordered pair
/// of related records, row by row.
pub open spec fn graph_edges_upto(items: Seq<KnowledgeItem>, m: int, k: int) -> Seq<(usize, usize)>
    decreases m, k,
{
    if m <= 0 {
        Seq::<(usize, usize)>::empty()
    } else if k <= 0 {
        graph_edges_upto(items, m - 1, items.len() as int)
    } else {
        let prev = graph_edges_upto(items, m, k - 1);
        if related_for_graph(m - 1, items[m - 1], k - 1, items[k - 1]) {
            prev.push(((m - 1) as usize, (k - 1) as usize))
        } else {
            prev
        }
    }
}

/// The edges of the knowledge graph: each ordered pair of related records.
pub fn graph_edges(items: &Vec<KnowledgeItem>) -> (r: Vec<(usize, usize)>)
    ensures
        r@ == graph_edges_upto(items@, items.len() as int, items.len() as int),
{
    let mut r: Vec<(usize, usize)> = Vec::new();
    let mut i: usize = 0;
    while i < items.len()
        invariant
            i <= items.len(),
            r@ == graph_edges_upto(items@, i as int, items.len() as int),
        decreases items.len() - i,
    {
        let mut j: usize = 0;
        assert(graph_edges_upto(items@, i + 1, 0) == graph_edges_upto(
            items@,
            i as int,
            items.len() as int,
        ));
        while j < items.len()
            invariant
                i < items.len(),
                j <= items.len(),
                r@ == graph_edges_upto(items@, i + 1, j as int),
            decreases items.len() - j,
        {
            if items_are_related_for_graph(i, &items[i], j, &items[j]) {
                r.push((i, j));
            }
            j = j + 1;
        }
        i = i + 1;
    }
    r
}

/// The name shown for an instance: the name of the first instance with the id, where
/// it is not blank, else the id.
pub open spec fn instance_name_of(instances: Seq<(String, String)>, id: Seq<char>, i: int) -> Seq<char>
    decreases instances.len() - i,
{
    if i < 0 || i >= instances.len() {
        id
    } else if instances[i].0@ == id {
        if trim(instances[i].1@).len() > 0 {
            instances[i].1@
        } else {
            id
        }
    } else {
        instance_name_of(instances, id, i + 1)
    }
}

/// The name shown for an instance, given the ids and names of the instances.
pub fn instance_display_name(instances: &Vec<(String, String)>, id: &str) -> (r: String)
    ensures
        r@ == instance_name_of(instances@, id@, 0),
{
    let want = chars_of(id);
    let mut i: usize = 0;
    while i < instances.len()
        invariant
            i <= instances.len(),
            want@ == id@,
            instance_name_of(instances@, id@, 0) == instance_name_of(instances@, id@, i as int),
        decreases instances.len() - i,
    {
        if chars_eq(&chars_of(instances[i].0.as_str()), &want) {
            if trim_chars(&chars_of(instances[i].1.as_str())).len() > 0 {
                return instances[i].1.clone();
            } else {
                return crate::text::string_from(id);
            }
        }
        i = i + 1;
    }
    crate::text::string_from(id)
}

/// The name shown for an agent: its name where it is found and not blank, else its
/// short id.
pub fn agent_display_name(name: Option<&str>, agent_id: &str) -> (r: String)
    ensures
        match name {
            Some(n) => if trim(n@).len() > 0 {
                r@ == n@
            } else {
                r@ == short_id_of(agent_id@)
            },
            None => r@ == short_id_of(agent_id@),
        },
{
    match name {
        Some(n) => if trim_chars(&chars_of(n)).len() > 0 {
            crate::text::string_from(n)
        } else {
            short_id(agent_id)
        },
        None => short_id(agent_id),
    }
}

} // verus!
