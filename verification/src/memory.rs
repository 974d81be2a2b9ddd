//! The memory bank map: its districts, the memories shown in them, and what a click or
//! an edit selects.
use crate::text::{chars_of, contains, lower, lower_chars, string_of, trim};
use vstd::prelude::*;

verus! {

// ---------------------------------------------------------------------------
// Categories and districts
// ---------------------------------------------------------------------------
/// The kind of a memory, and the district of the map that holds it.
#[derive(Clone, Copy, PartialEq, Eq, Debug, Structural)]
pub enum MemoryBankCategory {
    ProjectBrief,
    SystemArchitecture,
    ActiveContext,
    Progress,
    LessonsLearned,
    DecisionLog,
}

pub open spec fn short_name_of(c: MemoryBankCategory) -> Seq<char> {
    match c {
        MemoryBankCategory::ProjectBrief => "Project Brief"@,
        MemoryBankCategory::SystemArchitecture => "Architecture"@,
        MemoryBankCategory::ActiveContext => "Context"@,
        MemoryBankCategory::Progress => "Progress"@,
        MemoryBankCategory::LessonsLearned => "Lessons"@,
        MemoryBankCategory::DecisionLog => "Decisions"@,
    }
}

/// The short name shown for a category.
pub fn category_short_name(category: MemoryBankCategory) -> (r: &'static str)
    ensures
        r@ == short_name_of(category),
{
    match category {
        MemoryBankCategory::ProjectBrief => "Project Brief",
        MemoryBankCategory::SystemArchitecture => "Architecture",
        MemoryBankCategory::ActiveContext => "Context",
        MemoryBankCategory::Progress => "Progress",
        MemoryBankCategory::LessonsLearned => "Lessons",
        MemoryBankCategory::DecisionLog => "Decisions",
    }
}

/// The position of a category's district on the map.
pub open spec fn district_of(c: MemoryBankCategory) -> nat {
    match c {
        MemoryBankCategory::SystemArchitecture => 0,
        MemoryBankCategory::ProjectBrief => 1,
        MemoryBankCategory::ActiveContext => 2,
        MemoryBankCategory::Progress => 3,
        MemoryBankCategory::LessonsLearned => 4,
        MemoryBankCategory::DecisionLog => 5,
    }
}

/// The category of the district at a position of the map.
pub open spec fn district_category(i: nat) -> MemoryBankCategory {
    if i == 0 {
        MemoryBankCategory::SystemArchitecture
    } else if i == 1 {
        MemoryBankCategory::ProjectBrief
    } else if i == 2 {
        MemoryBankCategory::ActiveContext
    } else if i == 3 {
        MemoryBankCategory::Progress
    } else if i == 4 {
        MemoryBankCategory::LessonsLearned
    } else {
        MemoryBankCategory::DecisionLog
    }
}

/// The number of districts on the map.
pub const DISTRICT_COUNT: usize = 6;

/// The position of a category's district on the map.
pub fn district_index(category: MemoryBankCategory) -> (r: usize)
    ensures
        r == district_of(category),
        r < DISTRICT_COUNT,
        district_category(r as nat) == category,
{
    match category {
        MemoryBankCategory::SystemArchitecture => 0,
        MemoryBankCategory::ProjectBrief => 1,
        MemoryBankCategory::ActiveContext => 2,
        MemoryBankCategory::Progress => 3,
        MemoryBankCategory::LessonsLearned => 4,
        MemoryBankCategory::DecisionLog => 5,
    }
}

/// The category of the district at position `i` of the map.
pub fn category_of_district(i: usize) -> (r: MemoryBankCategory)
    requires
        i < DISTRICT_COUNT,
    ensures
        r == district_category(i as nat),
        district_of(r) == i,
{
    if i == 0 {
        MemoryBankCategory::SystemArchitecture
    } else if i == 1 {
        MemoryBankCategory::ProjectBrief
    } else if i == 2 {
        MemoryBankCategory::ActiveContext
    } else if i == 3 {
        MemoryBankCategory::Progress
    } else if i == 4 {
        MemoryBankCategory::LessonsLearned
    } else {
        MemoryBankCategory::DecisionLog
    }
}

/// The district picked by a click: the last one, in the order of the map, that holds
/// the point (`hits`, one flag per district) and that the category filter shows.
pub open spec fn picked_district_from(
    hits: Seq<bool>,
    filter: Option<MemoryBankCategory>,
    n: int,
) -> Option<nat>
    decreases n,
{
    if n <= 0 {
        None
    } else if hits[n - 1] && (filter is None || filter == Some(district_category((n - 1) as nat))) {
        Some((n - 1) as nat)
    } else {
        picked_district_from(hits, filter, n - 1)
    }
}

/// The district picked by a click, given which districts hold the clicked point.
pub fn pick_district(hits: &Vec<bool>, filter: Option<MemoryBankCategory>) -> (r: Option<usize>)
    requires
        hits.len() <= DISTRICT_COUNT,
    ensures
        match r {
            Some(i) => picked_district_from(hits@, filter, hits.len() as int) == Some(i as nat),
            None => picked_district_from(hits@, filter, hits.len() as int) is None,
        },
{
    let mut n: usize = hits.len();
    while n > 0
        invariant
            n <= hits.len() <= DISTRICT_COUNT,
            picked_district_from(hits@, filter, hits.len() as int) == picked_district_from(
                hits@,
                filter,
                n as int,
            ),
        decreases n,
    {
        let i = n - 1;
        let shown = match filter {
            None => true,
            Some(c) => c == category_of_district(i),
        };
        if hits[i] && shown {
            return Some(i);
        }
        n = i;
    }
    None
}

// ---------------------------------------------------------------------------
// Memories
// ---------------------------------------------------------------------------
/// A memory of the bank, as far as the map reads it.
#[derive(Debug)]
pub struct MemoryBankItem {
    pub id: String,
    pub category: MemoryBankCategory,
    pub title: String,
    pub content: String,
    /// Whether its status is active.
    pub active: bool,
}

/// A link between two memories.
#[derive(Debug)]
pub struct MemoryBankLink {
    pub source_id: String,
    pub target_id: String,
}

/// The search text as it is compared: trimmed and in ASCII lower case.
pub open spec fn query_of(text: Seq<char>) -> Seq<char> {
    lower(trim(text))
}

/// A memory is listed: it is active, the category filter shows it, and the query is
/// empty or occurs in its title or content, without regard to ASCII case.
pub open spec fn item_listed(it: MemoryBankItem, filter: Option<MemoryBankCategory>, q: Seq<char>) -> bool {
    &&& it.active
    &&& (filter is None || filter == Some(it.category))
    &&& (q.len() == 0 || contains(lower(it.title@), q) || contains(lower(it.content@), q))
}

/// The positions of the listed memories, in order.
pub open spec fn listed_positions(
    items: Seq<MemoryBankItem>,
    filter: Option<MemoryBankCategory>,
    q: Seq<char>,
) -> Seq<usize>
    decreases items.len(),
{
    if items.len() == 0 {
        Seq::<usize>::empty()
    } else {
        let prev = listed_positions(items.drop_last(), filter, q);
        if item_listed(items.last(), filter, q) {
            prev.push((items.len() - 1) as usize)
        } else {
            prev
        }
    }
}

fn listed(it: &MemoryBankItem, filter: Option<MemoryBankCategory>, q: &Vec<char>) -> (r: bool)
    ensures
        r == item_listed(*it, filter, q@),
{
    if !it.active {
        return false;
    }
    let shown = match filter {
        None => true,
        Some(c) => c == it.category,
    };
    if !shown {
        return false;
    }
    q.len() == 0 || crate::text::contains_chars(&lower_chars(&chars_of(it.title.as_str())), q)
        || crate::text::contains_chars(&lower_chars(&chars_of(it.content.as_str())), q)
}

/// The positions of the memories listed for a category filter and a search text.
pub fn filtered_items(
    items: &Vec<MemoryBankItem>,
    filter: Option<MemoryBankCategory>,
    search: &str,
) -> (r: Vec<usize>)
    ensures
        r@ == listed_positions(items@, filter, query_of(search@)),
{
    let q = lower_chars(&crate::text::trim_chars(&chars_of(search)));
    let mut r: Vec<usize> = Vec::new();
    let mut i: usize = 0;
    while i < items.len()
        invariant
            i <= items.len(),
            q@ == query_of(search@),
            r@ == listed_positions(items@.take(i as int), filter, q@),
        decreases items.len() - i,
    {
        assert(items@.take(i + 1).drop_last() =~= items@.take(i as int));
        if listed(&items[i], filter, &q) {
            r.push(i);
        }
        i = i + 1;
    }
    assert(items@.take(items.len() as int) =~= items@);
    r
}

} // verus!

verus! {

// ---------------------------------------------------------------------------
// Labels on the map
// ---------------------------------------------------------------------------
/// A text cut to `max_chars` characters, with `...` after it where it was cut.
pub open spec fn truncated(s: Seq<char>, max_chars: nat) -> Seq<char> {
    if s.len() > max_chars {
        s.take(max_chars as int) + "..."@
    } else {
        s
    }
}

/// A label cut to `max_chars` characters, marked where it was cut.
pub fn truncate_label(value: &str, max_chars: usize) -> (r: String)
    ensures
        r@ == truncated(value@, max_chars as nat),
{
    let v = chars_of(value);
    if v.len() > max_chars {
        let mut t = crate::text::slice_chars(&v, 0, max_chars);
        crate::text::append_str(&mut t, "...");
        assert(v@.subrange(0, max_chars as int) =~= v@.take(max_chars as int));
        string_of(&t)
    } else {
        string_of(&v)
    }
}

/// How many of the memories at `ps` are of the category `c`.
pub open spec fn count_in_category(items: Seq<MemoryBankItem>, ps: Seq<usize>, c: MemoryBankCategory) -> nat
    decreases ps.len(),
{
    if ps.len() == 0 {
        0
    } else {
        count_in_category(items, ps.drop_last(), c) + if items[ps.last() as int].category == c {
            1nat
        } else {
            0nat
        }
    }
}

/// Of the memories at `ps`, in order, those that are among the first three of their
/// category.
pub open spec fn first_three_per_category(items: Seq<MemoryBankItem>, ps: Seq<usize>) -> Seq<usize>
    decreases ps.len(),
{
    if ps.len() == 0 {
        Seq::<usize>::empty()
    } else {
        let kept = first_three_per_category(items, ps.drop_last());
        if count_in_category(items, kept, items[ps.last() as int].category) >= 3 {
            kept
        } else {
            kept.push(ps.last())
        }
    }
}

proof fn lemma_count_push(items: Seq<MemoryBankItem>, ps: Seq<usize>, p: usize, c: MemoryBankCategory)
    ensures
        count_in_category(items, ps.push(p), c) == count_in_category(items, ps, c) + if items[p as int].category
            == c {
            1nat
        } else {
            0nat
        },
{
    assert(ps.push(p).drop_last() =~= ps);
}

/// The memories named on the map: of those listed, the first three of each category.
pub fn scene_labels(
    items: &Vec<MemoryBankItem>,
    filter: Option<MemoryBankCategory>,
    search: &str,
) -> (r: Vec<usize>)
    ensures
        r@ == first_three_per_category(items@, listed_positions(items@, filter, query_of(search@))),
        forall|c: MemoryBankCategory| #[trigger] count_in_category(items@, r@, c) <= 3,
{
    let ps = filtered_items(items, filter, search);
    proof {
        lemma_listed_in_range(items@, filter, query_of(search@));
    }
    let mut counts: Vec<usize> = vec![0, 0, 0, 0, 0, 0];
    let mut kept: Vec<usize> = Vec::new();
    let mut i: usize = 0;
    while i < ps.len()
        invariant
            i <= ps.len(),
            counts.len() == DISTRICT_COUNT,
            forall|k: int| 0 <= k < ps.len() ==> ps@[k] < items.len(),
            kept@ == first_three_per_category(items@, ps@.take(i as int)),
            forall|k: int|
                0 <= k < DISTRICT_COUNT ==> #[trigger] counts@[k] == count_in_category(
                    items@,
                    kept@,
                    district_category(k as nat),
                ),
            forall|k: int| 0 <= k < DISTRICT_COUNT ==> #[trigger] counts@[k] <= i,
            forall|k: int| 0 <= k < DISTRICT_COUNT ==> #[trigger] counts@[k] <= 3,
        decreases ps.len() - i,
    {
        assert(ps@.take(i + 1).drop_last() =~= ps@.take(i as int));
        let p = ps[i];
        let d = district_index(items[p].category);
        if counts[d] < 3 {
            proof {
                assert forall|k: int| 0 <= k < DISTRICT_COUNT implies count_in_category(
                    items@,
                    kept@.push(p),
                    district_category(k as nat),
                ) == if k == d {
                    counts@[k] + 1
                } else {
                    counts@[k] as int
                } by {
                    lemma_count_push(items@, kept@, p, district_category(k as nat));
                    if k != d {
                        assert(district_of(district_category(k as nat)) == k);
                    }
                }
            }
            kept.push(p);
            let c = counts[d];
            counts.set(d, c + 1);
        }
        i = i + 1;
    }
    assert(ps@.take(ps.len() as int) =~= ps@);
    assert forall|c: MemoryBankCategory| #[trigger] count_in_category(items@, kept@, c) <= 3 by {
        let k = district_of(c) as int;
        assert(district_category(k as nat) == c);
        assert(counts@[k] <= 3);
    }
    kept
}

proof fn lemma_listed_in_range(
    items: Seq<MemoryBankItem>,
    filter: Option<MemoryBankCategory>,
    q: Seq<char>,
)
    ensures
        forall|k: int|
            0 <= k < listed_positions(items, filter, q).len() ==> #[trigger] listed_positions(
                items,
                filter,
                q,
            )[k] < items.len(),
    decreases items.len(),
{
    if items.len() > 0 {
        lemma_listed_in_range(items.drop_last(), filter, q);
        let prev = listed_positions(items.drop_last(), filter, q);
        let all = listed_positions(items, filter, q);
        assert forall|k: int| 0 <= k < all.len() implies #[trigger] all[k] < items.len() by {
            if k < prev.len() {
                assert(all[k] == prev[k]);
            }
        }
    }
}

} // verus!

verus! {

// ---------------------------------------------------------------------------
// Selecting and editing
// ---------------------------------------------------------------------------
/// What the inspector shows after a selection.
#[derive(Debug)]
pub struct MemorySelection {
    /// The district selected.
    pub district: usize,
    pub title: String,
    pub content: String,
    /// The position of the memory open for editing, where there is one.
    pub editing: Option<usize>,
}

/// The text shown for a district without an active memory.
pub open spec fn empty_district_text() -> Seq<char> {
    "*No active memories in this district. Select Edit to create one.*"@
}

/// The first active memory of the category `c`, from position `i` on.
pub open spec fn first_active_from(items: Seq<MemoryBankItem>, c: MemoryBankCategory, i: int) -> Option<int>
    decreases items.len() - i,
{
    if i < 0 || i >= items.len() {
        None
    } else if items[i].category == c && items[i].active {
        Some(i)
    } else {
        first_active_from(items, c, i + 1)
    }
}

/// What selecting the district of `c` shows: its first active memory, or the
/// category's name and a hint where it has none.
pub open spec fn selects_category(items: Seq<MemoryBankItem>, c: MemoryBankCategory, s: MemorySelection) -> bool {
    &&& s.district == district_of(c)
    &&& match first_active_from(items, c, 0) {
        Some(j) => s.title@ == items[j].title@ && s.content@ == items[j].content@ && s.editing
            == Some(j as usize),
        None => s.title@ == short_name_of(c) && s.content@ == empty_district_text() && s.editing
            is None,
    }
}

/// What the inspector shows once the district of `category` is selected.
pub fn select_category(items: &Vec<MemoryBankItem>, category: MemoryBankCategory) -> (r: MemorySelection)
    ensures
        selects_category(items@, category, r),
{
    let district = district_index(category);
    let mut i: usize = 0;
    while i < items.len()
        invariant
            i <= items.len(),
            first_active_from(items@, category, 0) == first_active_from(items@, category, i as int),
            district == district_of(category),
        decreases items.len() - i,
    {
        if items[i].category == category && items[i].active {
            return MemorySelection {
                district,
                title: items[i].title.clone(),
                content: items[i].content.clone(),
                editing: Some(i),
            };
        }
        i = i + 1;
    }
    MemorySelection {
        district,
        title: category_short_name(category).to_string(),
        content: "*No active memories in this district. Select Edit to create one.*".to_string(),
        editing: None,
    }
}

/// The first memory with the id `id`, from position `i` on.
pub open spec fn item_by_id_from(items: Seq<MemoryBankItem>, id: Seq<char>, i: int) -> Option<int>
    decreases items.len() - i,
{
    if i < 0 || i >= items.len() {
        None
    } else if items[i].id@ == id {
        Some(i)
    } else {
        item_by_id_from(items, id, i + 1)
    }
}

/// The position of the first memory with the id `id`.
pub fn find_item(items: &Vec<MemoryBankItem>, id: &str) -> (r: Option<usize>)
    ensures
        match r {
            Some(j) => item_by_id_from(items@, id@, 0) == Some(j as int) && j < items.len(),
            None => item_by_id_from(items@, id@, 0) is None,
        },
{
    let want = chars_of(id);
    let mut i: usize = 0;
    while i < items.len()
        invariant
            i <= items.len(),
            want@ == id@,
            item_by_id_from(items@, id@, 0) == item_by_id_from(items@, id@, i as int),
        decreases items.len() - i,
    {
        if crate::text::chars_eq(&chars_of(items[i].id.as_str()), &want) {
            return Some(i);
        }
        i = i + 1;
    }
    None
}

/// What the inspector shows once the memory with the id `id` is selected: that
/// memory in its district; nothing changes where no memory has the id.
pub fn select_item(items: &Vec<MemoryBankItem>, id: &str) -> (r: Option<MemorySelection>)
    ensures
        match item_by_id_from(items@, id@, 0) {
            Some(j) => r matches Some(s) && s.district == district_of(items@[j].category)
                && s.title@ == items@[j].title@ && s.content@ == items@[j].content@ && s.editing
                == Some(j as usize),
            None => r is None,
        },
{
    match find_item(items, id) {
        Some(j) => Some(
            MemorySelection {
                district: district_index(items[j].category),
                title: items[j].title.clone(),
                content: items[j].content.clone(),
                editing: Some(j),
            },
        ),
        None => None,
    }
}

/// What saving the edit form does.
#[derive(Clone, Copy, PartialEq, Eq, Debug, Structural)]
pub enum SaveAction {
    /// Nothing: the title or the content is blank.
    Ignore,
    /// Write the title and content over the memory being edited.
    UpdateEditing,
    /// Create a memory in this category.
    Create(MemoryBankCategory),
    /// Neither a memory nor a district is selected: only the inspector changes.
    ShowOnly,
}

/// What saving the edit form does: nothing where the title or the content is blank;
/// else it updates the memory being edited, or creates one in the selected district.
pub open spec fn save_action_of(
    title: Seq<char>,
    content: Seq<char>,
    editing: bool,
    district: Option<usize>,
) -> SaveAction {
    if trim(title).len() == 0 || trim(content).len() == 0 {
        SaveAction::Ignore
    } else if editing {
        SaveAction::UpdateEditing
    } else {
        match district {
            Some(d) => if d < DISTRICT_COUNT {
                SaveAction::Create(district_category(d as nat))
            } else {
                SaveAction::ShowOnly
            },
            None => SaveAction::ShowOnly,
        }
    }
}

/// Saving writes a memory only where both its title and its content have text: with
/// a title or a content that is blank once trimmed, nothing is created or updated;
/// with both filled in, an open memory is updated.
pub proof fn law_blank_memories_are_never_saved(
    title: Seq<char>,
    content: Seq<char>,
    editing: bool,
    district: Option<usize>,
)
    ensures
        (save_action_of(title, content, editing, district) matches SaveAction::Create(_))
            ==> trim(title).len() > 0 && trim(content).len() > 0,
        save_action_of(title, content, editing, district) == SaveAction::UpdateEditing ==> trim(
            title,
        ).len() > 0 && trim(content).len() > 0,
        trim(title).len() == 0 || trim(content).len() == 0 ==> save_action_of(
            title,
            content,
            editing,
            district,
        ) == SaveAction::Ignore,
        trim(title).len() > 0 && trim(content).len() > 0 && editing ==> save_action_of(
            title,
            content,
            editing,
            district,
        ) == SaveAction::UpdateEditing,
{
}

/// What saving the edit form does, given whether a memory is open for editing and
/// the selected district.
pub fn save_action(title: &str, content: &str, editing: bool, district: Option<usize>) -> (r: SaveAction)
    ensures
        r == save_action_of(title@, content@, editing, district),
{
    if crate::text::trim_chars(&chars_of(title)).len() == 0 || crate::text::trim_chars(
        &chars_of(content),
    ).len() == 0 {
        SaveAction::Ignore
    } else if editing {
        SaveAction::UpdateEditing
    } else {
        match district {
            Some(d) => if d < DISTRICT_COUNT {
                SaveAction::Create(category_of_district(d))
            } else {
                SaveAction::ShowOnly
            },
            None => SaveAction::ShowOnly,
        }
    }
}

/// The positions of the active memories of the category `c`, in order.
pub open spec fn active_in_category(items: Seq<MemoryBankItem>, c: MemoryBankCategory) -> Seq<usize>
    decreases items.len(),
{
    if items.len() == 0 {
        Seq::<usize>::empty()
    } else {
        let prev = active_in_category(items.drop_last(), c);
        if items.last().category == c && items.last().active {
            prev.push((items.len() - 1) as usize)
        } else {
            prev
        }
    }
}

/// The active memories of a category, as the inspector lists them.
pub fn category_items(items: &Vec<MemoryBankItem>, category: MemoryBankCategory) -> (r: Vec<usize>)
    ensures
        r@ == active_in_category(items@, category),
{
    let mut r: Vec<usize> = Vec::new();
    let mut i: usize = 0;
    while i < items.len()
        invariant
            i <= items.len(),
            r@ == active_in_category(items@.take(i as int), category),
        decreases items.len() - i,
    {
        assert(items@.take(i + 1).drop_last() =~= items@.take(i as int));
        if items[i].category == category && items[i].active {
            r.push(i);
        }
        i = i + 1;
    }
    assert(items@.take(items.len() as int) =~= items@);
    r
}

/// The other end of a link from the memory `id`, where the link touches it.
pub open spec fn other_end(l: MemoryBankLink, id: Seq<char>) -> Option<Seq<char>> {
    if l.source_id@ == id {
        Some(l.target_id@)
    } else if l.target_id@ == id {
        Some(l.source_id@)
    } else {
        None
    }
}

/// The memories linked to the memory `id`, one per link that touches it and whose
/// other end is a known memory, in the order of the links.
pub open spec fn linked_positions(items: Seq<MemoryBankItem>, links: Seq<MemoryBankLink>, id: Seq<char>) -> Seq<usize>
    decreases links.len(),
{
    if links.len() == 0 {
        Seq::<usize>::empty()
    } else {
        let prev = linked_positions(items, links.drop_last(), id);
        match other_end(links.last(), id) {
            Some(o) => match item_by_id_from(items, o, 0) {
                Some(j) => prev.push(j as usize),
                None => prev,
            },
            None => prev,
        }
    }
}

/// The memories linked to the memory with the id `id`.
pub fn linked_items(items: &Vec<MemoryBankItem>, links: &Vec<MemoryBankLink>, id: &str) -> (r: Vec<usize>)
    ensures
        r@ == linked_positions(items@, links@, id@),
{
    let want = chars_of(id);
    let mut r: Vec<usize> = Vec::new();
    let mut i: usize = 0;
    while i < links.len()
        invariant
            i <= links.len(),
            want@ == id@,
            r@ == linked_positions(items@, links@.take(i as int), id@),
        decreases links.len() - i,
    {
        assert(links@.take(i + 1).drop_last() =~= links@.take(i as int));
        let l = &links[i];
        let other: Option<&String> = if crate::text::chars_eq(&chars_of(l.source_id.as_str()), &want) {
            Some(&l.target_id)
        } else if crate::text::chars_eq(&chars_of(l.target_id.as_str()), &want) {
            Some(&l.source_id)
        } else {
            None
        };
        if let Some(o) = other {
            if let Some(j) = find_item(items, o.as_str()) {
                r.push(j);
            }
        }
        i = i + 1;
    }
    assert(links@.take(links.len() as int) =~= links@);
    r
}

} // verus!

verus! {

// ---------------------------------------------------------------------------
// Laws
// ---------------------------------------------------------------------------
/// Every memory listed is active, shown by the category filter, and matches the query.
pub proof fn law_listed_memories_match(
    items: Seq<MemoryBankItem>,
    filter: Option<MemoryBankCategory>,
    q: Seq<char>,
)
    requires
        items.len() <= usize::MAX,
    ensures
        forall|k: int|
            0 <= k < listed_positions(items, filter, q).len() ==> listed_positions(items, filter, q)[k]
                < items.len() && item_listed(
                items[#[trigger] listed_positions(items, filter, q)[k] as int],
                filter,
                q,
            ),
    decreases items.len(),
{
    if items.len() > 0 {
        law_listed_memories_match(items.drop_last(), filter, q);
        let prev = listed_positions(items.drop_last(), filter, q);
        let all = listed_positions(items, filter, q);
        assert forall|k: int| 0 <= k < all.len() implies all[k] < items.len() && item_listed(
            items[#[trigger] all[k] as int],
            filter,
            q,
        ) by {
            if k < prev.len() {
                assert(all[k] == prev[k]);
                assert(items[prev[k] as int] == items.drop_last()[prev[k] as int]);
            } else {
                assert(item_listed(items.last(), filter, q));
                assert(all[k] == (items.len() - 1) as usize);
            }
        }
    }
}

/// The memory that selecting a district opens is an active memory of that district's
/// category.
pub proof fn law_selected_memory_is_active(items: Seq<MemoryBankItem>, c: MemoryBankCategory, i: int)
    requires
        0 <= i,
    ensures
        first_active_from(items, c, i) matches Some(j) ==> i <= j < items.len() && items[j].active
            && items[j].category == c,
    decreases items.len() - i,
{
    if i < items.len() && !(items[i].category == c && items[i].active) {
        law_selected_memory_is_active(items, c, i + 1);
    }
}

} // verus!
