//! The monitoring views: token figures, chart labels, the dashboard's tallies and the
//! kinds of activity shown.
use crate::orchestration::{count_labels, count_of, count_where, tallies, texts, total_count};
use crate::text::{
    chars_of, contains, decimal, decimal_chars, is_space, join, string_of, take_chars, trim,
    utf8_len, utf8_width,
};
use vstd::prelude::*;

verus! {

// ---------------------------------------------------------------------------
// Figures
// ---------------------------------------------------------------------------
/// A token count as shown: whole thousands with `K` from a thousand on, else the
/// number itself.
pub open spec fn tokens_text(n: nat) -> Seq<char> {
    if n >= 1000 {
        decimal(n / 1000) + "K"@
    } else {
        decimal(n)
    }
}

/// A token count as shown.
pub fn format_tokens(n: usize) -> (r: String)
    ensures
        r@ == tokens_text(n as nat),
{
    if n >= 1000 {
        let mut v = decimal_chars((n / 1000) as u64);
        crate::text::append_str(&mut v, "K");
        string_of(&v)
    } else {
        string_of(&decimal_chars(n as u64))
    }
}

// ---------------------------------------------------------------------------
// Chart labels
// ---------------------------------------------------------------------------
/// The byte at offset `p` of the UTF-8 form of `t` is a `-`.
pub open spec fn dash_at_byte(t: Seq<char>, p: nat) -> bool {
    exists|k: int| 0 <= k < t.len() && utf8_len(#[trigger] t.take(k)) == p && t[k] == '-'
}

/// The characters of `t` from position `a` on, at most `n` of them.
pub open spec fn chars_window(t: Seq<char>, a: nat, n: nat) -> Seq<char> {
    if t.len() <= a {
        Seq::<char>::empty()
    } else {
        take_chars(t.subrange(a as int, t.len() as int), n)
    }
}

/// A chart label: a date (ten bytes or more with `-` at bytes 4 and 7) becomes its
/// month and day; another label is trimmed and cut to `max_chars` characters.
pub open spec fn compact_label_of(label: Seq<char>, max_chars: nat) -> Seq<char> {
    let t = trim(label);
    if utf8_len(t) >= 10 && dash_at_byte(t, 4) && dash_at_byte(t, 7) {
        chars_window(t, 5, 5)
    } else {
        take_chars(t, max_chars)
    }
}

proof fn lemma_utf8_len_take_grows(t: Seq<char>, k: int)
    requires
        0 <= k < t.len(),
    ensures
        utf8_len(t.take(k + 1)) == utf8_len(t.take(k)) + utf8_width(t[k]),
        utf8_width(t[k]) >= 1,
{
    assert(t.take(k + 1).drop_last() =~= t.take(k));
}

proof fn lemma_utf8_len_take_mono(t: Seq<char>, a: int, b: int)
    requires
        0 <= a <= b <= t.len(),
    ensures
        utf8_len(t.take(a)) + (b - a) <= utf8_len(t.take(b)),
    decreases b - a,
{
    if a < b {
        lemma_utf8_len_take_mono(t, a, b - 1);
        lemma_utf8_len_take_grows(t, b - 1);
    }
}

/// Whether the byte at offset `p` of the UTF-8 form of `t` is a `-`.
fn dash_at(t: &Vec<char>, p: usize) -> (r: bool)
    requires
        p < 1000,
    ensures
        r == dash_at_byte(t@, p as nat),
{
    let mut offset: usize = 0;
    let mut k: usize = 0;
    while k < t.len() && offset < p
        invariant
            k <= t.len(),
            offset == utf8_len(t@.take(k as int)),
            offset <= p + 4,
            p < 1000,
            forall|j: int| 0 <= j < k ==> utf8_len(#[trigger] t@.take(j)) < p,
        decreases t.len() - k,
    {
        proof {
            lemma_utf8_len_take_grows(t@, k as int);
        }
        offset = offset + crate::text::char_utf8_width(t[k]);
        k = k + 1;
    }
    let found = k < t.len() && offset == p && t[k] == '-';
    proof {
        if !found {
            assert forall|j: int| 0 <= j < t.len() && utf8_len(#[trigger] t@.take(j)) == p implies t@[j]
                != '-' by {
                if j > k {
                    lemma_utf8_len_take_mono(t@, k as int, j);
                }
            }
        }
    }
    found
}

/// The label under a chart's bar.
pub fn compact_chart_label(label: &str, max_chars: usize) -> (r: String)
    ensures
        r@ == compact_label_of(label@, max_chars as nat),
{
    let t = crate::text::trim_chars(&chars_of(label));
    if !crate::text::utf8_len_at_most(&t, 9) && dash_at(&t, 4) && dash_at(&t, 7) {
        if t.len() <= 5 {
            return String::new();
        }
        let rest = crate::text::slice_chars(&t, 5, t.len());
        return string_of(&crate::text::take_chars_exec(&rest, 5));
    }
    string_of(&crate::text::take_chars_exec(&t, max_chars))
}

// ---------------------------------------------------------------------------
// One-line texts
// ---------------------------------------------------------------------------
/// The words of `s`: its maximal runs of characters that are not whitespace.
pub open spec fn words(s: Seq<char>) -> Seq<Seq<char>>
    decreases s.len(),
{
    if s.len() == 0 {
        Seq::<Seq<char>>::empty()
    } else {
        let w = words(s.drop_last());
        if is_space(s.last()) {
            w
        } else if s.len() > 1 && !is_space(s.drop_last().last()) && w.len() > 0 {
            w.drop_last().push(w.last().push(s.last()))
        } else {
            w.push(seq![s.last()])
        }
    }
}

/// A text on one line: its words joined by single spaces, or `fallback` where it
/// has none.
pub open spec fn single_line_of(s: Seq<char>, fallback: Seq<char>) -> Seq<char> {
    let t = join(words(s), " "@);
    if t.len() == 0 {
        fallback
    } else {
        t
    }
}

proof fn lemma_words_nonempty(s: Seq<char>)
    ensures
        forall|i: int| 0 <= i < words(s).len() ==> (#[trigger] words(s)[i]).len() > 0,
        s.len() > 0 && !is_space(s.last()) ==> words(s).len() > 0,
    decreases s.len(),
{
    if s.len() > 0 {
        lemma_words_nonempty(s.drop_last());
        let w = words(s.drop_last());
        let r = words(s);
        assert forall|i: int| 0 <= i < r.len() implies (#[trigger] r[i]).len() > 0 by {
            if i < w.len() && !(s.len() > 1 && !is_space(s.drop_last().last()) && w.len() > 0
                && i == w.len() - 1) {
                assert(r[i] == w[i]);
            }
        }
    }
}

proof fn lemma_join_empty(pieces: Seq<Seq<char>>)
    requires
        forall|i: int| 0 <= i < pieces.len() ==> (#[trigger] pieces[i]).len() > 0,
    ensures
        (join(pieces, " "@).len() == 0) == (pieces.len() == 0),
    decreases pieces.len(),
{
    if pieces.len() > 1 {
        lemma_join_empty(pieces.drop_last());
        assert(pieces.last() == pieces[pieces.len() - 1]);
    } else if pieces.len() == 1 {
        assert(pieces[0].len() > 0);
    }
}

/// The words of `s`, in order (`str::split_whitespace`).
pub fn split_words(s: &Vec<char>) -> (ws: Vec<Vec<char>>)
    ensures
        crate::text::views(ws@) == words(s@),
{
    let mut ws: Vec<Vec<char>> = Vec::new();
    let mut i: usize = 0;
    while i < s.len()
        invariant
            i <= s.len(),
            crate::text::views(ws@) == words(s@.take(i as int)),
        decreases s.len() - i,
    {
        let ghost before = s@.take(i as int);
        assert(s@.take(i + 1).drop_last() =~= before);
        let c = s[i];
        let ghost after = s@.take(i + 1);
        let ghost w = words(before);
        assert(after.drop_last() =~= before);
        assert(after.last() == c);
        if !crate::text::char_is_space(c) {
            if i > 0 && !crate::text::char_is_space(s[i - 1]) && ws.len() > 0 {
                let last = ws.len() - 1;
                let mut nw = ws[last].clone();
                nw.push(c);
                let ghost old_ws = ws@;
                ws.set(last, nw);
                proof {
                    assert(before.last() == s@[i - 1]);
                    assert(words(after) == w.drop_last().push(w.last().push(c)));
                    assert(crate::text::views(ws@) =~= w.drop_last().push(w.last().push(c))) by {
                        assert(crate::text::views(old_ws)[last as int] == w.last());
                        assert forall|q: int| 0 <= q < last implies crate::text::views(ws@)[q] == w[q] by {
                            assert(ws@[q] == old_ws[q]);
                            assert(crate::text::views(old_ws)[q] == w[q]);
                        }
                    }
                }
            } else {
                let nv: Vec<char> = vec![c];
                assert(nv@ =~= seq![c]);
                ws.push(nv);
                proof {
                    assert(i > 0 ==> before.last() == s@[i - 1]);
                    assert(words(after) == w.push(seq![c]));
                    assert(crate::text::views(ws@) =~= w.push(seq![c]));
                }
            }
        } else {
            assert(words(after) == w);
        }
        i = i + 1;
    }
    assert(s@.take(s.len() as int) =~= s@);
    ws
}

/// A text collapsed onto one line: its words joined by single spaces, or `fallback`
/// where it has none.
pub fn single_line_display(value: &str, fallback: &str) -> (r: String)
    ensures
        r@ == single_line_of(value@, fallback@),
{
    let s = chars_of(value);
    let ws = split_words(&s);
    let sep = chars_of(" ");
    let joined = crate::text::join_chars(&ws, &sep);
    proof {
        lemma_words_nonempty(s@);
        lemma_join_empty(words(s@));
    }
    if joined.len() == 0 {
        crate::text::string_from(fallback)
    } else {
        string_of(&joined)
    }
}

} // verus!

verus! {

// ---------------------------------------------------------------------------
// The dashboard
// ---------------------------------------------------------------------------
/// A run counted as active or waiting on the dashboard.
pub open spec fn is_live_run(s: Seq<char>) -> bool {
    s == "running"@ || s == "dispatched"@ || s == "waiting_approval"@
}

/// The figures at the top of the monitoring dashboard.
#[derive(Clone, Copy, PartialEq, Eq, Debug, Structural)]
pub struct DashboardFigures {
    pub persisted: usize,
    pub live: usize,
    pub completed: usize,
    pub tokens: usize,
}

/// The sum of the token counts of a list of agents.
pub open spec fn token_sum(t: Seq<(String, usize)>) -> nat {
    total_count(t)
}

/// The figures of the dashboard for the statuses of the stored runs and the tokens
/// recorded per agent.
pub fn dashboard_figures(statuses: &Vec<String>, tokens_per_agent: &Vec<(String, usize)>) -> (r: DashboardFigures)
    requires
        token_sum(tokens_per_agent@) <= usize::MAX,
    ensures
        r.persisted == statuses.len(),
        r.live == count_where(texts(statuses@), |s: Seq<char>| is_live_run(s)),
        r.completed == count_of(texts(statuses@), "completed"@),
        r.tokens == token_sum(tokens_per_agent@),
{
    let ghost all = texts(statuses@);
    let mut live: usize = 0;
    let mut i: usize = 0;
    while i < statuses.len()
        invariant
            i <= statuses.len(),
            all == texts(statuses@),
            live == count_where(all.take(i as int), |s: Seq<char>| is_live_run(s)),
            live <= i,
        decreases statuses.len() - i,
    {
        assert(all.take(i + 1).drop_last() =~= all.take(i as int));
        let s = statuses[i].as_str();
        if crate::text::str_eq(s, "running") || crate::text::str_eq(s, "dispatched")
            || crate::text::str_eq(s, "waiting_approval") {
            live = live + 1;
        }
        i = i + 1;
    }
    assert(all.take(statuses.len() as int) =~= all);
    let completed = crate::orchestration::count_status(statuses, "completed");
    let mut tokens: usize = 0;
    let mut j: usize = 0;
    while j < tokens_per_agent.len()
        invariant
            j <= tokens_per_agent.len(),
            token_sum(tokens_per_agent@) <= usize::MAX,
            tokens == token_sum(tokens_per_agent@.take(j as int)),
        decreases tokens_per_agent.len() - j,
    {
        assert(tokens_per_agent@.take(j + 1).drop_last() =~= tokens_per_agent@.take(j as int));
        proof {
            lemma_total_prefix(tokens_per_agent@, j + 1);
        }
        tokens = tokens + tokens_per_agent[j].1;
        j = j + 1;
    }
    assert(tokens_per_agent@.take(tokens_per_agent.len() as int) =~= tokens_per_agent@);
    DashboardFigures { persisted: statuses.len(), live, completed, tokens }
}

proof fn lemma_total_prefix(t: Seq<(String, usize)>, k: int)
    requires
        0 <= k <= t.len(),
    ensures
        total_count(t.take(k)) <= total_count(t),
    decreases t.len() - k,
{
    if k < t.len() {
        lemma_total_prefix(t, k + 1);
        assert(t.take(k + 1).drop_last() =~= t.take(k));
    } else {
        assert(t.take(k) =~= t);
    }
}

/// The first ten characters of each text: the day of a timestamp.
pub open spec fn days_of(created: Seq<Seq<char>>) -> Seq<Seq<char>> {
    created.map_values(|c: Seq<char>| take_chars(c, 10))
}

/// The runs stored per day, for the twelve latest days, oldest first.
pub fn runs_per_day(created_at: &Vec<String>) -> (r: Vec<(String, usize)>)
    ensures
        exists|all: Seq<(String, usize)>|
            #![trigger tallies(days_of(texts(created_at@)), all)]
            tallies(days_of(texts(created_at@)), all) && r@ == all.subrange(
                if all.len() > 12 {
                    all.len() - 12
                } else {
                    0
                },
                all.len() as int,
            ),
{
    let mut days: Vec<String> = Vec::new();
    let mut i: usize = 0;
    while i < created_at.len()
        invariant
            i <= created_at.len(),
            days.len() == i,
            texts(days@) == days_of(texts(created_at@)).take(i as int),
        decreases created_at.len() - i,
    {
        let d = crate::text::take_chars_exec(&chars_of(created_at[i].as_str()), 10);
        let day = string_of(&d);
        let ghost before = days@;
        days.push(day);
        proof {
            assert(texts(created_at@)[i as int] == created_at@[i as int]@);
            assert(days_of(texts(created_at@))[i as int] == take_chars(created_at@[i as int]@, 10));
            assert forall|q: int| 0 <= q < i + 1 implies #[trigger] texts(days@)[q] == days_of(
                texts(created_at@),
            )[q] by {
                if q < i {
                    assert(days@[q] == before[q]);
                    assert(texts(before)[q] == days_of(texts(created_at@)).take(i as int)[q]);
                }
            }
        }
        assert(texts(days@) =~= days_of(texts(created_at@)).take(i + 1));
        i = i + 1;
    }
    assert(days_of(texts(created_at@)).take(created_at.len() as int) =~= days_of(
        texts(created_at@),
    ));
    let all = count_labels(&days);
    let start: usize = if all.len() > 12 {
        all.len() - 12
    } else {
        0
    };
    let mut r: Vec<(String, usize)> = Vec::new();
    let mut k: usize = start;
    while k < all.len()
        invariant
            start <= k <= all.len(),
            r@ == all@.subrange(start as int, k as int),
        decreases all.len() - k,
    {
        let entry = (all[k].0.clone(), all[k].1);
        r.push(entry);
        assert(r@ =~= all@.subrange(start as int, k + 1));
        k = k + 1;
    }
    assert(tallies(days_of(texts(created_at@)), all@));
    r
}

/// How an activity is marked in the feed.
#[derive(Clone, Copy, PartialEq, Eq, Debug, Structural)]
pub enum ActivityKind {
    Error,
    Warning,
    Success,
    Info,
}

/// How an event of the type `t` is marked: an error where it failed or was denied, a
/// warning where it waits or asks for approval, a success where it completed or
/// succeeded, else information.
pub open spec fn activity_kind_of(t: Seq<char>) -> ActivityKind {
    if contains(t, "failed"@) || contains(t, "denied"@) {
        ActivityKind::Error
    } else if contains(t, "waiting"@) || contains(t, "approval"@) {
        ActivityKind::Warning
    } else if contains(t, "completed"@) || contains(t, "succeeded"@) {
        ActivityKind::Success
    } else {
        ActivityKind::Info
    }
}

/// How an event is marked in the activity feed.
pub fn activity_kind(event_type: &str) -> (r: ActivityKind)
    ensures
        r == activity_kind_of(event_type@),
{
    let t = chars_of(event_type);
    if crate::text::contains_str(&t, "failed") || crate::text::contains_str(&t, "denied") {
        ActivityKind::Error
    } else if crate::text::contains_str(&t, "waiting") || crate::text::contains_str(&t, "approval") {
        ActivityKind::Warning
    } else if crate::text::contains_str(&t, "completed") || crate::text::contains_str(
        &t,
        "succeeded",
    ) {
        ActivityKind::Success
    } else {
        ActivityKind::Info
    }
}

/// The line shown for an event in the activity feed: its type, a dash and its payload.
pub fn activity_message(event_type: &str, payload: Option<&str>) -> (r: String)
    ensures
        r@ == event_type@ + " - "@ + match payload {
            Some(p) => p@,
            None => Seq::<char>::empty(),
        },
{
    let mut v = chars_of(event_type);
    crate::text::append_str(&mut v, " - ");
    match payload {
        Some(p) => {
            crate::text::append_str(&mut v, p);
        },
        None => {},
    }
    string_of(&v)
}

} // verus!
