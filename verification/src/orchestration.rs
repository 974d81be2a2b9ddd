//! The orchestration views: tallies of runs, tasks and events, and the names shown
//! for tasks and for the agents they go to.
use crate::text::{
    chars_eq, chars_of, lemma_text_lt_irreflexive, lemma_text_lt_transitive,
    lemma_text_lt_trichotomy, string_of, text_less, text_lt,
};
use vstd::prelude::*;

verus! {

// ---------------------------------------------------------------------------
// Counting labels
// ---------------------------------------------------------------------------
/// The texts of a list of strings.
pub open spec fn texts(v: Seq<String>) -> Seq<Seq<char>> {
    v.map_values(|s: String| s@)
}

/// Adding a string adds its text.
pub proof fn lemma_texts_push(v: Seq<String>, x: String)
    ensures
        texts(v.push(x)) == texts(v).push(x@),
{
    assert(texts(v.push(x)) =~= texts(v).push(x@));
}

/// How often `s` occurs in `values`.
pub open spec fn count_of(values: Seq<Seq<char>>, s: Seq<char>) -> nat
    decreases values.len(),
{
    if values.len() == 0 {
        0
    } else {
        count_of(values.drop_last(), s) + if values.last() == s {
            1nat
        } else {
            0nat
        }
    }
}

/// The labels of `r` come in the order of `String`, each once.
pub open spec fn labels_sorted(r: Seq<(String, usize)>) -> bool {
    forall|i: int, j: int| 0 <= i < j < r.len() ==> text_lt(#[trigger] r[i].0@, #[trigger] r[j].0@)
}

/// `r` tallies `values`: each distinct value once, in the order of `String`, with the
/// number of times it occurs.
pub open spec fn tallies(values: Seq<Seq<char>>, r: Seq<(String, usize)>) -> bool {
    &&& labels_sorted(r)
    &&& forall|j: int|
        0 <= j < r.len() ==> (#[trigger] r[j]).1 == count_of(values, r[j].0@) && r[j].1 > 0
    &&& forall|k: int|
        #![trigger values[k]]
        0 <= k < values.len() ==> exists|j: int| 0 <= j < r.len() && (#[trigger] r[j]).0@ == values[k]
}

/// The sum of the counts of a tally.
pub open spec fn total_count(r: Seq<(String, usize)>) -> nat
    decreases r.len(),
{
    if r.len() == 0 {
        0
    } else {
        total_count(r.drop_last()) + (r.last().1 as nat)
    }
}

proof fn lemma_total_update(r: Seq<(String, usize)>, j: int, x: (String, usize))
    requires
        0 <= j < r.len(),
    ensures
        total_count(r.update(j, x)) == total_count(r) - r[j].1 + x.1,
    decreases r.len(),
{
    if j < r.len() - 1 {
        lemma_total_update(r.drop_last(), j, x);
        assert(r.update(j, x).drop_last() =~= r.drop_last().update(j, x));
    } else {
        assert(r.update(j, x).drop_last() =~= r.drop_last());
    }
}

proof fn lemma_total_insert(r: Seq<(String, usize)>, j: int, x: (String, usize))
    requires
        0 <= j <= r.len(),
    ensures
        total_count(r.insert(j, x)) == total_count(r) + x.1,
    decreases r.len(),
{
    if j < r.len() {
        lemma_total_insert(r.drop_last(), j, x);
        assert(r.insert(j, x).drop_last() =~= r.drop_last().insert(j, x));
    } else {
        assert(r.insert(j, x).drop_last() =~= r);
    }
}

proof fn lemma_count_bound(values: Seq<Seq<char>>, s: Seq<char>)
    ensures
        count_of(values, s) <= values.len(),
        count_of(values, s) > 0 ==> exists|k: int| 0 <= k < values.len() && values[k] == s,
    decreases values.len(),
{
    if values.len() > 0 {
        lemma_count_bound(values.drop_last(), s);
        if count_of(values.drop_last(), s) > 0 {
            let k = choose|k: int| 0 <= k < values.len() - 1 && values.drop_last()[k] == s;
            assert(values[k] == s);
        }
    }
}

/// Each distinct label of `values` with the number of times it occurs, in the order
/// of `String`.
pub fn count_labels(values: &Vec<String>) -> (r: Vec<(String, usize)>)
    ensures
        tallies(texts(values@), r@),
        total_count(r@) == values.len(),
{
    let mut r: Vec<(String, usize)> = Vec::new();
    let mut i: usize = 0;
    while i < values.len()
        invariant
            i <= values.len(),
            tallies(texts(values@).take(i as int), r@),
            total_count(r@) == i,
        decreases values.len() - i,
    {
        let ghost before = texts(values@).take(i as int);
        let ghost after = texts(values@).take(i + 1);
        let ghost old_r = r@;
        assert(after.drop_last() =~= before);
        assert(after.last() == values@[i as int]@);
        let v = chars_of(values[i].as_str());
        let mut j: usize = 0;
        while j < r.len() && text_less(&chars_of(r[j].0.as_str()), &v)
            invariant
                j <= r.len(),
                r@ == old_r,
                forall|k: int| 0 <= k < j ==> text_lt(#[trigger] r@[k].0@, v@),
            decreases r.len() - j,
        {
            j = j + 1;
        }
        proof {
            lemma_count_bound(before, v@);
        }
        if j < r.len() && chars_eq(&chars_of(r[j].0.as_str()), &v) {
            let key = r[j].0.clone();
            let n = r[j].1;
            proof {
                lemma_total_update(r@, j as int, (key, (n + 1) as usize));
            }
            r.set(j, (key, n + 1));
            proof {
                assert forall|a: int, b: int| 0 <= a < b < r@.len() implies text_lt(
                    #[trigger] r@[a].0@,
                    #[trigger] r@[b].0@,
                ) by {
                    assert(old_r[a].0@ == r@[a].0@);
                    assert(old_r[b].0@ == r@[b].0@);
                }
                assert forall|q: int| 0 <= q < r@.len() implies (#[trigger] r@[q]).1 == count_of(
                    after,
                    r@[q].0@,
                ) && r@[q].1 > 0 by {
                    assert(old_r[q].1 == count_of(before, old_r[q].0@));
                    if q != j {
                        assert(text_lt(old_r[q].0@, old_r[j as int].0@) || text_lt(
                            old_r[j as int].0@,
                            old_r[q].0@,
                        ));
                        lemma_text_lt_irreflexive(old_r[q].0@);
                    }
                }
                assert forall|k: int| #![trigger after[k]] 0 <= k < after.len() implies exists|q: int|
                    0 <= q < r@.len() && (#[trigger] r@[q]).0@ == after[k] by {
                    if k < i {
                        assert(before[k] == after[k]);
                        let q = choose|q: int| 0 <= q < old_r.len() && (#[trigger] old_r[q]).0@ == before[k];
                        assert(r@[q].0@ == after[k]);
                    } else {
                        assert(r@[j as int].0@ == after[k]);
                    }
                }
            }
        } else {
            proof {
                if j < r.len() {
                    lemma_text_lt_trichotomy(r@[j as int].0@, v@);
                }
                assert forall|q: int| 0 <= q < old_r.len() implies (#[trigger] old_r[q]).0@ != v@ by {
                    if q < j {
                        lemma_text_lt_irreflexive(v@);
                    } else if q > j {
                        lemma_text_lt_transitive(v@, old_r[j as int].0@, old_r[q].0@);
                        lemma_text_lt_irreflexive(v@);
                    }
                }
                if count_of(before, v@) > 0 {
                    let k = choose|k: int| 0 <= k < before.len() && before[k] == v@;
                    let q = choose|q: int| 0 <= q < old_r.len() && (#[trigger] old_r[q]).0@ == before[k];
                    assert(old_r[q].0@ == v@);
                }
            }
            let fresh = (string_of(&v), 1usize);
            proof {
                lemma_total_insert(r@, j as int, fresh);
            }
            r.insert(j, fresh);
            proof {
                assert forall|a: int, b: int| 0 <= a < b < r@.len() implies text_lt(
                    #[trigger] r@[a].0@,
                    #[trigger] r@[b].0@,
                ) by {
                    if b < j {
                        assert(r@[a] == old_r[a] && r@[b] == old_r[b]);
                    } else if b == j {
                        assert(r@[a] == old_r[a]);
                    } else if a == j {
                        assert(r@[b] == old_r[b - 1]);
                        if b - 1 > j {
                            lemma_text_lt_transitive(v@, old_r[j as int].0@, old_r[b - 1].0@);
                        }
                    } else if a < j {
                        assert(r@[a] == old_r[a] && r@[b] == old_r[b - 1]);
                        if a < b - 1 {
                        } else {
                        }
                    } else {
                        assert(r@[a] == old_r[a - 1] && r@[b] == old_r[b - 1]);
                    }
                }
                assert forall|q: int| 0 <= q < r@.len() implies (#[trigger] r@[q]).1 == count_of(
                    after,
                    r@[q].0@,
                ) && r@[q].1 > 0 by {
                    if q < j {
                        assert(r@[q] == old_r[q]);
                    } else if q > j {
                        assert(r@[q] == old_r[q - 1]);
                    }
                }
                assert forall|k: int| #![trigger after[k]] 0 <= k < after.len() implies exists|q: int|
                    0 <= q < r@.len() && (#[trigger] r@[q]).0@ == after[k] by {
                    if k < i {
                        assert(before[k] == after[k]);
                        let q = choose|q: int| 0 <= q < old_r.len() && (#[trigger] old_r[q]).0@ == before[k];
                        if q < j {
                            assert(r@[q] == old_r[q]);
                        } else {
                            assert(r@[q + 1] == old_r[q]);
                        }
                    } else {
                        assert(r@[j as int].0@ == after[k]);
                    }
                }
            }
        }
        i = i + 1;
    }
    assert(texts(values@).take(values.len() as int) =~= texts(values@));
    r
}

} // verus!

verus! {

// ---------------------------------------------------------------------------
// Runs and events
// ---------------------------------------------------------------------------
/// How many of `values` satisfy `p`.
pub open spec fn count_where(values: Seq<Seq<char>>, p: spec_fn(Seq<char>) -> bool) -> nat
    decreases values.len(),
{
    if values.len() == 0 {
        0
    } else {
        count_where(values.drop_last(), p) + if p(values.last()) {
            1nat
        } else {
            0nat
        }
    }
}

/// A run that is still under way.
pub open spec fn is_active_run(s: Seq<char>) -> bool {
    s == "running"@ || s == "pending"@ || s == "dispatched"@
}

/// A run that has ended.
pub open spec fn is_terminal_run(s: Seq<char>) -> bool {
    s == "completed"@ || s == "failed"@ || s == "cancelled"@
}

/// A run that has ended well.
pub open spec fn is_completed_run(s: Seq<char>) -> bool {
    s == "completed"@
}

/// The figures of the orchestration dashboard for a list of run statuses.
#[derive(Clone, Copy, PartialEq, Eq, Debug, Structural)]
pub struct RunSummary {
    pub active: usize,
    pub terminal: usize,
    pub successful: usize,
    /// The percentage of ended runs that completed, rounded down; 0 where none ended.
    pub success_rate: usize,
}

proof fn lemma_completed_within_terminal(values: Seq<Seq<char>>)
    ensures
        count_where(values, |s: Seq<char>| is_completed_run(s)) <= count_where(
            values,
            |s: Seq<char>| is_terminal_run(s),
        ) <= values.len(),
    decreases values.len(),
{
    if values.len() > 0 {
        lemma_completed_within_terminal(values.drop_last());
    }
}

fn text_is(s: &str, w: &str) -> (r: bool)
    ensures
        r == (s@ == w@),
{
    crate::text::str_eq(s, w)
}

/// The number of active, ended and completed runs among `statuses`, and the share of
/// the ended ones that completed.
pub fn run_summary(statuses: &Vec<String>) -> (r: RunSummary)
    ensures
        r.active == count_where(texts(statuses@), |s: Seq<char>| is_active_run(s)),
        r.terminal == count_where(texts(statuses@), |s: Seq<char>| is_terminal_run(s)),
        r.successful == count_where(texts(statuses@), |s: Seq<char>| is_completed_run(s)),
        r.terminal == 0 ==> r.success_rate == 0,
        r.terminal > 0 ==> r.success_rate == (r.successful * 100) / (r.terminal as int),
        r.successful <= r.terminal <= statuses.len(),
        r.success_rate <= 100,
{
    let ghost all = texts(statuses@);
    let mut active: usize = 0;
    let mut terminal: usize = 0;
    let mut successful: usize = 0;
    let mut i: usize = 0;
    while i < statuses.len()
        invariant
            i <= statuses.len(),
            all == texts(statuses@),
            active == count_where(all.take(i as int), |s: Seq<char>| is_active_run(s)),
            terminal == count_where(all.take(i as int), |s: Seq<char>| is_terminal_run(s)),
            successful == count_where(all.take(i as int), |s: Seq<char>| is_completed_run(s)),
            active <= i,
            terminal <= i,
            successful <= i,
        decreases statuses.len() - i,
    {
        assert(all.take(i + 1).drop_last() =~= all.take(i as int));
        assert(all.take(i + 1).last() == statuses@[i as int]@);
        let s = statuses[i].as_str();
        if text_is(s, "running") || text_is(s, "pending") || text_is(s, "dispatched") {
            active = active + 1;
        }
        if text_is(s, "completed") || text_is(s, "failed") || text_is(s, "cancelled") {
            terminal = terminal + 1;
        }
        if text_is(s, "completed") {
            successful = successful + 1;
        }
        i = i + 1;
    }
    assert(all.take(statuses.len() as int) =~= all);
    proof {
        lemma_completed_within_terminal(all);
    }
    let success_rate: usize = if terminal == 0 {
        0
    } else {
        let wide: u128 = (successful as u128) * 100 / (terminal as u128);
        assert(wide <= 100) by (nonlinear_arith)
            requires
                successful <= terminal,
                terminal > 0,
                wide == (successful * 100) / (terminal as int),
        ;
        wide as usize
    };
    RunSummary { active, terminal, successful, success_rate }
}

/// The category of a run event, by the words in its type.
pub open spec fn event_category_of(t: Seq<char>) -> Seq<char> {
    if crate::text::contains(t, "failed"@) {
        "failed"@
    } else if crate::text::contains(t, "approval"@) || crate::text::contains(t, "waiting"@) {
        "approval"@
    } else if crate::text::contains(t, "completed"@) {
        "completed"@
    } else {
        "other"@
    }
}

/// The category that a run event is counted under: failed, approval, completed or
/// other.
pub fn event_category(event_type: &str) -> (r: &'static str)
    ensures
        r@ == event_category_of(event_type@),
{
    let t = chars_of(event_type);
    if crate::text::contains_str(&t, "failed") {
        "failed"
    } else if crate::text::contains_str(&t, "approval") || crate::text::contains_str(&t, "waiting") {
        "approval"
    } else if crate::text::contains_str(&t, "completed") {
        "completed"
    } else {
        "other"
    }
}

/// How many of `values` are exactly `word`.
pub fn count_status(values: &Vec<String>, word: &str) -> (r: usize)
    ensures
        r == count_of(texts(values@), word@),
{
    let ghost all = texts(values@);
    let mut n: usize = 0;
    let mut i: usize = 0;
    while i < values.len()
        invariant
            i <= values.len(),
            all == texts(values@),
            n == count_of(all.take(i as int), word@),
            n <= i,
        decreases values.len() - i,
    {
        assert(all.take(i + 1).drop_last() =~= all.take(i as int));
        if text_is(values[i].as_str(), word) {
            n = n + 1;
        }
        i = i + 1;
    }
    assert(all.take(values.len() as int) =~= all);
    n
}

// ---------------------------------------------------------------------------
// Learning candidates
// ---------------------------------------------------------------------------
/// What can be done with a learning candidate.
#[derive(Clone, Copy, PartialEq, Eq, Debug, Structural)]
pub struct CandidateActions {
    /// Record or run a benchmark.
    pub benchmark: bool,
    /// Start a canary deployment.
    pub start_canary: bool,
    /// Record the outcome of the running canary.
    pub record_canary: bool,
    pub promote: bool,
    pub rollback: bool,
}

/// What can be done with a candidate in the status `s`, where `has_running_canary`
/// tells whether one of its canary deployments is running.
pub open spec fn candidate_actions_of(s: Seq<char>, has_running_canary: bool) -> CandidateActions {
    CandidateActions {
        benchmark: s == "draft"@ || s == "benchmark_failed"@,
        start_canary: s == "benchmark_passed"@,
        record_canary: s == "canary_running"@ && has_running_canary,
        promote: s == "canary_passed"@,
        rollback: s == "promoted"@ || s == "canary_running"@ || s == "canary_passed"@,
    }
}

/// The actions offered for a learning candidate.
pub fn candidate_actions(status: &str, has_running_canary: bool) -> (r: CandidateActions)
    ensures
        r == candidate_actions_of(status@, has_running_canary),
{
    CandidateActions {
        benchmark: text_is(status, "draft") || text_is(status, "benchmark_failed"),
        start_canary: text_is(status, "benchmark_passed"),
        record_canary: text_is(status, "canary_running") && has_running_canary,
        promote: text_is(status, "canary_passed"),
        rollback: text_is(status, "promoted") || text_is(status, "canary_running") || text_is(
            status,
            "canary_passed",
        ),
    }
}

/// How far the system may act without a person.
#[derive(Clone, Copy, PartialEq, Eq, Debug, Structural)]
pub enum OperatingMode {
    HumanInteraction,
    Supervision,
    Autonomous,
}

pub open spec fn mutation_policy_of(m: OperatingMode) -> Seq<char> {
    match m {
        OperatingMode::HumanInteraction => "Approval for every mutation"@,
        OperatingMode::Supervision => "Approval for sensitive operations"@,
        OperatingMode::Autonomous => "Sensitive operations require explicit policy enablement"@,
    }
}

impl OperatingMode {
    /// The rule on changes that the mode applies.
    pub fn mutation_policy(&self) -> (r: &'static str)
        ensures
            r@ == mutation_policy_of(*self),
    {
        match self {
            OperatingMode::HumanInteraction => "Approval for every mutation",
            OperatingMode::Supervision => "Approval for sensitive operations",
            OperatingMode::Autonomous => "Sensitive operations require explicit policy enablement",
        }
    }
}

} // verus!

verus! {

// ---------------------------------------------------------------------------
// Tasks and agents
// ---------------------------------------------------------------------------
/// A task of a run, as far as the views read it.
#[derive(Debug)]
pub struct Task {
    pub id: String,
    pub status: String,
    /// The task's JSON payload, where it has one.
    pub payload: Option<String>,
    pub run_id: Option<String>,
    pub assignee_id: Option<String>,
}

/// An agent, as far as the views read it.
#[derive(Debug)]
pub struct Agent {
    pub id: String,
    pub name: String,
    /// The role by which tasks are routed to the agent.
    pub routing_role: String,
}

/// A text, trimmed, where it is not blank.
pub open spec fn nonblank(o: Option<Seq<char>>) -> Option<Seq<char>> {
    match o {
        Some(s) => if crate::text::trim(s).len() > 0 {
            Some(crate::text::trim(s))
        } else {
            None
        },
        None => None,
    }
}

/// A name that only says which role a task is for.
pub open spec fn is_role_word(s: Seq<char>) -> bool {
    let l = crate::text::lower(s);
    l == "coordinator"@ || l == "pm"@ || l == "ba"@ || l == "dev"@ || l == "developer"@ || l
        == "engineer"@
}

/// The first of `lines`, from position `i` on, that is not blank, trimmed.
pub open spec fn first_nonblank_from(lines: Seq<Seq<char>>, i: int) -> Option<Seq<char>>
    decreases lines.len() - i,
{
    if i < 0 || i >= lines.len() {
        None
    } else if crate::text::trim(lines[i]).len() > 0 {
        Some(crate::text::trim(lines[i]))
    } else {
        first_nonblank_from(lines, i + 1)
    }
}

/// The headline of a description: its first line that is not blank, without the
/// marks that number a list item, trimmed, and cut to 96 characters.
pub open spec fn headline(d: Seq<char>) -> Seq<char> {
    let line = match first_nonblank_from(crate::text::split_char(d, '\n'), 0) {
        Some(l) => l,
        None => d,
    };
    crate::text::take_chars(
        crate::text::trim(crate::text::trim_start_by(line, crate::text::TrimSet::ListMarker)),
        96,
    )
}

/// The text member `key` of a JSON value, trimmed, where it is not blank.
pub open spec fn payload_text(v: crate::json::JsonValue, key: Seq<char>) -> Option<Seq<char>> {
    nonblank(crate::json::json_text(crate::json::json_get(v, key)))
}

/// The name shown for a task with the id `id` whose payload parsed to `v`: its title;
/// else its name, where that is more than a role; else the headline of its
/// description; else its id.
pub open spec fn task_title_of(id: Seq<char>, v: crate::json::JsonValue) -> Seq<char> {
    match payload_text(v, "title"@) {
        Some(t) => t,
        None => {
            let name = match payload_text(v, "name"@) {
                Some(n) => n,
                None => Seq::<char>::empty(),
            };
            let desc = match payload_text(v, "description"@) {
                Some(d) => d,
                None => Seq::<char>::empty(),
            };
            if name.len() > 0 && !is_role_word(name) {
                name
            } else if desc.len() > 0 {
                headline(desc)
            } else {
                id
            }
        },
    }
}

/// The name shown for a task: from its payload where that parses as JSON, else its id.
pub open spec fn task_display_of(t: Task) -> Seq<char> {
    match t.payload {
        Some(p) => match crate::json::serde_json_from_str(p@) {
            Ok(v) => task_title_of(t.id@, v),
            Err(_) => t.id@,
        },
        None => t.id@,
    }
}

fn payload_member(v: &crate::json::JsonValue, key: &str) -> (r: Option<Vec<char>>)
    ensures
        match r {
            Some(s) => payload_text(*v, key@) == Some(s@),
            None => payload_text(*v, key@) is None,
        },
{
    match crate::json::text_of(crate::json::get(v, key)) {
        Some(s) => {
            let t = crate::text::trim_chars(&chars_of(s.as_str()));
            if t.len() > 0 {
                Some(t)
            } else {
                None
            }
        },
        None => None,
    }
}

fn is_role_name(s: &Vec<char>) -> (r: bool)
    ensures
        r == is_role_word(s@),
{
    let l = crate::text::lower_chars(s);
    chars_eq(&l, &chars_of("coordinator")) || chars_eq(&l, &chars_of("pm")) || chars_eq(
        &l,
        &chars_of("ba"),
    ) || chars_eq(&l, &chars_of("dev")) || chars_eq(&l, &chars_of("developer")) || chars_eq(
        &l,
        &chars_of("engineer"),
    )
}

/// The headline of a description.
pub fn description_headline(d: &Vec<char>) -> (r: Vec<char>)
    ensures
        r@ == headline(d@),
{
    let lines = crate::text::split_chars(d, '\n');
    let ghost ls = crate::text::views(lines@);
    let mut found: Option<Vec<char>> = None;
    let mut i: usize = 0;
    while i < lines.len() && found.is_none()
        invariant
            i <= lines.len(),
            ls == crate::text::views(lines@),
            ls == crate::text::split_char(d@, '\n'),
            found matches Some(l) ==> first_nonblank_from(ls, 0) == Some(l@),
            found is None ==> first_nonblank_from(ls, 0) == first_nonblank_from(ls, i as int),
        decreases lines.len() - i,
    {
        let t = crate::text::trim_chars(&lines[i]);
        assert(ls[i as int] == lines@[i as int]@);
        if t.len() > 0 {
            found = Some(t);
        }
        i = i + 1;
    }
    let line: Vec<char> = match found {
        Some(l) => l,
        None => d.clone(),
    };
    let stripped = crate::text::trim_start_chars(&line, crate::text::TrimSet::ListMarker);
    let t = crate::text::trim_chars(&stripped);
    crate::text::take_chars_exec(&t, 96)
}

/// The name shown for a task with the id `id` whose payload parsed to `v`.
pub fn task_title_from_value(id: &str, v: &crate::json::JsonValue) -> (r: String)
    ensures
        r@ == task_title_of(id@, *v),
{
    match payload_member(v, "title") {
        Some(t) => string_of(&t),
        None => {
            let name: Vec<char> = match payload_member(v, "name") {
                Some(n) => n,
                None => Vec::new(),
            };
            let desc: Vec<char> = match payload_member(v, "description") {
                Some(d) => d,
                None => Vec::new(),
            };
            if name.len() > 0 && !is_role_name(&name) {
                string_of(&name)
            } else if desc.len() > 0 {
                string_of(&description_headline(&desc))
            } else {
                crate::text::string_from(id)
            }
        },
    }
}

/// The name shown for a task.
pub fn task_display_name(task: &Task) -> (r: String)
    ensures
        r@ == task_display_of(*task),
{
    match &task.payload {
        Some(p) => match crate::json::parse_json(p.as_str()) {
            Ok(v) => task_title_from_value(task.id.as_str(), &v),
            Err(_) => task.id.clone(),
        },
        None => task.id.clone(),
    }
}

} // verus!

verus! {

/// The ASCII letters and digits of a text, in order.
pub open spec fn ascii_alnum_only(s: Seq<char>) -> Seq<char>
    decreases s.len(),
{
    if s.len() == 0 {
        Seq::<char>::empty()
    } else if crate::text::is_ascii_alnum(s.last()) {
        ascii_alnum_only(s.drop_last()).push(s.last())
    } else {
        ascii_alnum_only(s.drop_last())
    }
}

/// The key by which a role or route label is compared: trimmed, in lower case by
/// Unicode's rules, and only its ASCII letters and digits.
pub open spec fn label_key_of(s: Seq<char>) -> Seq<char> {
    ascii_alnum_only(crate::text::unicode_lowercase(crate::text::trim(s)))
}

/// The ASCII letters and digits of a text already in lower case.
pub fn label_key(lowered: &str) -> (r: String)
    ensures
        r@ == ascii_alnum_only(lowered@),
{
    let s = chars_of(lowered);
    let mut out: Vec<char> = Vec::new();
    let mut i: usize = 0;
    while i < s.len()
        invariant
            i <= s.len(),
            out@ == ascii_alnum_only(s@.take(i as int)),
        decreases s.len() - i,
    {
        assert(s@.take(i + 1).drop_last() =~= s@.take(i as int));
        if crate::text::char_is_ascii_alnum(s[i]) {
            out.push(s[i]);
        }
        i = i + 1;
    }
    assert(s@.take(s.len() as int) =~= s@);
    string_of(&out)
}

/// The key by which a role or route label is compared.
pub fn normalize_label(value: &str) -> (r: String)
    ensures
        r@ == label_key_of(value@),
{
    let t = string_of(&crate::text::trim_chars(&chars_of(value)));
    let lowered = crate::text::to_lowercase(t.as_str());
    label_key(lowered.as_str())
}

/// The route of a task whose payload parsed to `v`: its role, else its name, else
/// nothing.
pub open spec fn route_of_value(v: crate::json::JsonValue) -> Seq<char> {
    match crate::json::json_text(crate::json::json_get(v, "role"@)) {
        Some(r) => r,
        None => match crate::json::json_text(crate::json::json_get(v, "name"@)) {
            Some(n) => n,
            None => Seq::<char>::empty(),
        },
    }
}

/// The route of a task: from its payload where that parses as JSON, else nothing.
pub open spec fn route_of(payload: Option<String>) -> Seq<char> {
    match payload {
        Some(p) => match crate::json::serde_json_from_str(p@) {
            Ok(v) => route_of_value(v),
            Err(_) => Seq::<char>::empty(),
        },
        None => Seq::<char>::empty(),
    }
}

/// The route of a task whose payload parsed to `v`.
pub fn route_from_value(v: &crate::json::JsonValue) -> (r: String)
    ensures
        r@ == route_of_value(*v),
{
    match crate::json::text_of(crate::json::get(v, "role")) {
        Some(r) => r.clone(),
        None => match crate::json::text_of(crate::json::get(v, "name")) {
            Some(n) => n.clone(),
            None => String::new(),
        },
    }
}

/// The first agent at or after `i` with the id `id`.
pub open spec fn agent_by_id_from(agents: Seq<Agent>, id: Seq<char>, i: int) -> Option<int>
    decreases agents.len() - i,
{
    if i < 0 || i >= agents.len() {
        None
    } else if agents[i].id@ == id {
        Some(i)
    } else {
        agent_by_id_from(agents, id, i + 1)
    }
}

/// The first agent at or after `i` whose routing role has the key `key`.
pub open spec fn agent_by_role_from(agents: Seq<Agent>, key: Seq<char>, i: int) -> Option<int>
    decreases agents.len() - i,
{
    if i < 0 || i >= agents.len() {
        None
    } else if label_key_of(agents[i].routing_role@) == key {
        Some(i)
    } else {
        agent_by_role_from(agents, key, i + 1)
    }
}

/// Who a task is shown as going to: the name of the agent it is assigned to, or the
/// id where no agent has it; else the first agent whose routing role matches the
/// task's route, marked as inferred; else no one.
pub open spec fn assignee_of(t: Task, agents: Seq<Agent>) -> Seq<char> {
    match t.assignee_id {
        Some(a) => match agent_by_id_from(agents, a@, 0) {
            Some(j) => agents[j].name@,
            None => a@,
        },
        None => inferred_assignee_of(route_of(t.payload), agents),
    }
}

/// Who a task with the route `route` and no assignee is shown as going to: the first
/// agent whose routing role matches the route, marked as inferred; else no one.
pub open spec fn inferred_assignee_of(route: Seq<char>, agents: Seq<Agent>) -> Seq<char> {
    match agent_by_role_from(agents, label_key_of(route), 0) {
        Some(j) => agents[j].name@ + " (inferred)"@,
        None => "Unassigned"@,
    }
}

/// Who a task with the route `route` and no assignee is shown as going to.
pub fn inferred_assignee(route: &str, agents: &Vec<Agent>) -> (r: String)
    ensures
        r@ == inferred_assignee_of(route@, agents@),
{
    let key = normalize_label(route);
    let key_chars = chars_of(key.as_str());
    let mut i: usize = 0;
    while i < agents.len()
        invariant
            i <= agents.len(),
            key_chars@ == label_key_of(route@),
            agent_by_role_from(agents@, key_chars@, 0) == agent_by_role_from(
                agents@,
                key_chars@,
                i as int,
            ),
        decreases agents.len() - i,
    {
        let k = normalize_label(agents[i].routing_role.as_str());
        if chars_eq(&chars_of(k.as_str()), &key_chars) {
            let mut v = chars_of(agents[i].name.as_str());
            crate::text::append_str(&mut v, " (inferred)");
            return string_of(&v);
        }
        i = i + 1;
    }
    "Unassigned".to_string()
}

/// Who a task is shown as going to.
pub fn task_assignee_display(task: &Task, agents: &Vec<Agent>) -> (r: String)
    ensures
        r@ == assignee_of(*task, agents@),
{
    if let Some(a) = &task.assignee_id {
        let want = chars_of(a.as_str());
        let mut i: usize = 0;
        while i < agents.len()
            invariant
                i <= agents.len(),
                want@ == a@,
                task.assignee_id matches Some(x) && x@ == a@,
                agent_by_id_from(agents@, a@, 0) == agent_by_id_from(agents@, a@, i as int),
            decreases agents.len() - i,
        {
            if chars_eq(&chars_of(agents[i].id.as_str()), &want) {
                return agents[i].name.clone();
            }
            i = i + 1;
        }
        return a.clone();
    }
    let route: String = match &task.payload {
        Some(p) => match crate::json::parse_json(p.as_str()) {
            Ok(v) => route_from_value(&v),
            Err(_) => String::new(),
        },
        None => String::new(),
    };
    inferred_assignee(route.as_str(), agents)
}

/// The first `n` characters of a text.
fn prefix_chars(s: &str, n: usize) -> (r: Vec<char>)
    ensures
        r@ == crate::text::take_chars(s@, n as nat),
{
    crate::text::take_chars_exec(&chars_of(s), n)
}

/// The label of a task's row: its name, and the first eight characters of its run's
/// id where it belongs to a run.
pub fn task_row_label(task: &Task) -> (r: String)
    ensures
        task.run_id is None ==> r@ == task_display_of(*task),
        task.run_id matches Some(run) ==> r@ == task_display_of(*task) + " [run "@
            + crate::text::take_chars(run@, 8) + "]"@,
{
    let name = task_display_name(task);
    match &task.run_id {
        Some(run) => {
            let mut v = chars_of(name.as_str());
            crate::text::append_str(&mut v, " [run ");
            crate::text::append_chars(&mut v, &prefix_chars(run.as_str(), 8));
            crate::text::append_str(&mut v, "]");
            string_of(&v)
        },
        None => name,
    }
}

} // verus!

verus! {

// ---------------------------------------------------------------------------
// Collaboration cases
// ---------------------------------------------------------------------------
/// What a case shows of its read-backs, given their statuses in order: the status of
/// the latest, or `missing` where there is none.
pub fn readback_label(statuses: &Vec<String>) -> (r: String)
    ensures
        statuses.len() == 0 ==> r@ == "missing"@,
        statuses.len() > 0 ==> r@ == statuses@.last()@,
{
    if statuses.len() == 0 {
        "missing".to_string()
    } else {
        statuses[statuses.len() - 1].clone()
    }
}

/// Whether the latest read-back of a case, with the status `latest`, can be accepted:
/// it has been submitted.
pub fn readback_acceptable(latest: Option<&str>) -> (r: bool)
    ensures
        r == (latest matches Some(s) && s@ == "submitted"@),
{
    match latest {
        Some(s) => text_is(s, "submitted"),
        None => false,
    }
}

/// The consensus record awaiting a decision, given the statuses of a case's records in
/// order: the latest one proposed.
pub fn pending_consensus(statuses: &Vec<String>) -> (r: Option<usize>)
    ensures
        match r {
            Some(k) => k < statuses.len() && statuses@[k as int]@ == "proposed"@ && forall|j: int|
                k < j < statuses.len() ==> statuses@[j]@ != "proposed"@,
            None => forall|j: int| 0 <= j < statuses.len() ==> statuses@[j]@ != "proposed"@,
        },
{
    let mut n: usize = statuses.len();
    while n > 0
        invariant
            n <= statuses.len(),
            forall|j: int| n <= j < statuses.len() ==> statuses@[j]@ != "proposed"@,
        decreases n,
    {
        if text_is(statuses[n - 1].as_str(), "proposed") {
            return Some(n - 1);
        }
        n = n - 1;
    }
    None
}

} // verus!

verus! {

// ---------------------------------------------------------------------------
// The learning tab's evidence lists
// ---------------------------------------------------------------------------
/// A piece of feedback recorded about a run, as the learning tab reads it.
#[derive(Debug)]
pub struct FeedbackRecord {
    pub id: String,
    pub subject_kind: String,
    pub subject_id: String,
    pub content: String,
    pub validation_status: String,
}

/// A lesson learned, as the learning tab reads it.
#[derive(Debug)]
pub struct LessonRecord {
    pub id: String,
    pub scope_kind: String,
    pub scope_id: String,
    pub instruction: String,
    pub status: String,
}

/// A line of an evidence list: the id of what it shows, its heading and its text.
#[derive(Debug)]
pub struct EvidenceRow {
    pub id: String,
    pub heading: String,
    pub detail: String,
}

/// What an evidence row shows: its id, heading and text.
pub open spec fn evidence_view(r: EvidenceRow) -> (Seq<char>, Seq<char>, Seq<char>) {
    (r.id@, r.heading@, r.detail@)
}

pub open spec fn evidence_views(rs: Seq<EvidenceRow>) -> Seq<(Seq<char>, Seq<char>, Seq<char>)> {
    rs.map_values(|r: EvidenceRow| evidence_view(r))
}

/// At most the first ten of a list.
pub open spec fn first_ten<A>(s: Seq<A>) -> Seq<A> {
    if s.len() <= 10 {
        s
    } else {
        s.take(10)
    }
}

/// The row of a piece of feedback: its subject, and the first 180 characters of what
/// it says.
pub open spec fn feedback_row(f: FeedbackRecord) -> (Seq<char>, Seq<char>, Seq<char>) {
    (f.id@, f.subject_kind@ + ": "@ + f.subject_id@, crate::text::take_chars(f.content@, 180))
}

/// The rows of the quarantined feedback among the first `n` records, in order.
pub open spec fn quarantined_rows(fs: Seq<FeedbackRecord>, n: int) -> Seq<(Seq<char>, Seq<char>, Seq<char>)>
    decreases n,
{
    if n <= 0 {
        Seq::empty()
    } else if fs[n - 1].validation_status@ == "quarantined"@ {
        quarantined_rows(fs, n - 1).push(feedback_row(fs[n - 1]))
    } else {
        quarantined_rows(fs, n - 1)
    }
}

/// The row of a lesson: its scope, and its instruction.
pub open spec fn lesson_row(l: LessonRecord) -> (Seq<char>, Seq<char>, Seq<char>) {
    (l.id@, l.scope_kind@ + " / "@ + l.scope_id@, l.instruction@)
}

/// The rows of the validated lessons among the first `n` records, in order.
pub open spec fn validated_rows(ls: Seq<LessonRecord>, n: int) -> Seq<(Seq<char>, Seq<char>, Seq<char>)>
    decreases n,
{
    if n <= 0 {
        Seq::empty()
    } else if ls[n - 1].status@ == "validated"@ {
        validated_rows(ls, n - 1).push(lesson_row(ls[n - 1]))
    } else {
        validated_rows(ls, n - 1)
    }
}

proof fn lemma_first_ten_push<A>(s: Seq<A>, x: A)
    ensures
        first_ten(s.push(x)) == if s.len() < 10 {
            first_ten(s).push(x)
        } else {
            first_ten(s)
        },
{
    if s.len() >= 10 {
        assert(s.push(x).take(10) =~= first_ten(s));
    }
}

fn join3(a: &str, sep: &str, b: &str) -> (r: String)
    ensures
        r@ == a@ + sep@ + b@,
{
    let mut v = chars_of(a);
    crate::text::append_str(&mut v, sep);
    crate::text::append_str(&mut v, b);
    string_of(&v)
}

/// The feedback awaiting validation, as listed on the learning tab: the quarantined
/// records, in order, at most ten of them, each with its subject and the first 180
/// characters of what it says.
pub fn quarantined_feedback_rows(records: &Vec<FeedbackRecord>) -> (r: Vec<EvidenceRow>)
    ensures
        evidence_views(r@) == first_ten(quarantined_rows(records@, records.len() as int)),
{
    let mut rows: Vec<EvidenceRow> = Vec::new();
    let mut i: usize = 0;
    while i < records.len()
        invariant
            i <= records.len(),
            evidence_views(rows@) == first_ten(quarantined_rows(records@, i as int)),
        decreases records.len() - i,
    {
        let f = &records[i];
        let ghost before = rows@;
        proof {
            lemma_first_ten_push(quarantined_rows(records@, i as int), feedback_row(*f));
            reveal_strlit("quarantined");
        }
        if crate::text::str_eq(f.validation_status.as_str(), "quarantined") {
            if rows.len() < 10 {
                let row = EvidenceRow {
                    id: f.id.clone(),
                    heading: join3(f.subject_kind.as_str(), ": ", f.subject_id.as_str()),
                    detail: string_of(&crate::text::take_chars_exec(&chars_of(f.content.as_str()), 180)),
                };
                rows.push(row);
                proof {
                    assert(evidence_views(rows@) =~= evidence_views(before).push(evidence_view(row)));
                }
            }
        }
        i = i + 1;
    }
    rows
}

/// The lessons awaiting a candidate, as listed on the learning tab: the validated
/// lessons, in order, at most ten of them, each with its scope and instruction.
pub fn validated_lesson_rows(lessons: &Vec<LessonRecord>) -> (r: Vec<EvidenceRow>)
    ensures
        evidence_views(r@) == first_ten(validated_rows(lessons@, lessons.len() as int)),
{
    let mut rows: Vec<EvidenceRow> = Vec::new();
    let mut i: usize = 0;
    while i < lessons.len()
        invariant
            i <= lessons.len(),
            evidence_views(rows@) == first_ten(validated_rows(lessons@, i as int)),
        decreases lessons.len() - i,
    {
        let l = &lessons[i];
        let ghost before = rows@;
        proof {
            lemma_first_ten_push(validated_rows(lessons@, i as int), lesson_row(*l));
            reveal_strlit("validated");
        }
        if crate::text::str_eq(l.status.as_str(), "validated") {
            if rows.len() < 10 {
                let row = EvidenceRow {
                    id: l.id.clone(),
                    heading: join3(l.scope_kind.as_str(), " / ", l.scope_id.as_str()),
                    detail: l.instruction.clone(),
                };
                rows.push(row);
                proof {
                    assert(evidence_views(rows@) =~= evidence_views(before).push(evidence_view(row)));
                }
            }
        }
        i = i + 1;
    }
    rows
}

} // verus!

verus! {

// ---------------------------------------------------------------------------
// The learning tab's telemetry
// ---------------------------------------------------------------------------
/// The telemetry lines of the learning tab.
#[derive(Debug)]
pub struct LearningTelemetry {
    /// The benchmark runner's jobs.
    pub jobs: String,
    /// The benchmark runs.
    pub runs: String,
    /// The canary deployments running.
    pub deployments: String,
    /// The canary observations.
    pub observations: String,
}

fn counted(n: usize, rest: &str) -> (r: Vec<char>)
    ensures
        r@ == crate::text::decimal(n as nat) + rest@,
{
    let mut v = crate::text::decimal_chars(n as u64);
    crate::text::append_str(&mut v, rest);
    v
}

/// The telemetry of the learning tab, over the statuses of the benchmark jobs, the
/// benchmark runs and the canary deployments of all candidates, and the verdicts of
/// all their canary observations.
pub fn learning_telemetry(
    job_statuses: &Vec<String>,
    run_statuses: &Vec<String>,
    deployment_statuses: &Vec<String>,
    verdicts: &Vec<String>,
) -> (r: LearningTelemetry)
    ensures
        r.jobs@ == crate::text::decimal(count_of(texts(job_statuses@), "queued"@)) + " queued | "@
            + crate::text::decimal(count_of(texts(job_statuses@), "running"@)) + " running | "@
            + crate::text::decimal(count_of(texts(job_statuses@), "failed"@)) + " failed jobs"@,
        r.runs@ == crate::text::decimal(count_of(texts(run_statuses@), "passed"@)) + " passed | "@
            + crate::text::decimal(count_of(texts(run_statuses@), "failed"@)) + " failed runs"@,
        r.deployments@ == crate::text::decimal(count_of(texts(deployment_statuses@), "running"@))
            + " running deployments"@,
        r.observations@ == crate::text::decimal(count_of(texts(verdicts@), "pass"@)) + " pass | "@
            + crate::text::decimal(count_of(texts(verdicts@), "fail"@)) + " fail observations"@,
{
    let mut jobs = counted(count_status(job_statuses, "queued"), " queued | ");
    crate::text::append_chars(&mut jobs, &counted(count_status(job_statuses, "running"), " running | "));
    crate::text::append_chars(&mut jobs, &counted(count_status(job_statuses, "failed"), " failed jobs"));
    let mut runs = counted(count_status(run_statuses, "passed"), " passed | ");
    crate::text::append_chars(&mut runs, &counted(count_status(run_statuses, "failed"), " failed runs"));
    let deployments = counted(count_status(deployment_statuses, "running"), " running deployments");
    let mut observations = counted(count_status(verdicts, "pass"), " pass | ");
    crate::text::append_chars(&mut observations, &counted(count_status(verdicts, "fail"), " fail observations"));
    LearningTelemetry {
        jobs: string_of(&jobs),
        runs: string_of(&runs),
        deployments: string_of(&deployments),
        observations: string_of(&observations),
    }
}

/// The note shown in place of an empty evidence list: for the feedback list where
/// `lessons` is false, for the lesson list otherwise; none where the list has rows.
pub fn evidence_placeholder(rows: usize, lessons: bool) -> (r: Option<&'static str>)
    ensures
        rows > 0 ==> r is None,
        rows == 0 && !lessons ==> (r matches Some(s) && s@ == "No feedback awaits validation."@),
        rows == 0 && lessons ==> (r matches Some(s) && s@
            == "No validated lesson is waiting for versioning."@),
{
    if rows > 0 {
        None
    } else if lessons {
        Some("No validated lesson is waiting for versioning.")
    } else {
        Some("No feedback awaits validation.")
    }
}

} // verus!
