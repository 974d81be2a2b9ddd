//! Teams, agents and instances: the checks of their forms and the changes that
//! managing a team's members makes.
use crate::text::{chars_eq, chars_of, string_of, trim};
use vstd::prelude::*;

verus! {

// ---------------------------------------------------------------------------
// Membership
// ---------------------------------------------------------------------------
/// The set of texts of a list of strings.
pub open spec fn text_set(v: Seq<String>) -> Set<Seq<char>> {
    Set::new(|s: Seq<char>| exists|i: int| 0 <= i < v.len() && (#[trigger] v[i])@ == s)
}

/// Whether the text `s` is one of `v`.
pub fn has_text(v: &Vec<String>, s: &str) -> (r: bool)
    ensures
        r == text_set(v@).contains(s@),
{
    let want = chars_of(s);
    let mut i: usize = 0;
    while i < v.len()
        invariant
            i <= v.len(),
            want@ == s@,
            forall|k: int| 0 <= k < i ==> (#[trigger] v@[k])@ != s@,
        decreases v.len() - i,
    {
        if chars_eq(&chars_of(v[i].as_str()), &want) {
            assert(v@[i as int]@ == s@);
            return true;
        }
        i = i + 1;
    }
    false
}

/// The texts of `from` that are not in `minus`, each once, in the order of `from`.
fn difference(from: &Vec<String>, minus: &Vec<String>) -> (r: Vec<String>)
    ensures
        text_set(r@) == text_set(from@).difference(text_set(minus@)),
        forall|i: int, j: int| 0 <= i < j < r.len() ==> (#[trigger] r@[i])@ != (#[trigger] r@[j])@,
{
    let mut r: Vec<String> = Vec::new();
    let mut i: usize = 0;
    while i < from.len()
        invariant
            i <= from.len(),
            text_set(r@) == text_set(from@.take(i as int)).difference(text_set(minus@)),
            forall|a: int, b: int| 0 <= a < b < r.len() ==> (#[trigger] r@[a])@ != (#[trigger] r@[b])@,
        decreases from.len() - i,
    {
        let s = from[i].as_str();
        let ghost before = r@;
        let in_minus = has_text(minus, s);
        let in_r = has_text(&r, s);
        if !in_minus && !in_r {
            r.push(from[i].clone());
        }
        proof {
            let x = from@[i as int]@;
            assert forall|t: Seq<char>| text_set(r@).contains(t) <==> (text_set(
                from@.take(i + 1),
            ).contains(t) && !text_set(minus@).contains(t)) by {
                if text_set(from@.take(i + 1)).contains(t) {
                    let k = choose|k: int| 0 <= k < i + 1 && (#[trigger] from@.take(i + 1)[k])@ == t;
                    if k < i {
                        assert(from@.take(i as int)[k] == from@.take(i + 1)[k]);
                        assert(text_set(from@.take(i as int)).contains(t));
                    } else {
                        assert(t == x);
                    }
                }
                if text_set(from@.take(i as int)).contains(t) {
                    let k = choose|k: int| 0 <= k < i && (#[trigger] from@.take(i as int)[k])@ == t;
                    assert(from@.take(i + 1)[k] == from@.take(i as int)[k]);
                    assert(text_set(from@.take(i + 1)).contains(t));
                }
                if t == x {
                    assert(from@.take(i + 1)[i as int] == from@[i as int]);
                    assert(text_set(from@.take(i + 1)).contains(t));
                }
                if text_set(r@).contains(t) {
                    let k = choose|k: int| 0 <= k < r@.len() && (#[trigger] r@[k])@ == t;
                    if k < before.len() {
                        assert(before[k] == r@[k]);
                        assert(text_set(before).contains(t));
                    } else {
                        assert(t == x);
                    }
                }
                if text_set(before).contains(t) {
                    let k = choose|k: int| 0 <= k < before.len() && (#[trigger] before[k])@ == t;
                    assert(r@[k] == before[k]);
                    assert(text_set(r@).contains(t));
                }
                if t == x && r@.len() > before.len() {
                    assert(r@[before.len() as int]@ == t);
                    assert(text_set(r@).contains(t));
                }
            }
            assert(text_set(r@) =~= text_set(from@.take(i + 1)).difference(text_set(minus@)));
        }
        i = i + 1;
    }
    assert(from@.take(from.len() as int) =~= from@);
    r
}

/// What managing a team's members changes: the agents to add and those to remove.
#[derive(Debug)]
pub struct MembershipChanges {
    pub to_add: Vec<String>,
    pub to_remove: Vec<String>,
}

/// The agents to add to a team and those to remove from it, so that its members
/// become those selected: each once, those to add in the order of the selection,
/// those to remove in the order of the current members.
pub fn membership_changes(current: &Vec<String>, selected: &Vec<String>) -> (r: MembershipChanges)
    ensures
        text_set(r.to_add@) == text_set(selected@).difference(text_set(current@)),
        text_set(r.to_remove@) == text_set(current@).difference(text_set(selected@)),
        forall|i: int, j: int|
            0 <= i < j < r.to_add.len() ==> (#[trigger] r.to_add@[i])@ != (#[trigger] r.to_add@[j])@,
        forall|i: int, j: int|
            0 <= i < j < r.to_remove.len() ==> (#[trigger] r.to_remove@[i])@ != (
            #[trigger] r.to_remove@[j])@,
{
    MembershipChanges { to_add: difference(selected, current), to_remove: difference(current, selected) }
}

/// Managing a team makes its members exactly the agents selected: the current
/// members, with those to add and without those to remove, are the selection.
pub proof fn law_membership_changes_reach_selection(
    current: Set<Seq<char>>,
    selected: Set<Seq<char>>,
)
    ensures
        current.union(selected.difference(current)).difference(current.difference(selected))
            == selected,
{
    assert(current.union(selected.difference(current)).difference(current.difference(selected))
        =~= selected);
}

// ---------------------------------------------------------------------------
// Team form
// ---------------------------------------------------------------------------
/// Why a team, agent or instance form was refused.
#[derive(Clone, Copy, PartialEq, Eq, Debug, Structural)]
pub enum FormError {
    MissingTeamName,
    NoAgentSelected,
    MissingAgentName,
    NoTemplateSelected,
    MissingInstanceName,
}

pub open spec fn form_error_text(e: FormError) -> Seq<char> {
    match e {
        FormError::MissingTeamName => "Team name is required."@,
        FormError::NoAgentSelected => "Please select at least one agent."@,
        FormError::MissingAgentName => "Agent name is required."@,
        FormError::NoTemplateSelected => "Please select a template."@,
        FormError::MissingInstanceName => "Instance name is required."@,
    }
}

impl FormError {
    /// The message shown for the refusal.
    pub fn message(&self) -> (r: &'static str)
        ensures
            r@ == form_error_text(*self),
    {
        match self {
            FormError::MissingTeamName => "Team name is required.",
            FormError::NoAgentSelected => "Please select at least one agent.",
            FormError::MissingAgentName => "Agent name is required.",
            FormError::NoTemplateSelected => "Please select a template.",
            FormError::MissingInstanceName => "Instance name is required.",
        }
    }
}

/// A text trimmed, where it is not blank.
pub open spec fn optional_text(s: Seq<char>) -> Option<Seq<char>> {
    if trim(s).len() == 0 {
        None
    } else {
        Some(trim(s))
    }
}

/// The view of an optional string.
pub open spec fn opt_view(o: Option<String>) -> Option<Seq<char>> {
    match o {
        Some(s) => Some(s@),
        None => None,
    }
}

fn optional_field(s: &str) -> (r: Option<String>)
    ensures
        opt_view(r) == optional_text(s@),
{
    let t = crate::text::trim_chars(&chars_of(s));
    if t.len() == 0 {
        None
    } else {
        Some(string_of(&t))
    }
}

fn trimmed(s: &str) -> (r: String)
    ensures
        r@ == trim(s@),
{
    string_of(&crate::text::trim_chars(&chars_of(s)))
}

/// A team as the form describes it.
#[derive(Debug)]
pub struct TeamDraft {
    pub name: String,
    pub description: Option<String>,
    pub objectives: Option<String>,
}

/// The team that the form describes: refused where the name is blank, then where no
/// agent is selected; the name is trimmed, and the description and objectives are
/// kept, trimmed, where they are not blank.
pub fn draft_team(name: &str, description: &str, objectives: &str, selected_agents: usize) -> (r:
    Result<TeamDraft, FormError>)
    ensures
        trim(name@).len() == 0 ==> r matches Err(FormError::MissingTeamName),
        trim(name@).len() > 0 && selected_agents == 0 ==> r matches Err(FormError::NoAgentSelected),
        trim(name@).len() > 0 && selected_agents > 0 ==> (r matches Ok(t) && t.name@ == trim(name@)
            && opt_view(t.description) == optional_text(description@) && opt_view(t.objectives)
            == optional_text(objectives@)),
{
    let n = trimmed(name);
    if chars_of(n.as_str()).len() == 0 {
        return Err(FormError::MissingTeamName);
    }
    if selected_agents == 0 {
        return Err(FormError::NoAgentSelected);
    }
    Ok(
        TeamDraft {
            name: n,
            description: optional_field(description),
            objectives: optional_field(objectives),
        },
    )
}

// ---------------------------------------------------------------------------
// Agent form
// ---------------------------------------------------------------------------
/// An agent as the form describes it.
#[derive(Debug)]
pub struct AgentDraft {
    pub name: String,
    /// The label of the provider chosen.
    pub provider: String,
    pub system_prompt: Option<String>,
}

/// The agent that the form describes: refused where the name is blank; the provider
/// chosen, or `unconfigured`; the system prompt kept, trimmed, where it is not blank.
pub fn draft_agent(name: &str, provider: Option<&str>, system_prompt: &str) -> (r: Result<
    AgentDraft,
    FormError,
>)
    ensures
        trim(name@).len() == 0 ==> r matches Err(FormError::MissingAgentName),
        trim(name@).len() > 0 ==> (r matches Ok(a) && a.name@ == trim(name@) && a.provider@ == match provider {
            Some(p) => p@,
            None => "unconfigured"@,
        } && opt_view(a.system_prompt) == optional_text(system_prompt@)),
{
    let n = trimmed(name);
    if chars_of(n.as_str()).len() == 0 {
        return Err(FormError::MissingAgentName);
    }
    let p = match provider {
        Some(p) => crate::text::string_from(p),
        None => "unconfigured".to_string(),
    };
    Ok(AgentDraft { name: n, provider: p, system_prompt: optional_field(system_prompt) })
}

/// An agent as it is stored.
#[derive(Debug)]
pub struct AgentRecord {
    pub id: String,
    pub name: String,
    /// The label of its provider.
    pub provider: String,
    pub system_prompt: Option<String>,
    /// Its configuration, as JSON text.
    pub config: Option<String>,
    pub status: String,
    pub created_at: String,
    pub updated_at: String,
}

/// `a` is the agent `old` as the edit form saves it at the time `now`, with the
/// configuration text `config`: the name trimmed, the provider chosen (else the one
/// it had), the system prompt trimmed where it is not blank; its id, status and
/// creation time kept.
pub open spec fn edited_agent_of(
    a: AgentRecord,
    old: AgentRecord,
    name: Seq<char>,
    provider: Option<Seq<char>>,
    system_prompt: Seq<char>,
    config: Seq<char>,
    now: Seq<char>,
) -> bool {
    &&& a.id@ == old.id@
    &&& a.name@ == trim(name)
    &&& a.provider@ == match provider {
        Some(p) => p,
        None => old.provider@,
    }
    &&& opt_view(a.system_prompt) == optional_text(system_prompt)
    &&& opt_view(a.config) == Some(config)
    &&& a.status@ == old.status@
    &&& a.created_at@ == old.created_at@
    &&& a.updated_at@ == now
}

fn opt_str_view(o: Option<&str>) -> (r: Option<String>)
    ensures
        opt_view(r) == match o {
            Some(s) => Some(s@),
            None => None::<Seq<char>>,
        },
{
    match o {
        Some(s) => Some(crate::text::string_from(s)),
        None => None,
    }
}

/// The agent `old` as the edit form saves it at the time `now`: refused where the name
/// is blank; `config` is the configuration text the form's role and details make.
pub fn edited_agent_at(
    old: &AgentRecord,
    name: &str,
    provider: Option<&str>,
    system_prompt: &str,
    config: String,
    now: String,
) -> (r: Result<AgentRecord, FormError>)
    ensures
        trim(name@).len() == 0 ==> r matches Err(FormError::MissingAgentName),
        trim(name@).len() > 0 ==> (r matches Ok(a) && edited_agent_of(
            a,
            *old,
            name@,
            match provider {
                Some(p) => Some(p@),
                None => None::<Seq<char>>,
            },
            system_prompt@,
            config@,
            now@,
        )),
{
    let n = trimmed(name);
    if chars_of(n.as_str()).len() == 0 {
        return Err(FormError::MissingAgentName);
    }
    let p = match provider {
        Some(p) => crate::text::string_from(p),
        None => old.provider.clone(),
    };
    let cfg = opt_str_view(Some(config.as_str()));
    Ok(
        AgentRecord {
            id: old.id.clone(),
            name: n,
            provider: p,
            system_prompt: optional_field(system_prompt),
            config: cfg,
            status: old.status.clone(),
            created_at: old.created_at.clone(),
            updated_at: now,
        },
    )
}

/// The agent `old` as the edit form saves it now, stamped with the current time:
/// as `edited_agent_at` says, whatever the clock gave.
pub fn edited_agent(
    old: &AgentRecord,
    name: &str,
    provider: Option<&str>,
    system_prompt: &str,
    config: String,
) -> (r: Result<AgentRecord, FormError>)
    ensures
        trim(name@).len() == 0 ==> r matches Err(FormError::MissingAgentName),
        trim(name@).len() > 0 ==> (r matches Ok(a) && edited_agent_of(
            a,
            *old,
            name@,
            match provider {
                Some(p) => Some(p@),
                None => None::<Seq<char>>,
            },
            system_prompt@,
            config@,
            a.updated_at@,
        ) && crate::clock::is_utc_rfc3339(a.updated_at@)),
{
    let now = crate::clock::now_rfc3339();
    edited_agent_at(old, name, provider, system_prompt, config, now)
}

/// The label of a provider in the agent forms: its name, a slash and its model.
pub fn provider_option_label(provider_name: &str, model: &str) -> (r: String)
    ensures
        r@ == provider_name@ + " / "@ + model@,
{
    let mut v = chars_of(provider_name);
    crate::text::append_str(&mut v, " / ");
    crate::text::append_str(&mut v, model);
    string_of(&v)
}

/// The role and details that an agent's stored configuration holds, where it parsed
/// to `v`: its `role` and `details` texts, empty where missing.
pub open spec fn config_fields_of(v: crate::json::JsonValue) -> (Seq<char>, Seq<char>) {
    (
        match crate::json::json_text(crate::json::json_get(v, "role"@)) {
            Some(r) => r,
            None => Seq::<char>::empty(),
        },
        match crate::json::json_text(crate::json::json_get(v, "details"@)) {
            Some(d) => d,
            None => Seq::<char>::empty(),
        },
    )
}

/// The role and details read from an agent's configuration that parsed to `v`.
pub fn config_fields_from_value(v: &crate::json::JsonValue) -> (r: (String, String))
    ensures
        (r.0@, r.1@) == config_fields_of(*v),
{
    let role = match crate::json::text_of(crate::json::get(v, "role")) {
        Some(s) => s.clone(),
        None => String::new(),
    };
    let details = match crate::json::text_of(crate::json::get(v, "details")) {
        Some(s) => s.clone(),
        None => String::new(),
    };
    (role, details)
}

/// The role and details that the edit form of an agent starts with: read from its
/// configuration where that parses as JSON, else empty.
pub fn agent_config_fields(config: Option<&str>) -> (r: (String, String))
    ensures
        (r.0@, r.1@) == match config {
            Some(c) => match crate::json::serde_json_from_str(c@) {
                Ok(v) => config_fields_of(v),
                Err(_) => (Seq::<char>::empty(), Seq::<char>::empty()),
            },
            None => (Seq::<char>::empty(), Seq::<char>::empty()),
        },
{
    match config {
        Some(c) => match crate::json::parse_json(c) {
            Ok(v) => config_fields_from_value(&v),
            Err(_) => (String::new(), String::new()),
        },
        None => (String::new(), String::new()),
    }
}

// ---------------------------------------------------------------------------
// Instance form
// ---------------------------------------------------------------------------
/// A team as the instance form offers it.
#[derive(Debug)]
pub struct TeamChoice {
    pub id: String,
    pub name: String,
}

/// The first team at or after `i` with the name `name`.
pub open spec fn team_by_name_from(teams: Seq<TeamChoice>, name: Seq<char>, i: int) -> Option<int>
    decreases teams.len() - i,
{
    if i < 0 || i >= teams.len() {
        None
    } else if teams[i].name@ == name {
        Some(i)
    } else {
        team_by_name_from(teams, name, i + 1)
    }
}

/// An instance as the form describes it.
#[derive(Debug)]
pub struct InstanceDraft {
    pub team_id: String,
    pub name: String,
    pub config: Option<String>,
}

/// The instance that the form describes: refused where no team template with the
/// chosen name exists, then where the name is blank; the name trimmed, the
/// configuration kept, trimmed, where it is not blank.
pub fn draft_instance(template: Option<&str>, teams: &Vec<TeamChoice>, name: &str, config: &str) -> (r:
    Result<InstanceDraft, FormError>)
    ensures
        (match template {
            Some(t) => team_by_name_from(teams@, t@, 0),
            None => None,
        }) is None ==> r matches Err(FormError::NoTemplateSelected),
        (match template {
            Some(t) => team_by_name_from(teams@, t@, 0),
            None => None,
        }) matches Some(k) ==> (if trim(name@).len() == 0 {
            r matches Err(FormError::MissingInstanceName)
        } else {
            r matches Ok(d) && d.team_id@ == teams@[k].id@ && d.name@ == trim(name@) && opt_view(
                d.config,
            ) == optional_text(config@)
        }),
{
    let t = match template {
        Some(t) => t,
        None => {
            return Err(FormError::NoTemplateSelected);
        },
    };
    let want = chars_of(t);
    let mut i: usize = 0;
    let mut found: Option<usize> = None;
    while i < teams.len() && found.is_none()
        invariant
            i <= teams.len(),
            want@ == t@,
            found matches Some(k) ==> team_by_name_from(teams@, t@, 0) == Some(k as int) && k
                < teams.len(),
            found is None ==> team_by_name_from(teams@, t@, 0) == team_by_name_from(
                teams@,
                t@,
                i as int,
            ),
        decreases teams.len() - i,
    {
        if chars_eq(&chars_of(teams[i].name.as_str()), &want) {
            found = Some(i);
        }
        i = i + 1;
    }
    let k = match found {
        Some(k) => k,
        None => {
            return Err(FormError::NoTemplateSelected);
        },
    };
    let n = trimmed(name);
    if chars_of(n.as_str()).len() == 0 {
        return Err(FormError::MissingInstanceName);
    }
    Ok(InstanceDraft { team_id: teams[k].id.clone(), name: n, config: optional_field(config) })
}

/// The base of an instance id: the name with each space a `-`, before it is put in
/// lower case.
pub open spec fn instance_slug_of(name: Seq<char>) -> Seq<char> {
    crate::text::unicode_lowercase(crate::text::replace_all(name, " "@, "-"@))
}

/// An instance id: the name with spaces as dashes, in lower case, a dash, and the
/// first four characters of a random id.
pub fn new_instance_id(name: &str) -> (r: String)
    ensures
        crate::text::starts_with(r@, instance_slug_of(name@) + "-"@),
        r@.len() == instance_slug_of(name@).len() + 5,
        forall|i: int|
            r@.len() - 4 <= i < r@.len() ==> crate::ids::is_lower_hex(#[trigger] r@[i]),
{
    let dashed = string_of(&crate::text::replace_str(&chars_of(name), " ", "-"));
    let slug = crate::text::to_lowercase(dashed.as_str());
    let id = crate::ids::new_uuid_text();
    let mut v = chars_of(slug.as_str());
    crate::text::append_str(&mut v, "-");
    let ghost pre = v@;
    let head = crate::text::take_chars_exec(&chars_of(id.as_str()), 4);
    crate::text::append_chars(&mut v, &head);
    proof {
        reveal_strlit("-");
        assert(head@ =~= id@.take(4));
        assert forall|i: int| 0 <= i < 4 implies crate::ids::is_lower_hex(#[trigger] head@[i]) by {
            assert(head@[i] == id@[i]);
        }
        assert(v@ =~= pre + head@);
        assert forall|i: int| v@.len() - 4 <= i < v@.len() implies crate::ids::is_lower_hex(
            #[trigger] v@[i],
        ) by {
            assert(v@[i] == head@[i - pre.len()]);
        }
    }
    assert(v@.subrange(0, pre.len() as int) =~= pre);
    string_of(&v)
}

} // verus!
