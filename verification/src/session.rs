//! Skills learned from recorded actions, as the session panel lists them.
use crate::text::{chars_eq, chars_of};
use vstd::prelude::*;

verus! {

#[derive(Clone, Copy, PartialEq, Eq, Debug, Structural)]
pub enum SkillStatus {
    Learning,
    Active,
    Paused,
}

#[derive(Debug)]
pub struct LearnedSkill {
    pub id: String,
    pub name: String,
    pub description: String,
    pub status: SkillStatus,
    pub steps: Vec<String>,
    pub execution_count: usize,
}

/// The status of a learned skill from the activation status stored with its workflow.
pub open spec fn skill_status_of(activation: Seq<char>) -> SkillStatus {
    if activation == "active"@ {
        SkillStatus::Active
    } else if activation == "paused"@ {
        SkillStatus::Paused
    } else {
        SkillStatus::Learning
    }
}

impl SkillStatus {
    pub fn from_activation(activation: &str) -> (r: SkillStatus)
        ensures
            r == skill_status_of(activation@),
    {
        let a = chars_of(activation);
        if chars_eq(&a, &chars_of("active")) {
            SkillStatus::Active
        } else if chars_eq(&a, &chars_of("paused")) {
            SkillStatus::Paused
        } else {
            SkillStatus::Learning
        }
    }
}

pub open spec fn learned_description() -> Seq<char> {
    "Learned workflow from recorded MCP actions. Review is required before it can be linked to an execution run."@
}

pub open spec fn unparsed_step() -> Seq<char> {
    "Failed to parse workflow definition"@
}

/// Whether a stored workflow was learned from recorded actions (and so is listed as a skill).
pub fn is_learned_workflow(origin_kind: &str) -> (r: bool)
    ensures
        r == (origin_kind@ == "learned"@),
{
    crate::text::str_eq(origin_kind, "learned")
}

impl LearnedSkill {
    /// The skill listed for a learned workflow: `steps` holds the names of its nodes, or
    /// is `None` when its definition could not be read.
    pub fn from_workflow(id: String, name: String, activation: &str, steps: Option<Vec<String>>) -> (r:
        LearnedSkill)
        ensures
            r.id == id,
            r.name == name,
            r.description@ == learned_description(),
            r.status == skill_status_of(activation@),
            match steps {
                Some(s) => r.steps@ == s@,
                None => r.steps@.len() == 1 && r.steps@[0]@ == unparsed_step(),
            },
            r.execution_count == 0,
    {
        let steps = match steps {
            Some(s) => s,
            None => vec![crate::text::string_from("Failed to parse workflow definition")],
        };
        LearnedSkill {
            id,
            name,
            description: crate::text::string_from(
                "Learned workflow from recorded MCP actions. Review is required before it can be linked to an execution run.",
            ),
            status: SkillStatus::from_activation(activation),
            steps,
            execution_count: 0,
        }
    }
}

} // verus!

verus! {

// ---------------------------------------------------------------------------
// Enabling skills
// ---------------------------------------------------------------------------
/// A stored choice of a capability.
#[derive(Debug)]
pub struct CapabilitySelection {
    pub capability_kind: String,
    pub capability_id: String,
    pub enabled: bool,
}

/// The ids of the capabilities of the kind `kind` enabled among `sel`, in order.
pub open spec fn enabled_of(sel: Seq<CapabilitySelection>, kind: Seq<char>) -> Seq<Seq<char>>
    decreases sel.len(),
{
    if sel.len() == 0 {
        Seq::<Seq<char>>::empty()
    } else {
        let prev = enabled_of(sel.drop_last(), kind);
        let s = sel.last();
        if s.enabled && s.capability_kind@ == kind {
            prev.push(s.capability_id@)
        } else {
            prev
        }
    }
}

/// The ids of the skills that stored choices enable.
pub fn enabled_skill_ids(selections: &Vec<CapabilitySelection>) -> (r: Vec<String>)
    ensures
        crate::orchestration::texts(r@) == enabled_of(selections@, "skill"@),
{
    enabled_capability_ids(selections, "skill")
}

/// The ids of the capabilities of the kind `kind` (a skill, an MCP tool) that stored
/// choices enable.
pub fn enabled_capability_ids(selections: &Vec<CapabilitySelection>, kind: &str) -> (r: Vec<String>)
    ensures
        crate::orchestration::texts(r@) == enabled_of(selections@, kind@),
{
    let mut r: Vec<String> = Vec::new();
    let mut i: usize = 0;
    while i < selections.len()
        invariant
            i <= selections.len(),
            crate::orchestration::texts(r@) == enabled_of(selections@.take(i as int), kind@),
        decreases selections.len() - i,
    {
        assert(selections@.take(i + 1).drop_last() =~= selections@.take(i as int));
        let s = &selections[i];
        if s.enabled && crate::text::str_eq(s.capability_kind.as_str(), kind) {
            r.push(s.capability_id.clone());
            assert(crate::orchestration::texts(r@) =~= enabled_of(selections@.take(i + 1), kind@));
        }
        i = i + 1;
    }
    assert(selections@.take(selections.len() as int) =~= selections@);
    r
}

/// The set of enabled skills after a click on the skill `id`: it is disabled where it
/// was enabled, and enabled where it was not.
pub open spec fn toggled(enabled: Set<Seq<char>>, id: Seq<char>) -> Set<Seq<char>> {
    if enabled.contains(id) {
        enabled.remove(id)
    } else {
        enabled.insert(id)
    }
}

/// Switches the skill `id` on or off in the set of enabled skills; returns whether it
/// is now enabled.
pub fn toggle_skill(enabled: &mut Vec<String>, id: &str) -> (r: bool)
    ensures
        crate::teams::text_set(final(enabled)@) == toggled(crate::teams::text_set(old(enabled)@), id@),
        r == !crate::teams::text_set(old(enabled)@).contains(id@),
{
    let was = crate::teams::has_text(enabled, id);
    if was {
        let ghost start = enabled@;
        let mut kept: Vec<String> = Vec::new();
        let mut i: usize = 0;
        let want = chars_of(id);
        while i < enabled.len()
            invariant
                i <= enabled.len(),
                enabled@ == start,
                want@ == id@,
                crate::teams::text_set(kept@) == crate::teams::text_set(start.take(i as int)).remove(
                    id@,
                ),
            decreases enabled.len() - i,
        {
            let ghost before = kept@;
            let same = chars_eq(&chars_of(enabled[i].as_str()), &want);
            if !same {
                kept.push(enabled[i].clone());
            }
            proof {
                let x = start[i as int]@;
                assert forall|t: Seq<char>| crate::teams::text_set(kept@).contains(t) <==> (
                crate::teams::text_set(start.take(i + 1)).contains(t) && t != id@) by {
                    if crate::teams::text_set(start.take(i + 1)).contains(t) {
                        let k = choose|k: int|
                            0 <= k < i + 1 && (#[trigger] start.take(i + 1)[k])@ == t;
                        if k < i {
                            assert(start.take(i as int)[k] == start.take(i + 1)[k]);
                            assert(crate::teams::text_set(start.take(i as int)).contains(t));
                        }
                    }
                    if crate::teams::text_set(start.take(i as int)).contains(t) {
                        let k = choose|k: int| 0 <= k < i && (#[trigger] start.take(i as int)[k])@ == t;
                        assert(start.take(i + 1)[k] == start.take(i as int)[k]);
                    }
                    if t == x {
                        assert(start.take(i + 1)[i as int] == start[i as int]);
                    }
                    if crate::teams::text_set(kept@).contains(t) {
                        let k = choose|k: int| 0 <= k < kept@.len() && (#[trigger] kept@[k])@ == t;
                        if k < before.len() {
                            assert(before[k] == kept@[k]);
                            assert(crate::teams::text_set(before).contains(t));
                        }
                    }
                    if crate::teams::text_set(before).contains(t) {
                        let k = choose|k: int| 0 <= k < before.len() && (#[trigger] before[k])@ == t;
                        assert(kept@[k] == before[k]);
                    }
                    if t == x && !same {
                        assert(kept@[before.len() as int]@ == t);
                    }
                }
                assert(crate::teams::text_set(kept@) =~= crate::teams::text_set(start.take(i + 1)).remove(
                    id@,
                ));
            }
            i = i + 1;
        }
        assert(start.take(start.len() as int) =~= start);
        *enabled = kept;
        false
    } else {
        let ghost start = enabled@;
        enabled.push(crate::text::string_from(id));
        proof {
            assert forall|t: Seq<char>| crate::teams::text_set(enabled@).contains(t) <==> (
            crate::teams::text_set(start).contains(t) || t == id@) by {
                if crate::teams::text_set(enabled@).contains(t) {
                    let k = choose|k: int| 0 <= k < enabled@.len() && (#[trigger] enabled@[k])@ == t;
                    if k < start.len() {
                        assert(start[k] == enabled@[k]);
                    }
                }
                if crate::teams::text_set(start).contains(t) {
                    let k = choose|k: int| 0 <= k < start.len() && (#[trigger] start[k])@ == t;
                    assert(enabled@[k] == start[k]);
                }
                if t == id@ {
                    assert(enabled@[start.len() as int]@ == t);
                }
            }
            assert(crate::teams::text_set(enabled@) =~= crate::teams::text_set(start).insert(id@));
        }
        true
    }
}

/// A second click on a skill undoes the first: the set of enabled skills is back as
/// it was.
pub proof fn law_toggle_twice(enabled: Set<Seq<char>>, id: Seq<char>)
    ensures
        toggled(toggled(enabled, id), id) == enabled,
{
    if enabled.contains(id) {
        assert(enabled.remove(id).insert(id) =~= enabled);
    } else {
        assert(enabled.insert(id).remove(id) =~= enabled);
    }
}

pub open spec fn status_badge(s: SkillStatus) -> Seq<char> {
    match s {
        SkillStatus::Active => "Active"@,
        SkillStatus::Paused => "Paused"@,
        SkillStatus::Learning => "Learning"@,
    }
}

pub open spec fn status_detail(s: SkillStatus) -> Seq<char> {
    match s {
        SkillStatus::Learning => "Review required"@,
        SkillStatus::Active => "Linked to execution"@,
        SkillStatus::Paused => "Paused"@,
    }
}

impl SkillStatus {
    /// The badge shown for the status in the list of skills.
    pub fn badge(&self) -> (r: &'static str)
        ensures
            r@ == status_badge(*self),
    {
        match self {
            SkillStatus::Active => "Active",
            SkillStatus::Paused => "Paused",
            SkillStatus::Learning => "Learning",
        }
    }

    /// What the status means for the skill, as its page says.
    pub fn detail(&self) -> (r: &'static str)
        ensures
            r@ == status_detail(*self),
    {
        match self {
            SkillStatus::Learning => "Review required",
            SkillStatus::Active => "Linked to execution",
            SkillStatus::Paused => "Paused",
        }
    }
}

} // verus!
