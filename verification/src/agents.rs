//! The agents panel: the figures at its head and the status an agent is switched to.
use crate::orchestration::{count_labels, tallies, texts};
use crate::text::unicode_lowercase;
use vstd::prelude::*;

verus! {

/// The agent with the status `s` is online: its status, in lower case by Unicode's
/// rules, is not `offline`.
pub open spec fn is_online_status(s: Seq<char>) -> bool {
    unicode_lowercase(s) != "offline"@
}

/// Whether an agent with the status `status` counts as online.
pub fn agent_is_online(status: &str) -> (r: bool)
    ensures
        r == is_online_status(status@),
{
    let l = crate::text::to_lowercase(status);
    !crate::text::str_eq(l.as_str(), "offline")
}

/// How many of `statuses` are online.
pub open spec fn online_count(statuses: Seq<Seq<char>>) -> nat
    decreases statuses.len(),
{
    if statuses.len() == 0 {
        0
    } else {
        online_count(statuses.drop_last()) + if is_online_status(statuses.last()) {
            1nat
        } else {
            0nat
        }
    }
}

/// The figures at the head of the agents panel.
#[derive(Clone, Copy, PartialEq, Eq, Debug, Structural)]
pub struct AgentFigures {
    pub total: usize,
    pub online: usize,
    /// The number of distinct providers the agents use.
    pub providers: usize,
}

/// The figures at the head of the agents panel, for the agents' statuses and
/// providers.
pub fn agent_figures(statuses: &Vec<String>, providers: &Vec<String>) -> (r: AgentFigures)
    ensures
        r.total == statuses.len(),
        r.online == online_count(texts(statuses@)),
        exists|t: Seq<(String, usize)>|
            #![trigger tallies(texts(providers@), t)]
            tallies(texts(providers@), t) && r.providers == t.len(),
{
    let ghost all = texts(statuses@);
    let mut online: usize = 0;
    let mut i: usize = 0;
    while i < statuses.len()
        invariant
            i <= statuses.len(),
            all == texts(statuses@),
            online == online_count(all.take(i as int)),
            online <= i,
        decreases statuses.len() - i,
    {
        assert(all.take(i + 1).drop_last() =~= all.take(i as int));
        if agent_is_online(statuses[i].as_str()) {
            online = online + 1;
        }
        i = i + 1;
    }
    assert(all.take(statuses.len() as int) =~= all);
    let distinct = count_labels(providers);
    AgentFigures { total: statuses.len(), online, providers: distinct.len() }
}

/// The status an agent is given when it is switched on or off.
pub fn switched_status(on: bool) -> (r: &'static str)
    ensures
        on ==> r@ == "online"@,
        !on ==> r@ == "offline"@,
{
    if on {
        "online"
    } else {
        "offline"
    }
}

} // verus!
