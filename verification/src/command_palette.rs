//! The command palette: a list of commands filtered by a typed query.
use crate::text::{chars_of, contains, contains_chars, to_lowercase, unicode_lowercase};
use vstd::prelude::*;

verus! {

#[derive(Debug)]
pub struct CommandItem {
    pub label: String,
    pub description: String,
}

pub struct CommandPalette {
    pub items: Vec<CommandItem>,
    pub query: String,
}

/// A command is listed when the query is empty or its label contains the query,
/// both compared in Unicode lowercase.
pub open spec fn command_matches(label: Seq<char>, query: Seq<char>) -> bool {
    query.len() == 0 || contains(unicode_lowercase(label), unicode_lowercase(query))
}

impl CommandPalette {
    pub fn new(items: Vec<CommandItem>) -> (r: Self)
        ensures
            r.items@ == items@,
            r.query@ == Seq::<char>::empty(),
    {
        Self { items, query: String::new() }
    }

    pub fn set_query(&mut self, query: String)
        ensures
            final(self).query@ == query@,
            final(self).items@ == old(self).items@,
    {
        self.query = query;
    }

    /// Whether the command at `i` is listed for the current query.
    pub fn is_listed(&self, i: usize) -> (r: bool)
        requires
            i < self.items@.len(),
        ensures
            r == command_matches(self.items@[i as int].label@, self.query@),
    {
        if self.query.as_str().is_empty() {
            return true;
        }
        let label = to_lowercase(self.items[i].label.as_str());
        let query = to_lowercase(self.query.as_str());
        let l = chars_of(label.as_str());
        let q = chars_of(query.as_str());
        contains_chars(&l, &q)
    }

    /// The positions of the listed commands, in their order in the palette.
    pub fn listed_items(&self) -> (r: Vec<usize>)
        ensures
            forall|j: int|
                0 <= j < r@.len() ==> #[trigger] r@[j] < self.items@.len() && command_matches(
                    self.items@[r@[j] as int].label@,
                    self.query@,
                ),
            forall|j: int, k: int| 0 <= j < k < r@.len() ==> r@[j] < r@[k],
            forall|i: int|
                0 <= i < self.items@.len() && command_matches(self.items@[i].label@, self.query@)
                    ==> r@.contains(i as usize),
    {
        let mut r: Vec<usize> = Vec::new();
        let mut i: usize = 0;
        while i < self.items.len()
            invariant
                i <= self.items@.len(),
                forall|j: int|
                    0 <= j < r@.len() ==> #[trigger] r@[j] < i && command_matches(
                        self.items@[r@[j] as int].label@,
                        self.query@,
                    ),
                forall|j: int, k: int| 0 <= j < k < r@.len() ==> r@[j] < r@[k],
                forall|m: int|
                    0 <= m < i && command_matches(self.items@[m].label@, self.query@)
                        ==> r@.contains(m as usize),
            decreases self.items@.len() - i,
        {
            let ghost before = r@;
            if self.is_listed(i) {
                r.push(i);
                assert(r@[r@.len() - 1] == i);
                assert forall|m: int|
                    0 <= m < i && command_matches(self.items@[m].label@, self.query@) implies r@.contains(
                    m as usize,
                ) by {
                    let k = choose|k: int| 0 <= k < before.len() && before[k] == m as usize;
                    assert(r@[k] == before[k]);
                }
            }
            i = i + 1;
        }
        r
    }
}

} // verus!
