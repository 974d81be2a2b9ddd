//! The file tree of the knowledge panel: the folders and files that the records'
//! paths make, kept in the order the tree is drawn, and the rows that are shown for
//! the folders the user opened.
use crate::text::{
    append_str, str_eq, string_from, string_of,
    chars_eq, chars_of, lemma_text_lt_irreflexive, lemma_text_lt_transitive,
    lemma_text_lt_trichotomy, text_less, text_lt,
};
use vstd::prelude::*;

verus! {

// ---------------------------------------------------------------------------
// Ordering paths
// ---------------------------------------------------------------------------
/// `a` comes before `b`: component by component in the order of `String`, a prefix
/// first. This is the order in which a tree whose children are sorted by name is
/// drawn, each folder before what it holds.
pub open spec fn path_lt(a: Seq<Seq<char>>, b: Seq<Seq<char>>) -> bool
    decreases a.len(),
{
    if a.len() == 0 {
        b.len() > 0
    } else if b.len() == 0 {
        false
    } else if a[0] != b[0] {
        text_lt(a[0], b[0])
    } else {
        path_lt(a.drop_first(), b.drop_first())
    }
}

proof fn lemma_path_lt_irreflexive(a: Seq<Seq<char>>)
    ensures
        !path_lt(a, a),
    decreases a.len(),
{
    if a.len() > 0 {
        lemma_path_lt_irreflexive(a.drop_first());
    }
}

proof fn lemma_path_lt_trichotomy(a: Seq<Seq<char>>, b: Seq<Seq<char>>)
    ensures
        a != b ==> path_lt(a, b) || path_lt(b, a),
        !(path_lt(a, b) && path_lt(b, a)),
    decreases a.len(),
{
    if a.len() > 0 && b.len() > 0 {
        lemma_text_lt_trichotomy(a[0], b[0]);
        lemma_path_lt_trichotomy(a.drop_first(), b.drop_first());
        if a[0] == b[0] && a != b {
            assert(a =~= seq![a[0]] + a.drop_first());
            assert(b =~= seq![b[0]] + b.drop_first());
        }
    } else if a.len() == 0 && b.len() == 0 {
        assert(a =~= b);
    }
}

proof fn lemma_path_lt_transitive(a: Seq<Seq<char>>, b: Seq<Seq<char>>, c: Seq<Seq<char>>)
    requires
        path_lt(a, b),
        path_lt(b, c),
    ensures
        path_lt(a, c),
    decreases a.len(),
{
    if a.len() > 0 && b.len() > 0 && c.len() > 0 {
        if a[0] == b[0] && b[0] == c[0] {
            lemma_path_lt_transitive(a.drop_first(), b.drop_first(), c.drop_first());
        } else if a[0] != b[0] && b[0] != c[0] {
            lemma_text_lt_transitive(a[0], b[0], c[0]);
            if a[0] == c[0] {
                lemma_text_lt_trichotomy(a[0], b[0]);
            }
        } else if a[0] == b[0] {
        } else {
        }
    }
}

/// A proper prefix of a path comes before it.
proof fn lemma_prefix_before(p: Seq<Seq<char>>, k: int)
    requires
        0 <= k < p.len(),
    ensures
        path_lt(p.take(k), p),
    decreases k,
{
    if k > 0 {
        lemma_prefix_before(p.drop_first(), k - 1);
        assert(p.take(k).drop_first() =~= p.drop_first().take(k - 1));
    }
}

/// The texts of a list of strings.
pub open spec fn texts(v: Seq<String>) -> Seq<Seq<char>> {
    v.map_values(|s: String| s@)
}

fn texts_equal(a: &Vec<String>, b: &Vec<String>) -> (r: bool)
    ensures
        r == (texts(a@) == texts(b@)),
{
    if a.len() != b.len() {
        assert(texts(a@).len() != texts(b@).len());
        return false;
    }
    let mut i: usize = 0;
    while i < a.len()
        invariant
            a.len() == b.len(),
            i <= a.len(),
            forall|k: int| 0 <= k < i ==> texts(a@)[k] == texts(b@)[k],
        decreases a.len() - i,
    {
        if !chars_eq(&chars_of(a[i].as_str()), &chars_of(b[i].as_str())) {
            assert(texts(a@)[i as int] != texts(b@)[i as int]);
            return false;
        }
        i = i + 1;
    }
    assert(texts(a@) =~= texts(b@));
    true
}

fn path_less(a: &Vec<String>, b: &Vec<String>) -> (r: bool)
    ensures
        r == path_lt(texts(a@), texts(b@)),
{
    let ghost ta = texts(a@);
    let ghost tb = texts(b@);
    let mut i: usize = 0;
    assert(ta.subrange(0, ta.len() as int) =~= ta);
    assert(tb.subrange(0, tb.len() as int) =~= tb);
    while i < a.len() && i < b.len() && chars_eq(&chars_of(a[i].as_str()), &chars_of(b[i].as_str()))
        invariant
            i <= a.len(),
            i <= b.len(),
            ta == texts(a@),
            tb == texts(b@),
            path_lt(ta, tb) == path_lt(ta.subrange(i as int, ta.len() as int), tb.subrange(i as int, tb.len() as int)),
        decreases a.len() - i,
    {
        let ghost x = ta.subrange(i as int, ta.len() as int);
        let ghost y = tb.subrange(i as int, tb.len() as int);
        assert(x.drop_first() =~= ta.subrange(i + 1, ta.len() as int));
        assert(y.drop_first() =~= tb.subrange(i + 1, tb.len() as int));
        i = i + 1;
    }
    if i == a.len() {
        i < b.len()
    } else if i == b.len() {
        false
    } else {
        let ghost x = ta.subrange(i as int, ta.len() as int);
        let ghost y = tb.subrange(i as int, tb.len() as int);
        assert(x[0] == ta[i as int] && y[0] == tb[i as int]);
        text_less(&chars_of(a[i].as_str()), &chars_of(b[i].as_str()))
    }
}

} // verus!

verus! {

// ---------------------------------------------------------------------------
// The tree
// ---------------------------------------------------------------------------
/// A folder or a file of the tree, named by its path from the root.
#[derive(Debug)]
pub struct TreeEntry {
    pub path: Vec<String>,
    /// Whether the entry was made as a file (the last component of a record's path).
    pub is_file: bool,
    /// The record a file shows.
    pub item: Option<usize>,
}

/// What an entry holds: its path, whether it is a file, and its record.
pub type EntryView = (Seq<Seq<char>>, bool, Option<usize>);

pub open spec fn entry_view(e: TreeEntry) -> EntryView {
    (texts(e.path@), e.is_file, e.item)
}

pub open spec fn entries_view(es: Seq<TreeEntry>) -> Seq<EntryView> {
    es.map_values(|e: TreeEntry| entry_view(e))
}

/// The entries come in drawing order, each path once.
pub open spec fn in_order(v: Seq<EntryView>) -> bool {
    forall|i: int, j: int| 0 <= i < j < v.len() ==> path_lt(#[trigger] v[i].0, #[trigger] v[j].0)
}

/// Some entry has the path `q`.
pub open spec fn has_path(v: Seq<EntryView>, q: Seq<Seq<char>>) -> bool {
    exists|j: int| 0 <= j < v.len() && (#[trigger] v[j]).0 == q
}

/// Every entry's path is not empty, and every shorter prefix of it is an entry too.
pub open spec fn prefix_closed(v: Seq<EntryView>) -> bool {
    &&& forall|i: int| 0 <= i < v.len() ==> (#[trigger] v[i]).0.len() >= 1
    &&& forall|i: int, k: int|
        0 <= i < v.len() && 1 <= k < v[i].0.len() ==> #[trigger] has_path(v, v[i].0.take(k))
}

/// An entry is a file exactly when it carries a record.
pub open spec fn files_carry_items(v: Seq<EntryView>) -> bool {
    forall|i: int| 0 <= i < v.len() ==> (#[trigger] v[i]).1 == v[i].2.is_some()
}

/// `q` is one of the non-empty prefixes of `p`, `p` included.
pub open spec fn is_prefix_of(q: Seq<Seq<char>>, p: Seq<Seq<char>>) -> bool {
    1 <= q.len() <= p.len() && q == p.take(q.len() as int)
}

/// The entry made for the prefix `q` of a record's path `p`: a file where it is the
/// whole path.
pub open spec fn made_entry(q: Seq<Seq<char>>, p: Seq<Seq<char>>, item: usize) -> EntryView {
    if q.len() == p.len() {
        (q, true, Some(item))
    } else {
        (q, false, None)
    }
}

/// `new` is `old` with the path `p` of the record `item` added: every entry of `old`
/// stays as it is, every prefix of `p` has an entry, and the entries added are the
/// prefixes that had none, made as `made_entry` says.
pub open spec fn added_path(old: Seq<EntryView>, new: Seq<EntryView>, p: Seq<Seq<char>>, item: usize) -> bool {
    &&& forall|i: int| 0 <= i < old.len() ==> new.contains(#[trigger] old[i])
    &&& forall|k: int| 1 <= k <= p.len() ==> has_path(new, #[trigger] p.take(k))
    &&& forall|j: int|
        0 <= j < new.len() ==> old.contains(#[trigger] new[j]) || (is_prefix_of(new[j].0, p)
            && !has_path(old, new[j].0) && new[j] == made_entry(new[j].0, p, item))
}

/// The file tree: its entries in drawing order.
pub struct FileTree {
    entries: Vec<TreeEntry>,
}

impl FileTree {
    #[verifier::type_invariant]
    spec fn well_formed(self) -> bool {
        &&& in_order(entries_view(self.entries@))
        &&& prefix_closed(entries_view(self.entries@))
        &&& files_carry_items(entries_view(self.entries@))
    }

    /// The entries, in drawing order.
    pub closed spec fn view(&self) -> Seq<EntryView> {
        entries_view(self.entries@)
    }

    /// An empty tree.
    pub fn new() -> (r: Self)
        ensures
            r.view() == Seq::<EntryView>::empty(),
    {
        let t = FileTree { entries: Vec::new() };
        assert(entries_view(t.entries@) =~= Seq::<EntryView>::empty());
        t
    }

    /// The entries, in drawing order.
    pub fn entries(&self) -> (r: &Vec<TreeEntry>)
        ensures
            entries_view(r@) == self.view(),
            in_order(self.view()),
            prefix_closed(self.view()),
            files_carry_items(self.view()),
    {
        proof {
            use_type_invariant(self);
        }
        &self.entries
    }
}


proof fn lemma_insert_in_order(v: Seq<EntryView>, j: int, e: EntryView)
    requires
        in_order(v),
        0 <= j <= v.len(),
        forall|i: int| 0 <= i < j ==> path_lt(#[trigger] v[i].0, e.0),
        j < v.len() ==> path_lt(e.0, v[j].0),
    ensures
        in_order(v.insert(j, e)),
{
    let w = v.insert(j, e);
    assert forall|a: int, b: int| 0 <= a < b < w.len() implies path_lt(#[trigger] w[a].0, #[trigger] w[b].0) by {
        if b < j {
            assert(w[a] == v[a] && w[b] == v[b]);
        } else if b == j {
            assert(w[a] == v[a]);
        } else if a == j {
            assert(w[b] == v[b - 1]);
            if b - 1 > j {
                lemma_path_lt_transitive(e.0, v[j].0, v[b - 1].0);
            }
        } else if a < j {
            assert(w[a] == v[a] && w[b] == v[b - 1]);
        } else {
            assert(w[a] == v[a - 1] && w[b] == v[b - 1]);
        }
    }
}

proof fn lemma_absent(v: Seq<EntryView>, j: int, q: Seq<Seq<char>>)
    requires
        in_order(v),
        0 <= j <= v.len(),
        forall|i: int| 0 <= i < j ==> path_lt(#[trigger] v[i].0, q),
        j < v.len() ==> !path_lt(v[j].0, q) && v[j].0 != q,
    ensures
        !has_path(v, q),
        j < v.len() ==> path_lt(q, v[j].0),
{
    if j < v.len() {
        lemma_path_lt_trichotomy(v[j].0, q);
    }
    if has_path(v, q) {
        let i = choose|i: int| 0 <= i < v.len() && (#[trigger] v[i]).0 == q;
        if i < j {
            lemma_path_lt_irreflexive(q);
        } else if i > j {
            lemma_path_lt_transitive(q, v[j].0, v[i].0);
            lemma_path_lt_irreflexive(q);
        }
    }
}

proof fn lemma_insert_keeps(v: Seq<EntryView>, j: int, e: EntryView)
    requires
        0 <= j <= v.len(),
    ensures
        forall|x: EntryView| v.contains(x) ==> #[trigger] v.insert(j, e).contains(x),
        forall|q: Seq<Seq<char>>| has_path(v, q) ==> #[trigger] has_path(v.insert(j, e), q),
        v.insert(j, e).contains(e),
        forall|i: int| 0 <= i < v.insert(j, e).len() ==> #[trigger] v.insert(j, e)[i] == e || v.contains(v.insert(j, e)[i]),
{
    let w = v.insert(j, e);
    assert forall|x: EntryView| v.contains(x) implies #[trigger] w.contains(x) by {
        let i = choose|i: int| 0 <= i < v.len() && v[i] == x;
        if i < j {
            assert(w[i] == x);
        } else {
            assert(w[i + 1] == x);
        }
    }
    assert forall|q: Seq<Seq<char>>| has_path(v, q) implies #[trigger] has_path(w, q) by {
        let i = choose|i: int| 0 <= i < v.len() && (#[trigger] v[i]).0 == q;
        if i < j {
            assert(w[i].0 == q);
        } else {
            assert(w[i + 1].0 == q);
        }
    }
    assert(w[j] == e);
    assert forall|i: int| 0 <= i < w.len() implies #[trigger] w[i] == e || v.contains(w[i]) by {
        if i < j {
            assert(w[i] == v[i]);
        } else if i > j {
            assert(w[i] == v[i - 1]);
        }
    }
}

fn path_prefix(path: &Vec<String>, k: usize) -> (r: Vec<String>)
    requires
        k <= path.len(),
    ensures
        texts(r@) == texts(path@).take(k as int),
{
    let mut r: Vec<String> = Vec::new();
    let mut i: usize = 0;
    while i < k
        invariant
            i <= k <= path.len(),
            texts(r@) == texts(path@).take(i as int),
        decreases k - i,
    {
        let ghost before = r@;
        let x = path[i].clone();
        r.push(x);
        assert(texts(r@) =~= texts(path@).take(i + 1)) by {
            assert(texts(r@) =~= texts(before).push(x@));
        }
        i = i + 1;
    }
    r
}

impl FileTree {
    /// Adds the path of the record `item`: each of its prefixes that has no entry gets
    /// a folder, and the whole path a file, in drawing order.
    pub fn insert_path(&mut self, path: &Vec<String>, item: usize)
        ensures
            added_path(old(self).view(), final(self).view(), texts(path@), item),
            in_order(final(self).view()),
            prefix_closed(final(self).view()),
            files_carry_items(final(self).view()),
    {
        proof {
            use_type_invariant(&*self);
        }
        let mut es: Vec<TreeEntry> = Vec::new();
        std::mem::swap(&mut es, &mut self.entries);
        let ghost old_v = entries_view(es@);
        let ghost p = texts(path@);
        assert forall|j: int| 0 <= j < old_v.len() implies old_v.contains(#[trigger] old_v[j]) by {}
        let mut n: usize = 0;
        while n < path.len()
            invariant
                n <= path.len(),
                p == texts(path@),
                in_order(entries_view(es@)),
                prefix_closed(entries_view(es@)),
                files_carry_items(entries_view(es@)),
                forall|i: int| 0 <= i < old_v.len() ==> entries_view(es@).contains(#[trigger] old_v[i]),
                forall|m: int| 1 <= m <= n ==> has_path(entries_view(es@), #[trigger] p.take(m)),
                forall|j: int|
                    0 <= j < entries_view(es@).len() ==> old_v.contains(#[trigger] entries_view(es@)[j]) || (
                    is_prefix_of(entries_view(es@)[j].0, p) && !has_path(old_v, entries_view(es@)[j].0)
                        && entries_view(es@)[j] == made_entry(entries_view(es@)[j].0, p, item)),
            decreases path.len() - n,
        {
            let k: usize = n + 1;
            let ghost v = entries_view(es@);
            let prefix = path_prefix(path, k);
            let ghost q = p.take(k as int);
            let mut j: usize = 0;
            while j < es.len() && path_less(&es[j].path, &prefix)
                invariant
                    j <= es.len(),
                    v == entries_view(es@),
                    texts(prefix@) == q,
                    forall|i: int| 0 <= i < j ==> path_lt(#[trigger] v[i].0, q),
                decreases es.len() - j,
            {
                j = j + 1;
            }
            let found = j < es.len() && texts_equal(&es[j].path, &prefix);
            if !found {
                proof {
                    lemma_absent(v, j as int, q);
                    lemma_insert_in_order(v, j as int, made_entry(q, p, item));
                    lemma_insert_keeps(v, j as int, made_entry(q, p, item));
                    if has_path(old_v, q) {
                        let i = choose|i: int| 0 <= i < old_v.len() && (#[trigger] old_v[i]).0 == q;
                        assert(v.contains(old_v[i]));
                        let jj = choose|jj: int| 0 <= jj < v.len() && v[jj] == old_v[i];
                        assert(v[jj].0 == q);
                    }
                }
                let is_file = k == path.len();
                let e = TreeEntry { path: prefix, is_file, item: if is_file { Some(item) } else { None } };
                assert(entry_view(e) == made_entry(q, p, item));
                es.insert(j, e);
                proof {
                    let w = entries_view(es@);
                    assert(w =~= v.insert(j as int, made_entry(q, p, item)));
                    assert forall|i: int, m: int|
                        0 <= i < w.len() && 1 <= m < w[i].0.len() implies #[trigger] has_path(w, w[i].0.take(m)) by {
                        if w[i] == made_entry(q, p, item) {
                            assert(q.take(m) =~= p.take(m));
                        } else {
                            let ii = choose|ii: int| 0 <= ii < v.len() && v[ii] == w[i];
                            assert(has_path(v, v[ii].0.take(m)));
                        }
                    }
                    assert forall|mm: int| 1 <= mm < k + 1 implies has_path(w, #[trigger] p.take(mm)) by {
                        if mm == k {
                            assert(w[j as int].0 == p.take(mm));
                        }
                    }
                    assert forall|jx: int| 0 <= jx < w.len() implies old_v.contains(#[trigger] w[jx]) || (
                    is_prefix_of(w[jx].0, p) && !has_path(old_v, w[jx].0) && w[jx] == made_entry(
                        w[jx].0,
                        p,
                        item,
                    )) by {
                        if w[jx] != made_entry(q, p, item) {
                            let ii = choose|ii: int| 0 <= ii < v.len() && v[ii] == w[jx];
                        }
                    }
                }
            } else {
                proof {
                    assert(v[j as int].0 == q);
                    assert forall|mm: int| 1 <= mm < k + 1 implies has_path(v, #[trigger] p.take(mm)) by {
                        if mm == k {
                            assert(v[j as int].0 == p.take(mm));
                        }
                    }
                }
            }
            n = k;
        }
        self.entries = es;
    }
}
} // verus!

verus! {

// ---------------------------------------------------------------------------
// The folders the user opened
// ---------------------------------------------------------------------------
/// The keys of the folders that are open. The root's key is the empty text.
pub struct ExpandedDirs {
    keys: Vec<String>,
}

/// No text occurs twice.
pub open spec fn distinct_texts(v: Seq<Seq<char>>) -> bool {
    forall|i: int, j: int| 0 <= i < j < v.len() ==> v[i] != v[j]
}

impl ExpandedDirs {
    #[verifier::type_invariant]
    spec fn well_formed(self) -> bool {
        distinct_texts(texts(self.keys@))
    }

    /// The keys of the open folders.
    pub closed spec fn view(&self) -> Set<Seq<char>> {
        texts(self.keys@).to_set()
    }

    /// Only the root is open, as when the panel is made.
    pub fn new() -> (r: Self)
        ensures
            r.view() == set![Seq::<char>::empty()],
    {
        let mut keys: Vec<String> = Vec::new();
        keys.push(String::new());
        let r = ExpandedDirs { keys };
        proof {
            assert(texts(r.keys@) =~= seq![Seq::<char>::empty()]);
            assert(texts(r.keys@).to_set() =~= set![Seq::<char>::empty()]) by {
                assert(texts(r.keys@)[0] == Seq::<char>::empty());
            }
        }
        r
    }

    fn position(&self, key: &str) -> (r: Option<usize>)
        ensures
            match r {
                Some(i) => i < self.keys.len() && self.keys@[i as int]@ == key@,
                None => !self.view().contains(key@),
            },
    {
        let mut i: usize = 0;
        while i < self.keys.len()
            invariant
                i <= self.keys.len(),
                forall|k: int| 0 <= k < i ==> self.keys@[k]@ != key@,
            decreases self.keys.len() - i,
        {
            if str_eq(self.keys[i].as_str(), key) {
                return Some(i);
            }
            i = i + 1;
        }
        proof {
            if self.view().contains(key@) {
                let k = choose|k: int| 0 <= k < texts(self.keys@).len() && texts(self.keys@)[k] == key@;
                assert(self.keys@[k]@ == key@);
            }
        }
        None
    }

    /// Whether the folder with the key `key` is open.
    pub fn is_expanded(&self, key: &str) -> (r: bool)
        ensures
            r == self.view().contains(key@),
    {
        match self.position(key) {
            Some(i) => {
                proof {
                    assert(texts(self.keys@)[i as int] == key@);
                }
                true
            },
            None => false,
        }
    }

    /// Opens the folder with the key `key` if it is closed, and closes it if it is open.
    pub fn toggle(&mut self, key: &str)
        ensures
            final(self).view() == (if old(self).view().contains(key@) {
                old(self).view().remove(key@)
            } else {
                old(self).view().insert(key@)
            }),
    {
        proof {
            use_type_invariant(&*self);
        }
        let ghost before = texts(self.keys@);
        match self.position(key) {
            Some(i) => {
                let mut keys: Vec<String> = Vec::new();
                std::mem::swap(&mut keys, &mut self.keys);
                keys.remove(i);
                proof {
                    let after = texts(keys@);
                    assert(after =~= before.remove(i as int));
                    assert(before[i as int] == key@);
                    assert(distinct_texts(after));
                    assert(after.to_set() =~= before.to_set().remove(key@)) by {
                        assert forall|t: Seq<char>| after.to_set().contains(t) implies before.to_set().remove(key@).contains(t) by {
                            let k = choose|k: int| 0 <= k < after.len() && after[k] == t;
                            if k < i {
                                assert(before[k] == t);
                            } else {
                                assert(before[k + 1] == t);
                            }
                        }
                        assert forall|t: Seq<char>| before.to_set().remove(key@).contains(t) implies after.to_set().contains(t) by {
                            let k = choose|k: int| 0 <= k < before.len() && before[k] == t;
                            if k < i {
                                assert(after[k] == t);
                            } else {
                                assert(k != i);
                                assert(after[k - 1] == t);
                            }
                        }
                    }
                }
                self.keys = keys;
            },
            None => {
                let mut keys: Vec<String> = Vec::new();
                std::mem::swap(&mut keys, &mut self.keys);
                keys.push(string_from(key));
                proof {
                    let after = texts(keys@);
                    assert(after =~= before.push(key@));
                    assert(distinct_texts(after)) by {
                        assert forall|a: int, b: int| 0 <= a < b < after.len() implies after[a] != after[b] by {
                            if b == before.len() {
                                assert(before.to_set().contains(before[a]));
                            }
                        }
                    }
                    assert(after.to_set() =~= before.to_set().insert(key@)) by {
                        assert forall|t: Seq<char>| after.to_set().contains(t) implies before.to_set().insert(key@).contains(t) by {
                            let k = choose|k: int| 0 <= k < after.len() && after[k] == t;
                            if k < before.len() {
                                assert(before[k] == t);
                            }
                        }
                        assert forall|t: Seq<char>| before.to_set().insert(key@).contains(t) implies after.to_set().contains(t) by {
                            if t == key@ {
                                assert(after[before.len() as int] == t);
                            } else {
                                let k = choose|k: int| 0 <= k < before.len() && before[k] == t;
                                assert(after[k] == t);
                            }
                        }
                    }
                }
                self.keys = keys;
            },
        }
    }
}

/// Toggling a folder twice leaves the open folders as they were.
pub proof fn law_toggle_folder_twice(x: Set<Seq<char>>, key: Seq<char>)
    ensures
        ({
            let once = if x.contains(key) { x.remove(key) } else { x.insert(key) };
            let twice = if once.contains(key) { once.remove(key) } else { once.insert(key) };
            twice == x
        }),
{
    let once = if x.contains(key) { x.remove(key) } else { x.insert(key) };
    let twice = if once.contains(key) { once.remove(key) } else { once.insert(key) };
    assert(twice =~= x);
}

} // verus!

verus! {

// ---------------------------------------------------------------------------
// The rows that are shown
// ---------------------------------------------------------------------------
/// The key of the folder at `q`: its names joined by `/`.
pub open spec fn dir_key(q: Seq<Seq<char>>) -> Seq<char>
    decreases q.len(),
{
    if q.len() == 0 {
        Seq::empty()
    } else {
        next_key(dir_key(q.drop_last()), q.last())
    }
}

/// The key of a child named `name` of the folder with the key `key`.
pub open spec fn next_key(key: Seq<char>, name: Seq<char>) -> Seq<char> {
    if key.len() == 0 {
        name
    } else {
        key + seq!['/'] + name
    }
}

/// Some entry at `q` is a folder.
pub open spec fn is_folder_path(v: Seq<EntryView>, q: Seq<Seq<char>>) -> bool {
    exists|j: int| 0 <= j < v.len() && (#[trigger] v[j]).0 == q && !v[j].1
}

/// How many of the first `m` prefixes of `q` are folders.
pub open spec fn folders_above(v: Seq<EntryView>, q: Seq<Seq<char>>, m: int) -> nat
    decreases m,
{
    if m <= 0 {
        0
    } else {
        folders_above(v, q, m - 1) + if is_folder_path(v, q.take(m)) { 1nat } else { 0nat }
    }
}

/// Each folder among the first `m` prefixes of `q` is open.
pub open spec fn opened_above(v: Seq<EntryView>, x: Set<Seq<char>>, q: Seq<Seq<char>>, m: int) -> bool
    decreases m,
{
    if m <= 0 {
        true
    } else {
        opened_above(v, x, q, m - 1) && (is_folder_path(v, q.take(m)) ==> x.contains(dir_key(q.take(m))))
    }
}

/// The entry at `q` is shown: the root is open, and so is each folder above it.
pub open spec fn shown(v: Seq<EntryView>, x: Set<Seq<char>>, q: Seq<Seq<char>>) -> bool {
    x.contains(Seq::<char>::empty()) && opened_above(v, x, q, q.len() - 1)
}

/// How far the row of the entry at `q` is indented: one step for the root, and one
/// for each folder above it.
pub open spec fn row_depth(v: Seq<EntryView>, q: Seq<Seq<char>>) -> nat {
    1 + folders_above(v, q, q.len() - 1)
}

/// What a row shows besides its name and depth.
pub enum RowMark {
    /// A folder: whether it is open, and its key.
    Folder(bool, Seq<char>),
    /// A file and its record.
    File(usize),
}

/// A row: its name, its depth and its mark.
pub type RowView = (Seq<char>, nat, RowMark);

/// The row drawn for the entry `e`.
pub open spec fn row_of(v: Seq<EntryView>, x: Set<Seq<char>>, e: EntryView) -> RowView {
    (e.0.last(), row_depth(v, e.0), if e.1 {
        RowMark::File(e.2.unwrap())
    } else {
        RowMark::Folder(x.contains(dir_key(e.0)), dir_key(e.0))
    })
}

/// The rows drawn for the first `n` entries, in order.
pub open spec fn rows_upto(v: Seq<EntryView>, x: Set<Seq<char>>, n: int) -> Seq<RowView>
    decreases n,
{
    if n <= 0 {
        Seq::empty()
    } else if shown(v, x, v[n - 1].0) {
        rows_upto(v, x, n - 1).push(row_of(v, x, v[n - 1]))
    } else {
        rows_upto(v, x, n - 1)
    }
}

/// What a row of a folder or a file holds besides its name and depth.
#[derive(Debug)]
pub enum TreeRowKind {
    Folder { expanded: bool, key: String },
    File { item: usize },
}

/// A row of the tree under the root.
#[derive(Debug)]
pub struct TreeRow {
    pub name: String,
    pub depth: usize,
    pub kind: TreeRowKind,
}

pub open spec fn row_view(r: TreeRow) -> RowView {
    (r.name@, r.depth as nat, match r.kind {
        TreeRowKind::Folder { expanded, key } => RowMark::Folder(expanded, key@),
        TreeRowKind::File { item } => RowMark::File(item),
    })
}

pub open spec fn rows_view(rs: Seq<TreeRow>) -> Seq<RowView> {
    rs.map_values(|r: TreeRow| row_view(r))
}

proof fn lemma_unique_path(v: Seq<EntryView>, i: int, j: int)
    requires
        in_order(v),
        0 <= i < v.len(),
        0 <= j < v.len(),
        v[i].0 == v[j].0,
    ensures
        i == j,
{
    if i < j {
        lemma_path_lt_irreflexive(v[i].0);
    } else if j < i {
        lemma_path_lt_irreflexive(v[i].0);
    }
}

fn find_entry(es: &Vec<TreeEntry>, q: &Vec<String>) -> (r: Option<usize>)
    ensures
        match r {
            Some(j) => j < es.len() && entries_view(es@)[j as int].0 == texts(q@),
            None => !has_path(entries_view(es@), texts(q@)),
        },
{
    let ghost v = entries_view(es@);
    let mut j: usize = 0;
    while j < es.len()
        invariant
            j <= es.len(),
            v == entries_view(es@),
            forall|k: int| 0 <= k < j ==> v[k].0 != texts(q@),
        decreases es.len() - j,
    {
        if texts_equal(&es[j].path, q) {
            return Some(j);
        }
        j = j + 1;
    }
    None
}

fn child_key(key: &String, name: &String) -> (r: String)
    ensures
        r@ == next_key(key@, name@),
{
    if key.as_str().is_empty() {
        string_from(name.as_str())
    } else {
        let mut cs = chars_of(key.as_str());
        cs.push('/');
        append_str(&mut cs, name.as_str());
        string_of(&cs)
    }
}

impl FileTree {
    /// The row of the entry `i`, where it is shown under the open folders `x`.
    fn entry_row(&self, x: &ExpandedDirs, i: usize) -> (r: Option<TreeRow>)
        requires
            i < self.view().len(),
        ensures
            match r {
                Some(row) => shown(self.view(), x.view(), self.view()[i as int].0) && row_view(row) == row_of(
                    self.view(),
                    x.view(),
                    self.view()[i as int],
                ),
                None => !shown(self.view(), x.view(), self.view()[i as int].0),
            },
    {
        proof {
            use_type_invariant(self);
        }
        let ghost v = self.view();
        let es = &self.entries;
        let path = &es[i].path;
        let ghost p = texts(path@);
        assert(p == v[i as int].0);
        assert(p.len() >= 1);
        let last: usize = path.len() - 1;
        let mut prefix: Vec<String> = Vec::new();
        let mut key = String::new();
        let mut folders: usize = 0;
        let mut open = true;
        let mut m: usize = 0;
        assert(texts(prefix@) =~= p.take(0));
        assert(key@ =~= dir_key(p.take(0)));
        while m < last
            invariant
                v == self.view(),
                v == entries_view(es@),
                in_order(v),
                p == texts(path@),
                path.len() == last + 1,
                m <= last,
                texts(prefix@) == p.take(m as int),
                key@ == dir_key(p.take(m as int)),
                folders == folders_above(v, p, m as int),
                folders <= m,
                open == opened_above(v, x.view(), p, m as int),
            decreases last - m,
        {
            let ghost before = prefix@;
            prefix.push(path[m].clone());
            proof {
                assert(texts(prefix@) =~= texts(before).push(path@[m as int]@));
                assert(texts(prefix@) =~= p.take(m + 1));
                assert(p.take(m + 1).drop_last() =~= p.take(m as int));
            }
            key = child_key(&key, &path[m]);
            match find_entry(es, &prefix) {
                Some(j) => {
                    proof {
                        if is_folder_path(v, p.take(m + 1)) {
                            let jj = choose|jj: int| 0 <= jj < v.len() && (#[trigger] v[jj]).0 == p.take(m + 1) && !v[jj].1;
                            lemma_unique_path(v, j as int, jj);
                        }
                    }
                    if !es[j].is_file {
                        proof {
                            assert(v[j as int].0 == p.take(m + 1) && !v[j as int].1);
                        }
                        folders = folders + 1;
                        if !x.is_expanded(key.as_str()) {
                            open = false;
                        }
                    }
                },
                None => {
                    proof {
                        if is_folder_path(v, p.take(m + 1)) {
                            let jj = choose|jj: int| 0 <= jj < v.len() && (#[trigger] v[jj]).0 == p.take(m + 1) && !v[jj].1;
                            assert(has_path(v, p.take(m + 1)));
                        }
                    }
                },
            }
            m = m + 1;
        }
        if !open || !x.is_expanded("") {
            proof {
                reveal_strlit("");
                assert(""@ =~= Seq::<char>::empty());
            }
            return None;
        }
        proof {
            reveal_strlit("");
            assert(""@ =~= Seq::<char>::empty());
            assert(p.take(last as int).push(p.last()) =~= p);
        }
        let name = path[last].clone();
        let kind = if es[i].is_file {
            match es[i].item {
                Some(item) => TreeRowKind::File { item },
                None => {
                    proof {
                        assert(false);
                    }
                    TreeRowKind::File { item: 0 }
                },
            }
        } else {
            let k = child_key(&key, &name);
            proof {
                assert(p.drop_last() =~= p.take(last as int));
            }
            let expanded = x.is_expanded(k.as_str());
            TreeRowKind::Folder { expanded, key: k }
        };
        let row = TreeRow { name, depth: folders + 1, kind };
        Some(row)
    }

    /// The rows drawn under the root, in order, for the open folders `x`: each entry
    /// whose folders above it are all open, the root included.
    pub fn visible_rows(&self, x: &ExpandedDirs) -> (r: Vec<TreeRow>)
        ensures
            rows_view(r@) == rows_upto(self.view(), x.view(), self.view().len() as int),
    {
        proof {
            use_type_invariant(self);
        }
        let mut rows: Vec<TreeRow> = Vec::new();
        let mut i: usize = 0;
        while i < self.entries.len()
            invariant
                i <= self.entries.len(),
                self.view().len() == self.entries.len(),
                rows_view(rows@) == rows_upto(self.view(), x.view(), i as int),
            decreases self.entries.len() - i,
        {
            let ghost before = rows@;
            match self.entry_row(x, i) {
                Some(row) => {
                    rows.push(row);
                    proof {
                        assert(rows_view(rows@) =~= rows_view(before).push(row_of(self.view(), x.view(), self.view()[i as int])));
                    }
                },
                None => {},
            }
            i = i + 1;
        }
        rows
    }
}

} // verus!

verus! {

// ---------------------------------------------------------------------------
// The tree of a list of records
// ---------------------------------------------------------------------------
/// The paths of a list of records, each as a list of names.
pub open spec fn paths_view(ps: Seq<Vec<String>>) -> Seq<Seq<Seq<char>>> {
    ps.map_values(|p: Vec<String>| texts(p@))
}

/// `q` is a prefix of the path of the record `k`, and of no earlier record's path.
pub open spec fn first_owner(ps: Seq<Seq<Seq<char>>>, q: Seq<Seq<char>>, k: int) -> bool {
    &&& 0 <= k < ps.len()
    &&& is_prefix_of(q, ps[k])
    &&& forall|k2: int| 0 <= k2 < k ==> !is_prefix_of(q, #[trigger] ps[k2])
}

/// `v` holds the tree of the paths `ps`: every non-empty prefix of every path has an
/// entry, and each entry is what the first record whose path passes through it made
/// (a file where it is that record's whole path, a folder otherwise).
pub open spec fn tree_of_paths(v: Seq<EntryView>, ps: Seq<Seq<Seq<char>>>) -> bool {
    &&& forall|k: int, m: int|
        0 <= k < ps.len() && 1 <= m <= ps[k].len() ==> #[trigger] has_path(v, ps[k].take(m))
    &&& forall|j: int| 0 <= j < v.len() ==> made_by_first_owner(ps, #[trigger] v[j])
}

/// `e` is the entry that the first record whose path passes through it made.
pub open spec fn made_by_first_owner(ps: Seq<Seq<Seq<char>>>, e: EntryView) -> bool {
    exists|k: int| #[trigger] first_owner(ps, e.0, k) && e == made_entry(e.0, ps[k], k as usize)
}

impl FileTree {
    /// The tree of the records' paths, the record `k` having the path `paths[k]`.
    pub fn from_paths(paths: &Vec<Vec<String>>) -> (r: Self)
        ensures
            tree_of_paths(r.view(), paths_view(paths@)),
            in_order(r.view()),
            prefix_closed(r.view()),
    {
        let ghost ps = paths_view(paths@);
        let mut t = FileTree::new();
        let mut n: usize = 0;
        while n < paths.len()
            invariant
                n <= paths.len(),
                ps == paths_view(paths@),
                tree_of_paths(t.view(), ps.take(n as int)),
            decreases paths.len() - n,
        {
            let ghost old_v = t.view();
            let ghost pn = ps[n as int];
            assert(texts(paths@[n as int]@) == pn);
            t.insert_path(&paths[n], n);
            proof {
                let v = t.view();
                let before = ps.take(n as int);
                let after = ps.take(n + 1);
                assert forall|k: int, m: int|
                    0 <= k < after.len() && 1 <= m <= after[k].len() implies #[trigger] has_path(v, after[k].take(m)) by {
                    if k < n {
                        assert(after[k] == before[k]);
                        assert(has_path(old_v, before[k].take(m)));
                        let i = choose|i: int| 0 <= i < old_v.len() && (#[trigger] old_v[i]).0 == before[k].take(m);
                        assert(v.contains(old_v[i]));
                        let jj = choose|jj: int| 0 <= jj < v.len() && v[jj] == old_v[i];
                        assert(v[jj].0 == after[k].take(m));
                    } else {
                        assert(after[k] == pn);
                    }
                }
                assert forall|j: int| 0 <= j < v.len() implies made_by_first_owner(after, #[trigger] v[j]) by {
                    if old_v.contains(v[j]) {
                        let i = choose|i: int| 0 <= i < old_v.len() && old_v[i] == v[j];
                        assert(made_by_first_owner(before, old_v[i]));
                        let k = choose|k: int|
                            #[trigger] first_owner(before, old_v[i].0, k) && old_v[i] == made_entry(old_v[i].0, before[k], k as usize);
                        assert(after[k] == before[k]);
                        assert forall|k2: int| 0 <= k2 < k implies !is_prefix_of(v[j].0, #[trigger] after[k2]) by {
                            assert(after[k2] == before[k2]);
                        }
                        assert(first_owner(after, v[j].0, k));
                    } else {
                        let q = v[j].0;
                        assert(is_prefix_of(q, pn) && !has_path(old_v, q) && v[j] == made_entry(q, pn, n));
                        assert forall|k2: int| 0 <= k2 < n implies !is_prefix_of(q, #[trigger] after[k2]) by {
                            assert(after[k2] == before[k2]);
                            if is_prefix_of(q, before[k2]) {
                                assert(has_path(old_v, before[k2].take(q.len() as int)));
                            }
                        }
                        assert(after[n as int] == pn);
                        assert(first_owner(after, q, n as int));
                    }
                }
                assert(tree_of_paths(v, after));
            }
            n = n + 1;
        }
        proof {
            use_type_invariant(&t);
            assert(ps.take(paths.len() as int) =~= ps);
        }
        t
    }
}

} // verus!

verus! {

// ---------------------------------------------------------------------------
// Laws
// ---------------------------------------------------------------------------
proof fn lemma_in_order_tail(a: Seq<EntryView>)
    requires
        in_order(a),
        a.len() > 0,
    ensures
        in_order(a.drop_first()),
        forall|i: int| 1 <= i < a.len() ==> path_lt(a[0].0, #[trigger] a[i].0),
{
    let t = a.drop_first();
    assert forall|i: int, j: int| 0 <= i < j < t.len() implies path_lt(#[trigger] t[i].0, #[trigger] t[j].0) by {
        assert(t[i] == a[i + 1] && t[j] == a[j + 1]);
    }
    assert forall|i: int| 1 <= i < a.len() implies path_lt(a[0].0, #[trigger] a[i].0) by {
        assert(path_lt(a[0].0, a[i].0));
    }
}

/// Two lists in drawing order that hold the same entries are the same list.
proof fn lemma_same_entries_same_list(a: Seq<EntryView>, b: Seq<EntryView>)
    requires
        in_order(a),
        in_order(b),
        forall|x: EntryView| a.contains(x) <==> b.contains(x),
    ensures
        a == b,
    decreases a.len(),
{
    if a.len() == 0 {
        if b.len() > 0 {
            assert(b.contains(b[0]));
        }
        assert(a =~= b);
    } else {
        assert(a.contains(a[0]));
        assert(b.len() > 0);
        let k = choose|k: int| 0 <= k < b.len() && b[k] == a[0];
        assert(b.contains(b[0]));
        let m = choose|m: int| 0 <= m < a.len() && a[m] == b[0];
        if k > 0 {
            assert(path_lt(b[0].0, b[k].0));
            if m > 0 {
                assert(path_lt(a[0].0, a[m].0));
                lemma_path_lt_transitive(a[0].0, b[0].0, a[0].0);
            }
            lemma_path_lt_irreflexive(a[0].0);
        }
        assert(a[0] == b[0]);
        lemma_in_order_tail(a);
        lemma_in_order_tail(b);
        let ta = a.drop_first();
        let tb = b.drop_first();
        assert forall|x: EntryView| ta.contains(x) <==> tb.contains(x) by {
            if ta.contains(x) {
                let i = choose|i: int| 0 <= i < ta.len() && ta[i] == x;
                assert(a[i + 1] == x);
                assert(a.contains(x));
                let j = choose|j: int| 0 <= j < b.len() && b[j] == x;
                if j == 0 {
                    assert(path_lt(a[0].0, a[i + 1].0));
                    lemma_path_lt_irreflexive(x.0);
                }
                assert(tb[j - 1] == x);
            }
            if tb.contains(x) {
                let i = choose|i: int| 0 <= i < tb.len() && tb[i] == x;
                assert(b[i + 1] == x);
                assert(b.contains(x));
                let j = choose|j: int| 0 <= j < a.len() && a[j] == x;
                if j == 0 {
                    assert(path_lt(b[0].0, b[i + 1].0));
                    lemma_path_lt_irreflexive(x.0);
                }
                assert(ta[j - 1] == x);
            }
        }
        lemma_same_entries_same_list(ta, tb);
        assert(a =~= seq![a[0]] + ta);
        assert(b =~= seq![b[0]] + tb);
    }
}

/// Adding a path that the tree already holds, with every folder above it, changes
/// nothing: the first record to reach a place in the tree keeps it.
pub proof fn law_adding_a_present_path_changes_nothing(
    before: Seq<EntryView>,
    after: Seq<EntryView>,
    p: Seq<Seq<char>>,
    item: usize,
)
    requires
        in_order(before),
        in_order(after),
        added_path(before, after, p, item),
        forall|k: int| 1 <= k <= p.len() ==> has_path(before, #[trigger] p.take(k)),
    ensures
        after == before,
{
    assert forall|x: EntryView| before.contains(x) <==> after.contains(x) by {
        if before.contains(x) {
            let i = choose|i: int| 0 <= i < before.len() && before[i] == x;
            assert(after.contains(before[i]));
        }
        if after.contains(x) {
            let j = choose|j: int| 0 <= j < after.len() && after[j] == x;
            if !before.contains(after[j]) {
                let q = after[j].0;
                assert(is_prefix_of(q, p));
                assert(has_path(before, p.take(q.len() as int)));
            }
        }
    }
    lemma_same_entries_same_list(before, after);
}

/// With the root closed, no row is shown.
pub proof fn law_closed_root_shows_nothing(v: Seq<EntryView>, x: Set<Seq<char>>, n: int)
    requires
        !x.contains(Seq::<char>::empty()),
    ensures
        rows_upto(v, x, n) == Seq::<RowView>::empty(),
    decreases n,
{
    if n > 0 {
        law_closed_root_shows_nothing(v, x, n - 1);
    }
}

} // verus!
