//! The research notebook: the names under which notes are saved.
use crate::text::{chars_of, string_of, trim, trim_by, trim_chars, trim_chars_by, TrimSet};
use vstd::prelude::*;

verus! {

/// Each character that is not an ASCII letter or digit written `_`.
pub open spec fn underscored(s: Seq<char>) -> Seq<char> {
    s.map_values(|c: char| if crate::text::is_ascii_alnum(c) { c } else { '_' })
}

/// Each run of `_` written as one.
pub open spec fn squeezed(s: Seq<char>) -> Seq<char>
    decreases s.len(),
{
    if s.len() == 0 {
        s
    } else {
        let p = squeezed(s.drop_last());
        if s.last() == '_' && p.len() > 0 && p.last() == '_' {
            p
        } else {
            p.push(s.last())
        }
    }
}

/// The part of a note's file name that the query gives: its characters other than
/// ASCII letters and digits as `_`, runs of `_` as one, and none at either end.
pub open spec fn query_slug(q: Seq<char>) -> Seq<char> {
    trim_by(squeezed(underscored(q)), TrimSet::Underscore)
}

/// The file name of a note saved at the time stamp `ts` for the query `q`.
pub open spec fn note_file_name(q: Seq<char>, ts: Seq<char>) -> Seq<char> {
    if trim(q).len() == 0 {
        "research_"@ + ts + ".md"@
    } else {
        "research_"@ + ts + "_"@ + query_slug(q) + ".md"@
    }
}

/// The file name under which a research note is saved.
pub fn research_file_name(query: &str, timestamp: &str) -> (r: String)
    ensures
        r@ == note_file_name(query@, timestamp@),
{
    let q = chars_of(query);
    let mut v = chars_of("research_");
    crate::text::append_str(&mut v, timestamp);
    if trim_chars(&q).len() == 0 {
        crate::text::append_str(&mut v, ".md");
        return string_of(&v);
    }
    let mut s: Vec<char> = Vec::new();
    let mut i: usize = 0;
    while i < q.len()
        invariant
            i <= q.len(),
            s@ == squeezed(underscored(q@.take(i as int))),
        decreases q.len() - i,
    {
        let ghost pre = underscored(q@.take(i as int));
        assert(underscored(q@.take(i + 1)) =~= pre.push(
            if crate::text::is_ascii_alnum(q@[i as int]) {
                q@[i as int]
            } else {
                '_'
            },
        ));
        assert(underscored(q@.take(i + 1)).drop_last() =~= pre);
        let c = if crate::text::char_is_ascii_alnum(q[i]) {
            q[i]
        } else {
            '_'
        };
        if !(c == '_' && s.len() > 0 && s[s.len() - 1] == '_') {
            s.push(c);
        }
        i = i + 1;
    }
    assert(q@.take(q.len() as int) =~= q@);
    let slug = trim_chars_by(&s, TrimSet::Underscore);
    crate::text::append_str(&mut v, "_");
    crate::text::append_chars(&mut v, &slug);
    crate::text::append_str(&mut v, ".md");
    string_of(&v)
}

/// The file name under which a research note is saved now: as `research_file_name`
/// says, for the time stamp the clock gave.
pub fn research_file_name_now(query: &str) -> (r: String)
    ensures
        exists|ts: Seq<char>| crate::clock::is_compact_stamp(ts) && r@ == note_file_name(query@, ts),
{
    let ts = crate::clock::now_compact_stamp();
    let r = research_file_name(query, ts.as_str());
    assert(crate::clock::is_compact_stamp(ts@) && r@ == note_file_name(query@, ts@));
    r
}

/// The title of a note kept in the knowledge base: the query, trimmed, or
/// `Research Notes` where it is blank.
pub fn note_title(query: &str) -> (r: String)
    ensures
        trim(query@).len() == 0 ==> r@ == "Research Notes"@,
        trim(query@).len() > 0 ==> r@ == trim(query@),
{
    let t = trim_chars(&chars_of(query));
    if t.len() == 0 {
        "Research Notes".to_string()
    } else {
        string_of(&t)
    }
}

/// Where a saved notebook came from: its normalized source address, else its vault
/// path, else the kind of its source.
pub fn notebook_source(source_uri: Option<String>, vault_path: Option<String>, source_kind: String) -> (r:
    String)
    ensures
        r@ == match source_uri {
            Some(u) => u@,
            None => match vault_path {
                Some(p) => p@,
                None => source_kind@,
            },
        },
{
    match source_uri {
        Some(u) => u,
        None => match vault_path {
            Some(p) => p,
            None => source_kind,
        },
    }
}

} // verus!

verus! {

/// What an automatic search leaves when it could not run: the notebook text and the
/// status line. `worker` tells whether the search task itself failed rather than the
/// search.
pub fn search_failure(query: &str, error: &str, worker: bool) -> (r: (String, String))
    ensures
        !worker ==> r.0@ == "## Research Notes\n\nAuto-search failed for `"@ + query@ + "`.\n\nError: "@
            + error@ && r.1@ == "Auto-search failed: "@ + error@,
        worker ==> r.0@ == "## Research Notes\n\nAuto-search worker failed for `"@ + query@
            + "`.\n\nError: "@ + error@ && r.1@ == "Auto-search worker failed: "@ + error@,
{
    let mut notebook = if worker {
        chars_of("## Research Notes\n\nAuto-search worker failed for `")
    } else {
        chars_of("## Research Notes\n\nAuto-search failed for `")
    };
    crate::text::append_str(&mut notebook, query);
    crate::text::append_str(&mut notebook, "`.\n\nError: ");
    crate::text::append_str(&mut notebook, error);
    let mut status = if worker {
        chars_of("Auto-search worker failed: ")
    } else {
        chars_of("Auto-search failed: ")
    };
    crate::text::append_str(&mut status, error);
    (string_of(&notebook), string_of(&status))
}

/// The status line after a search: where the notebook was saved, or that saving failed.
pub fn search_status(saved_to: Option<&str>) -> (r: String)
    ensures
        r@ == match saved_to {
            Some(t) => "Saved to Research Notebook: "@ + t@,
            None => "Research draft ready; save failed."@,
        },
{
    match saved_to {
        Some(t) => {
            let mut v = chars_of("Saved to Research Notebook: ");
            crate::text::append_str(&mut v, t);
            string_of(&v)
        },
        None => "Research draft ready; save failed.".to_string(),
    }
}

/// The outcome recorded for a search that found `n` results.
pub fn found_results_message(n: usize) -> (r: String)
    ensures
        r@ == "Found "@ + crate::text::decimal(n as nat) + " results"@,
{
    let mut v = chars_of("Found ");
    crate::text::append_chars(&mut v, &crate::text::decimal_chars(n as u64));
    crate::text::append_str(&mut v, " results");
    string_of(&v)
}

/// The status line after saving a note by hand.
pub fn save_note_status(saved: bool) -> (r: &'static str)
    ensures
        saved ==> r@ == "Saved successfully!"@,
        !saved ==> r@ == "Save failed."@,
{
    if saved {
        "Saved successfully!"
    } else {
        "Save failed."
    }
}

} // verus!
