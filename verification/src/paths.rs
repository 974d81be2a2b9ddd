//! Where a knowledge record stands in the file tree: the path that its kind, its
//! title and its place in the vault give it, split into names.
use crate::filetree::texts;
use crate::knowledge::{opt_text, KnowledgeItem, KnowledgeRecordKind};
use crate::text::{append_str, chars_of, string_of};
use vstd::prelude::*;

verus! {

// ---------------------------------------------------------------------------
// std::path
// ---------------------------------------------------------------------------
/// The names of the components of the path `path`, as `Path::components` gives them.
pub uninterp spec fn path_components(path: Seq<char>) -> Seq<Seq<char>>;

/// The path `rest` joined onto `base`, as `Path::join` gives it.
pub uninterp spec fn joined_path(base: Seq<char>, rest: Seq<char>) -> Seq<char>;

/// The last name of the path `path`, as `Path::file_name` gives it.
pub uninterp spec fn path_file_name(path: Seq<char>) -> Option<Seq<char>>;

/// The path `path` with the leading components `base` taken off, as
/// `Path::strip_prefix` gives it.
pub uninterp spec fn path_without_prefix(path: Seq<char>, base: Seq<char>) -> Option<Seq<char>>;

/// Calls `std::path::Path::components` and takes each component as a string. The
/// contract only names the result: what it is for each input is std's.
#[verifier::external_body]
fn components_of(path: &str) -> (r: Vec<String>)
    ensures
        texts(r@) == path_components(path@),
{
    let mut out: Vec<String> = Vec::new();
    for c in std::path::Path::new(path).components() {
        out.push(c.as_os_str().to_string_lossy().into_owned());
    }
    out
}

/// Calls `std::path::Path::join`. The contract only names the result.
#[verifier::external_body]
fn join_path(base: &str, rest: &str) -> (r: String)
    ensures
        r@ == joined_path(base@, rest@),
{
    std::path::Path::new(base).join(rest).to_string_lossy().into_owned()
}

/// Calls `std::path::Path::file_name`. The contract only names the result.
#[verifier::external_body]
fn file_name_of(path: &str) -> (r: Option<String>)
    ensures
        opt_text(r) == path_file_name(path@),
{
    match std::path::Path::new(path).file_name() {
        Some(name) => Some(name.to_string_lossy().into_owned()),
        None => None,
    }
}

/// Calls `std::path::Path::strip_prefix`; its error becomes `None`. The contract only
/// names the result.
#[verifier::external_body]
fn strip_path_prefix(path: &str, base: &str) -> (r: Option<String>)
    ensures
        opt_text(r) == path_without_prefix(path@, base@),
{
    match std::path::Path::new(path).strip_prefix(base) {
        Ok(rest) => Some(rest.to_string_lossy().into_owned()),
        Err(_) => None,
    }
}

// ---------------------------------------------------------------------------
// The path of a record
// ---------------------------------------------------------------------------
/// The last name of `path`, or nothing where it has none.
pub open spec fn file_name_or_empty(path: Seq<char>) -> Seq<char> {
    match path_file_name(path) {
        Some(name) => name,
        None => Seq::empty(),
    }
}

/// Where a document stands under the documents folder. One read from the vault at
/// `source` (after the caller made it canonical where it could) stands where it is
/// under the vault's root `vault_root`, or, where no vault is set or it lies outside
/// it, by its file name alone; any other document is `<title>.md`.
pub open spec fn document_place(
    source: Option<Seq<char>>,
    vault: Seq<char>,
    vault_root: Seq<char>,
    title: Seq<char>,
) -> Seq<char> {
    match source {
        Some(path) => if vault.len() == 0 {
            file_name_or_empty(path)
        } else {
            match path_without_prefix(path, vault_root) {
                Some(rest) => rest,
                None => file_name_or_empty(path),
            }
        },
        None => title + ".md"@,
    }
}

/// The folder at the top of the tree for records of the kind `kind`, and the path
/// under it.
pub open spec fn record_place(kind: KnowledgeRecordKind, title: Seq<char>, document: Seq<char>) -> (Seq<char>, Seq<char>) {
    match kind {
        KnowledgeRecordKind::Memory => ("Memories"@, title + ".md"@),
        KnowledgeRecordKind::Artifact => ("Artifacts"@, title),
        KnowledgeRecordKind::Document => ("Documents"@, document),
    }
}

/// The names of the path of a record in the tree.
pub open spec fn record_path(kind: KnowledgeRecordKind, title: Seq<char>, document: Seq<char>) -> Seq<Seq<char>> {
    let (top, rest) = record_place(kind, title, document);
    path_components(joined_path(top, rest))
}

fn with_md(title: &str) -> (r: String)
    ensures
        r@ == title@ + ".md"@,
{
    let mut cs = chars_of(title);
    append_str(&mut cs, ".md");
    string_of(&cs)
}

/// Where the document `item` stands under the documents folder; `source` is its vault
/// path made canonical where that could be done, `vault` the vault setting and
/// `vault_root` the vault's canonical root.
pub fn document_path(item: &KnowledgeItem, source: Option<&str>, vault: &str, vault_root: &str) -> (r: String)
    ensures
        r@ == document_place(
            match source {
                Some(s) => Some(s@),
                None => None,
            },
            vault@,
            vault_root@,
            item.title@,
        ),
{
    match source {
        Some(path) => {
            if vault.is_empty() {
                match file_name_of(path) {
                    Some(name) => name,
                    None => String::new(),
                }
            } else {
                match strip_path_prefix(path, vault_root) {
                    Some(rest) => rest,
                    None => match file_name_of(path) {
                        Some(name) => name,
                        None => String::new(),
                    },
                }
            }
        },
        None => with_md(item.title.as_str()),
    }
}

/// The names of the path at which the record `item` stands in the tree; `document` is
/// where a document stands under the documents folder (see `document_path`).
pub fn record_tree_path(item: &KnowledgeItem, document: &str) -> (r: Vec<String>)
    ensures
        texts(r@) == record_path(item.record_kind, item.title@, document@),
{
    let joined = match item.record_kind {
        KnowledgeRecordKind::Memory => {
            let rest = with_md(item.title.as_str());
            join_path("Memories", rest.as_str())
        },
        KnowledgeRecordKind::Artifact => join_path("Artifacts", item.title.as_str()),
        KnowledgeRecordKind::Document => join_path("Documents", document),
    };
    components_of(joined.as_str())
}

} // verus!
