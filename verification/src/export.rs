//! Exports of tables as comma-separated text.
use crate::text::{append_chars, chars_of, join, string_of, views};
use vstd::prelude::*;

verus! {

pub struct ExportManager;

/// The views of a list of texts.
pub open spec fn texts_view(v: Seq<String>) -> Seq<Seq<char>> {
    v.map_values(|s: String| s@)
}

/// The lines of a CSV export from row `i` on: each row's cells joined with commas,
/// followed by a newline.
pub open spec fn csv_rows(rows: Seq<Seq<Seq<char>>>, i: int) -> Seq<char>
    decreases rows.len() - i,
{
    if i < 0 || i >= rows.len() {
        Seq::<char>::empty()
    } else {
        join(rows[i], seq![',']) + seq!['\n'] + csv_rows(rows, i + 1)
    }
}

fn texts_to_chars(v: &Vec<String>) -> (r: Vec<Vec<char>>)
    ensures
        views(r@) == texts_view(v@),
{
    let mut r: Vec<Vec<char>> = Vec::new();
    let mut i: usize = 0;
    while i < v.len()
        invariant
            i <= v.len(),
            views(r@) == texts_view(v@).take(i as int),
        decreases v.len() - i,
    {
        let ghost before = r@;
        let x = chars_of(v[i].as_str());
        r.push(x);
        proof {
            assert(r@ =~= before.push(x));
            assert(views(r@) =~= views(before).push(x@));
            assert(texts_view(v@).take(i + 1) =~= texts_view(v@).take(i as int).push(
                texts_view(v@)[i as int],
            ));
        }
        i = i + 1;
    }
    assert(texts_view(v@).take(v.len() as int) =~= texts_view(v@));
    r
}

impl ExportManager {
    /// The text of a CSV export: the header line, then one line per row, cells joined
    /// with commas as they are and each line ended by a newline.
    pub fn csv_text(headers: &Vec<String>, rows: &Vec<Vec<String>>) -> (r: String)
        ensures
            r@ == join(texts_view(headers@), seq![',']) + seq!['\n'] + csv_rows(
                rows@.map_values(|row: Vec<String>| texts_view(row@)),
                0,
            ),
    {
        let ghost rv = rows@.map_values(|row: Vec<String>| texts_view(row@));
        let comma = vec![','];
        assert(comma@ =~= seq![',']);
        let h = texts_to_chars(headers);
        let mut out = crate::text::join_chars(&h, &comma);
        out.push('\n');
        let ghost head = out@;
        let mut i: usize = 0;
        while i < rows.len()
            invariant
                i <= rows.len(),
                comma@ == seq![','],
                rv == rows@.map_values(|row: Vec<String>| texts_view(row@)),
                out@ + csv_rows(rv, i as int) == head + csv_rows(rv, 0),
            decreases rows.len() - i,
        {
            let ghost before = out@;
            let cells = texts_to_chars(&rows[i]);
            let line = crate::text::join_chars(&cells, &comma);
            append_chars(&mut out, &line);
            out.push('\n');
            assert(rv[i as int] == texts_view(rows@[i as int]@));
            assert(out@ + csv_rows(rv, i + 1) =~= before + csv_rows(rv, i as int));
            i = i + 1;
        }
        assert(out@ + Seq::<char>::empty() =~= out@);
        string_of(&out)
    }
}

} // verus!
