//! The application's assets: its own files first, then the component library's.
use vstd::prelude::*;

verus! {

/// The assets that ship with the application.
pub struct LocalAssets;

/// The application's assets in front of the component library's.
pub struct CombinedAssets;

/// Where an asset is read from.
#[derive(Clone, Copy, PartialEq, Eq, Debug, Structural)]
pub enum AssetSource {
    /// Nothing is read for an empty path.
    Nothing,
    /// The application's own file.
    Local,
    /// The component library's file.
    Library,
}

impl CombinedAssets {
    /// Where the asset at `path` is read from, given whether the application has a
    /// file there: nothing for an empty path, else its own file where it has one,
    /// else the library's.
    pub fn source_for(path: &str, has_local: bool) -> (r: AssetSource)
        ensures
            path@.len() == 0 ==> r == AssetSource::Nothing,
            path@.len() > 0 && has_local ==> r == AssetSource::Local,
            path@.len() > 0 && !has_local ==> r == AssetSource::Library,
    {
        if crate::text::chars_of(path).len() == 0 {
            AssetSource::Nothing
        } else if has_local {
            AssetSource::Local
        } else {
            AssetSource::Library
        }
    }

    /// The assets listed under `path`: the application's files whose path begins with
    /// it, in order, then the library's list where it could be read.
    pub fn combined_list(path: &str, local: &Vec<String>, library: Option<Vec<String>>) -> (r: Vec<String>)
        ensures
            crate::orchestration::texts(r@) == starting_with(crate::orchestration::texts(local@), path@)
                + match library {
                Some(l) => crate::orchestration::texts(l@),
                None => Seq::<Seq<char>>::empty(),
            },
    {
        let prefix = crate::text::chars_of(path);
        let mut r: Vec<String> = Vec::new();
        let mut i: usize = 0;
        while i < local.len()
            invariant
                i <= local.len(),
                prefix@ == path@,
                crate::orchestration::texts(r@) == starting_with(
                    crate::orchestration::texts(local@).take(i as int),
                    path@,
                ),
            decreases local.len() - i,
        {
            let ghost before = r@;
            assert(crate::orchestration::texts(local@).take(i + 1).drop_last()
                =~= crate::orchestration::texts(local@).take(i as int));
            if crate::text::starts_with_chars(&crate::text::chars_of(local[i].as_str()), &prefix) {
                let x = local[i].clone();
                r.push(x);
                proof {
                    crate::orchestration::lemma_texts_push(before, x);
                }
            }
            i = i + 1;
        }
        assert(crate::orchestration::texts(local@).take(local.len() as int)
            =~= crate::orchestration::texts(local@));
        match library {
            Some(l) => {
                let mut j: usize = 0;
                let ghost base = r@;
                while j < l.len()
                    invariant
                        j <= l.len(),
                        crate::orchestration::texts(r@) == crate::orchestration::texts(base)
                            + crate::orchestration::texts(l@).take(j as int),
                    decreases l.len() - j,
                {
                    let ghost before = r@;
                    let x = l[j].clone();
                    r.push(x);
                    proof {
                        crate::orchestration::lemma_texts_push(before, x);
                        assert(crate::orchestration::texts(l@).take(j + 1)
                            =~= crate::orchestration::texts(l@).take(j as int).push(l@[j as int]@));
                    }
                    assert(crate::orchestration::texts(r@) =~= crate::orchestration::texts(base)
                        + crate::orchestration::texts(l@).take(j + 1));
                    j = j + 1;
                }
                assert(crate::orchestration::texts(l@).take(l.len() as int)
                    =~= crate::orchestration::texts(l@));
                r
            },
            None => {
                assert(crate::orchestration::texts(r@) =~= crate::orchestration::texts(r@)
                    + Seq::<Seq<char>>::empty());
                r
            },
        }
    }
}

/// The texts of `v` that begin with `p`, in order.
pub open spec fn starting_with(v: Seq<Seq<char>>, p: Seq<char>) -> Seq<Seq<char>>
    decreases v.len(),
{
    if v.len() == 0 {
        Seq::<Seq<char>>::empty()
    } else {
        let prev = starting_with(v.drop_last(), p);
        if crate::text::starts_with(v.last(), p) {
            prev.push(v.last())
        } else {
            prev
        }
    }
}

} // verus!
