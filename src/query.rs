//! Searching a directory walk for files that carry a set of tags.
use vstd::prelude::*;

use crate::error::Error;
use crate::store::{attrs_view, decoded_tags, list_tags_btree, names, tags_view};
use crate::tag::Tag;

verus! {

/// The views of a list of names.
pub open spec fn names_view(s: Seq<String>) -> Seq<Seq<char>> {
    s.map_values(|n: String| n@)
}

/// Whether the tags of a listing include every requested name.
pub open spec fn carries_all(requested: Seq<Seq<char>>, a: Seq<(Seq<char>, Seq<char>)>) -> bool {
    forall|i: int| 0 <= i < requested.len() ==> names(decoded_tags(a)).contains(#[trigger] requested[i])
}

/// Whether a walked entry is a match: its attributes could be listed, and its
/// tags include every requested name.
pub open spec fn entry_matches(
    requested: Seq<Seq<char>>,
    e: (String, Result<Vec<(String, String)>, Error>),
) -> bool {
    match e.1 {
        Ok(a) => carries_all(requested, attrs_view(a@)),
        Err(_) => false,
    }
}

/// The paths of the matching entries, in walk order.
pub open spec fn matching_paths(
    requested: Seq<Seq<char>>,
    es: Seq<(String, Result<Vec<(String, String)>, Error>)>,
) -> Seq<Seq<char>>
    decreases es.len(),
{
    if es.len() == 0 {
        Seq::empty()
    } else if entry_matches(requested, es.last()) {
        matching_paths(requested, es.drop_last()).push(es.last().0@)
    } else {
        matching_paths(requested, es.drop_last())
    }
}

/// Whether every requested name is the name of one of `tags`.
fn carries_all_names(requested: &Vec<String>, tags: &Vec<Tag>) -> (r: bool)
    ensures
        r == forall|i: int| 0 <= i < requested@.len() ==> names(tags_view(tags@)).contains(#[trigger] names_view(requested@)[i]),
{
    let ghost t = tags_view(tags@).map_values(|x: (Seq<char>, i64)| x.0);
    let n = requested.len();
    let m = tags.len();
    let mut i: usize = 0;
    while i < n
        invariant
            i <= n,
            n == requested@.len(),
            m == tags@.len(),
            t == tags_view(tags@).map_values(|x: (Seq<char>, i64)| x.0),
            forall|k: int| 0 <= k < i ==> names(tags_view(tags@)).contains(#[trigger] names_view(requested@)[k]),
        decreases n - i,
    {
        let want = &requested[i];
        let mut j: usize = 0;
        let mut found = false;
        while j < m && !found
            invariant
                j <= m,
                m == tags@.len(),
                t == tags_view(tags@).map_values(|x: (Seq<char>, i64)| x.0),
                found ==> names(tags_view(tags@)).contains(want@),
                !found ==> forall|k: int| 0 <= k < j ==> t[k] != want@,
            decreases m - j + (if found { 0int } else { 1int }),
        {
            if tags[j].name_string() == *want {
                assert(t[j as int] == want@);
                found = true;
            } else {
                j = j + 1;
            }
        }
        if !found {
            assert(!names(tags_view(tags@)).contains(names_view(requested@)[i as int]));
            return false;
        }
        i = i + 1;
    }
    true
}

/// Filters the entries of a directory walk down to the paths of the files whose
/// tags include every requested name. An entry whose attributes could not be
/// listed is passed over; an empty request matches every listed entry.
pub fn search_files_with_tags(
    tags: &Vec<String>,
    entries: &Vec<(String, Result<Vec<(String, String)>, Error>)>,
) -> (r: Vec<String>)
    ensures
        names_view(r@) == matching_paths(names_view(tags@), entries@),
{
    let ghost req = names_view(tags@);
    let mut files: Vec<String> = Vec::new();
    let n = entries.len();
    let mut i: usize = 0;
    while i < n
        invariant
            i <= n,
            n == entries@.len(),
            req == names_view(tags@),
            names_view(files@) == matching_paths(req, entries@.take(i as int)),
        decreases n - i,
    {
        let ghost es = entries@.take(i + 1);
        proof {
            assert(es.drop_last() =~= entries@.take(i as int));
            assert(es.last() == entries@[i as int]);
        }
        let (path, listing) = &entries[i];
        match listing {
            Ok(attrs) => {
                let sorted = list_tags_btree(attrs);
                let hit = carries_all_names(tags, &sorted);
                assert(hit == carries_all(req, attrs_view(attrs@)));
                if hit {
                    files.push(path.clone());
                    assert(names_view(files@) =~= matching_paths(req, es));
                }
            },
            Err(_) => {},
        }
        i = i + 1;
    }
    assert(entries@.take(n as int) =~= entries@);
    files
}

/// An empty request matches every entry whose attributes could be listed.
pub proof fn lemma_empty_request_matches_all(e: (String, Result<Vec<(String, String)>, Error>))
    requires
        e.1 is Ok,
    ensures
        entry_matches(Seq::empty(), e),
{
}

} // verus!
