//! Filters on the paths of hits.

use vstd::prelude::*;

use crate::path::{extension, path_extension};
use crate::search::results::{hit_views, HitView, SearchHit};
use crate::text::{ascii_lowercase, contains_text, equal_but_for_ascii_case, is_infix,
    law_ascii_case_is_all_that_differs, law_infix_has_text_around, texts};

verus! {

/// Filters for a search.
#[derive(Debug, Clone, Default)]
pub struct SearchFilters {
    /// Filter by file extensions (e.g. `["rs", "ts"]`).
    pub extensions: Option<Vec<String>>,
    /// Filter by path patterns.
    pub paths: Option<Vec<String>>,
}

/// Filters as a value.
pub struct FiltersView {
    pub extensions: Option<Seq<Seq<char>>>,
    pub paths: Option<Seq<Seq<char>>>,
}

impl View for SearchFilters {
    type V = FiltersView;

    open spec fn view(&self) -> FiltersView {
        FiltersView {
            extensions: match self.extensions {
                Some(list) => Some(texts(list@)),
                None => None,
            },
            paths: match self.paths {
                Some(list) => Some(texts(list@)),
                None => None,
            },
        }
    }
}

/// There is an extension `ext`, and but for the case of ASCII letters it is one of `extensions`.
pub open spec fn is_one_of(ext: Option<Seq<char>>, extensions: Seq<Seq<char>>) -> bool {
    ext matches Some(ext) && exists|k: int|
        0 <= k < extensions.len() && ascii_lowercase(#[trigger] extensions[k]) == ascii_lowercase(ext)
}

/// One of `parts` stands in `path`.
pub open spec fn holds_one_of(path: Seq<char>, parts: Seq<Seq<char>>) -> bool {
    exists|k: int| 0 <= k < parts.len() && is_infix(#[trigger] parts[k], path)
}

/// A hit under `path`, where the file has the extension `ext`, passes `filters`.
pub open spec fn passes_with(filters: FiltersView, path: Seq<char>, ext: Option<Seq<char>>) -> bool {
    &&& filters.extensions matches Some(list) ==> is_one_of(ext, list)
    &&& filters.paths matches Some(list) ==> holds_one_of(path, list)
}

/// A hit under `path` passes `filters`.
pub open spec fn passes(filters: FiltersView, path: Seq<char>) -> bool {
    passes_with(filters, path, extension(path))
}

/// Holds of the hits that pass `filters`.
pub open spec fn passing(filters: FiltersView) -> spec_fn(HitView) -> bool {
    |hit: HitView| passes(filters, hit.path)
}

/// `hits` without those that do not pass `filters`, cut to `limit` hits.
pub open spec fn screened_hits(hits: Seq<HitView>, filters: FiltersView, limit: nat) -> Seq<HitView> {
    let kept = hits.filter(passing(filters));
    if limit < kept.len() {
        kept.take(limit as int)
    } else {
        kept
    }
}

/// `ext` as a value.
pub open spec fn extension_view(ext: Option<&str>) -> Option<Seq<char>> {
    match ext {
        Some(ext) => Some(ext@),
        None => None,
    }
}

fn check_extension(ext: Option<&str>, extensions: &Vec<String>) -> (yes: bool)
    ensures
        yes == is_one_of(extension_view(ext), texts(extensions@)),
{
    match ext {
        None => false,
        Some(given) => {
            let mut k: usize = 0;
            while k < extensions.len()
                invariant
                    k <= extensions@.len(),
                    ext == Some(given),
                    forall|j: int|
                        0 <= j < k ==> ascii_lowercase(#[trigger] texts(extensions@)[j]) != ascii_lowercase(given@),
                decreases extensions@.len() - k,
            {
                if equal_but_for_ascii_case(extensions[k].as_str(), given) {
                    assert(ascii_lowercase(texts(extensions@)[k as int]) == ascii_lowercase(given@));
                    return true;
                }
                k += 1;
            }
            false
        },
    }
}

fn check_path(path: &str, parts: &Vec<String>) -> (yes: bool)
    ensures
        yes == holds_one_of(path@, texts(parts@)),
{
    let mut k: usize = 0;
    while k < parts.len()
        invariant
            k <= parts@.len(),
            forall|j: int| 0 <= j < k ==> !is_infix(#[trigger] texts(parts@)[j], path@),
        decreases parts@.len() - k,
    {
        if contains_text(path, parts[k].as_str()) {
            assert(is_infix(texts(parts@)[k as int], path@));
            return true;
        }
        k += 1;
    }
    false
}

impl SearchFilters {
    /// Whether a hit under `path`, with `/` between its components, passes the filters.
    pub fn accepts(&self, path: &str) -> (yes: bool)
        ensures
            yes == passes(self@, path@),
    {
        match path_extension(path) {
            Some(ext) => self.accepts_with(path, Some(ext.as_str())),
            None => self.accepts_with(path, None),
        }
    }

    /// Whether a hit under `path`, where the file has the extension `ext`, passes the filters.
    pub fn accepts_with(&self, path: &str, ext: Option<&str>) -> (yes: bool)
        ensures
            yes == passes_with(self@, path@, extension_view(ext)),
    {
        let by_extension = match &self.extensions {
            Some(list) => check_extension(ext, list),
            None => true,
        };
        let by_path = match &self.paths {
            Some(list) => check_path(path, list),
            None => true,
        };
        by_extension && by_path
    }

    /// The hits that pass the filters, cut to `limit` hits.
    pub fn screen(&self, hits: Vec<SearchHit>, limit: usize) -> (kept: Vec<SearchHit>)
        ensures
            hit_views(kept@) == screened_hits(hit_views(hits@), self@, limit as nat),
    {
        let ghost all = hit_views(hits@);
        let ghost listed = hits@;
        let ghost holds = passing(self@);
        let mut kept: Vec<SearchHit> = Vec::new();
        reveal(Seq::filter);
        assert(hit_views(kept@) =~= all.take(0).filter(holds));
        for hit in it: hits
            invariant
                it.seq() == listed,
                all == hit_views(listed),
                holds == passing(self@),
                hit_views(kept@) == all.take(it.index()).filter(holds),
        {
            let ghost before = hit_views(kept@);
            proof {
                reveal(Seq::filter);
                let i = it.index();
                assert(all.take(i + 1).drop_last() =~= all.take(i));
                assert(all.take(i + 1).last() == hit@);
            }
            if self.accepts(hit.path.as_str()) {
                kept.push(hit);
                assert(hit_views(kept@) =~= before.push(hit@));
            }
        }
        assert(all.take(all.len() as int) =~= all);
        let ghost full = hit_views(kept@);
        kept.truncate(limit);
        proof {
            if limit < full.len() {
                assert(hit_views(kept@) =~= full.take(limit as int));
            } else {
                assert(hit_views(kept@) =~= full);
            }
        }
        kept
    }
}

// ---------------------------------------------------------------------------------------------
// Laws
// ---------------------------------------------------------------------------------------------

/// A filter by extensions lets a file through exactly where the file has an extension that is as long
/// as one of those given and has at each place the same character, but for the case of letters of
/// ASCII.
pub proof fn law_extension_filter_wants_the_whole_extension(
    extensions: Seq<Seq<char>>,
    path: Seq<char>,
    ext: Option<Seq<char>>,
)
    ensures
        passes_with(FiltersView { extensions: Some(extensions), paths: None }, path, ext) <==> ext is Some && exists|
            k: int,
        |
            0 <= k < extensions.len() && (#[trigger] extensions[k]).len() == ext->0.len() && forall|i: int|
                0 <= i < ext->0.len() ==> {
                    ||| #[trigger] extensions[k][i] == ext->0[i]
                    ||| 'a' <= extensions[k][i] <= 'z' && ext->0[i] as int + 32 == extensions[k][i] as int
                    ||| 'a' <= ext->0[i] <= 'z' && extensions[k][i] as int + 32 == ext->0[i] as int
                },
{
    let filters = FiltersView { extensions: Some(extensions), paths: None };
    if let Some(given) = ext {
        assert forall|k: int| 0 <= k < extensions.len() implies (ascii_lowercase(#[trigger] extensions[k])
            == ascii_lowercase(given) <==> extensions[k].len() == given.len() && forall|i: int|
            0 <= i < given.len() ==> {
                ||| #[trigger] extensions[k][i] == given[i]
                ||| 'a' <= extensions[k][i] <= 'z' && given[i] as int + 32 == extensions[k][i] as int
                ||| 'a' <= given[i] <= 'z' && extensions[k][i] as int + 32 == given[i] as int
            }) by {
            law_ascii_case_is_all_that_differs(extensions[k], given);
        }
    }
}

/// A filter by the one extension `e` lets files with the extension `x` through exactly where both
/// have the same lower case in ASCII.
pub proof fn law_filter_by_one_extension(e: Seq<char>, path: Seq<char>, x: Seq<char>)
    ensures
        passes_with(FiltersView { extensions: Some(seq![e]), paths: None }, path, Some(x)) <==> ascii_lowercase(e)
            == ascii_lowercase(x),
{
    assert(seq![e][0] == e);
}

/// A filter by paths lets a hit through exactly where one of the given texts stands in its path,
/// with whatever before and behind it.
pub proof fn law_path_filter_wants_a_part_of_the_path(
    parts: Seq<Seq<char>>,
    path: Seq<char>,
    ext: Option<Seq<char>>,
)
    ensures
        passes_with(FiltersView { extensions: None, paths: Some(parts) }, path, ext) <==> exists|
            k: int,
            before: Seq<char>,
            after: Seq<char>,
        |
            0 <= k < parts.len() && path == #[trigger] (before + parts[k] + after),
{
    if holds_one_of(path, parts) {
        let k = choose|k: int| 0 <= k < parts.len() && is_infix(#[trigger] parts[k], path);
        law_infix_has_text_around(parts[k], path);
        let (before, after) = choose|before: Seq<char>, after: Seq<char>|
            path == #[trigger] (before + parts[k] + after);
        assert(path == before + parts[k] + after);
    }
    assert forall|k: int, before: Seq<char>, after: Seq<char>|
        0 <= k < parts.len() && path == #[trigger] (before + parts[k] + after) implies holds_one_of(path, parts) by {
        law_infix_has_text_around(parts[k], path);
        assert(is_infix(parts[k], path));
    }
}

/// A hit passes two filters exactly where it passes each of them, everything passes where there is
/// none, and the extension of a path is what decides for the path.
pub proof fn law_both_filters_have_to_be_passed(filters: FiltersView, path: Seq<char>, ext: Option<Seq<char>>)
    ensures
        passes_with(filters, path, ext) <==> passes_with(
            FiltersView { extensions: filters.extensions, paths: None },
            path,
            ext,
        ) && passes_with(FiltersView { extensions: None, paths: filters.paths }, path, ext),
        passes_with(FiltersView { extensions: None, paths: None }, path, ext),
        passes(filters, path) == passes_with(filters, path, extension(path)),
{
}

/// Hits are screened one by one: a hit that passes is kept, unless there are as many as wanted, and
/// one that does not pass changes nothing.
pub proof fn law_hits_are_screened_one_by_one(
    hits: Seq<HitView>,
    next: HitView,
    filters: FiltersView,
    limit: nat,
)
    ensures
        screened_hits(Seq::<HitView>::empty(), filters, limit) == Seq::<HitView>::empty(),
        screened_hits(hits.push(next), filters, limit) == (if passes(filters, next.path) && screened_hits(
            hits,
            filters,
            limit,
        ).len() < limit {
            screened_hits(hits, filters, limit).push(next)
        } else {
            screened_hits(hits, filters, limit)
        }),
{
    reveal(Seq::filter);
    let none = Seq::<HitView>::empty();
    assert(none.filter(passing(filters)) =~= none);
    assert(hits.push(next).drop_last() =~= hits);
    let kept = hits.filter(passing(filters));
    if passes(filters, next.path) {
        assert(hits.push(next).filter(passing(filters)) =~= kept.push(next));
        if limit <= kept.len() {
            assert(kept.push(next).take(limit as int) =~= kept.take(limit as int));
            assert(kept.take(kept.len() as int) =~= kept);
        }
    }
}

/// The filters of a search hold the extensions and the parts of paths that were given.
pub proof fn law_filters_hold_what_was_given(filters: SearchFilters)
    ensures
        filters.extensions is None <==> filters@.extensions is None,
        filters.extensions is Some ==> filters@.extensions == Some(texts(filters.extensions->0@)),
        filters.paths is None <==> filters@.paths is None,
        filters.paths is Some ==> filters@.paths == Some(texts(filters.paths->0@)),
{
}

} // verus!
