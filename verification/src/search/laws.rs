//! What holds of every search.

use vstd::prelude::*;
use vstd::utf8::is_ascii_chars;

use crate::config::SearchConfig;
use crate::error::YgrepError;
use crate::path::extension;
use crate::search::document::CandidateView;
use crate::search::filters::{passes, passing, screened_hits, FiltersView};
use crate::search::pattern::{caseless_matches, finds_plainly, is_plain, refused_with};
use crate::search::results::{HitView, MatchType};
use crate::search::searcher::{effective_limit, filtered_search, hit_for, is_numbered, is_pattern_error, is_refusal,
    literal_search, next_hit, offered, outcome, pattern_search, screened_search, unfiltered_limit, wants_more,
    Criterion, Request, RequestView, SearchState, SNIPPET_LINES};
use crate::search::snippet::{first_line, is_first_at, law_pattern_snippet_goes_around_the_first_match,
    law_snippet_shows_the_lines_around, law_text_snippet_goes_around_the_first_mention, lemma_first_line_at,
    lemma_first_line_none, lowered_mentions, matched_by, matching_snippet, mentions, newline, query_words,
    relevant_snippet, shows_the_query, snippet, CONTEXT_BEFORE};
use crate::text::{alphanumeric, ascii_lower, ascii_lowercase, is_infix, join, law_infix_has_text_around,
    lemma_ascii_lowercase_of_lines, lemma_infix_in_piece, lemma_infix_of_infix, lemma_lines_of_ascii,
    lemma_piece_has_no_break, lemma_piece_is_infix, lemma_single_word, lemma_split_join, lemma_split_on_has_piece,
    line_feed, lines, lines_lower_as_ascii, long_search_terms, lowercase, lowers_as_ascii, not_empty, search_terms,
    split_on, stands_at, term_break, white_space, without_return};

verus! {

/// The search `state` after the documents `docs` were offered to it, best first, for as long as it
/// wanted more.
pub open spec fn offered_all(state: SearchState, docs: Seq<CandidateView>) -> SearchState
    decreases docs.len(),
{
    if docs.len() == 0 || !wants_more(state) {
        state
    } else {
        offered_all(offered(state, docs[0]), docs.drop_first())
    }
}

/// All the hits among `docs`, each with the index of its document as its rank.
pub open spec fn hits_among(criterion: Criterion, docs: Seq<CandidateView>) -> Seq<HitView>
    decreases docs.len(),
{
    if docs.len() == 0 {
        Seq::empty()
    } else {
        let earlier = hits_among(criterion, docs.drop_last());
        match hit_for(criterion, docs.last(), docs.len() - 1) {
            Some(hit) => earlier.push(hit),
            None => earlier,
        }
    }
}

proof fn lemma_offered_all(state: SearchState, docs: Seq<CandidateView>, at: int)
    requires
        0 <= at <= docs.len(),
        state.seen == at,
        state.hits == hits_among(state.criterion, docs.take(at)),
        state.hits.len() <= state.limit,
    ensures
        ({
            let end = offered_all(state, docs.skip(at));
            &&& at <= end.seen <= docs.len()
            &&& end == SearchState { seen: end.seen, hits: end.hits, ..state }
            &&& end.hits == hits_among(state.criterion, docs.take(end.seen as int))
            &&& end.hits.len() <= state.limit
            &&& end.seen < docs.len() ==> !wants_more(end)
        }),
    decreases docs.len() - at,
{
    if at < docs.len() && wants_more(state) {
        let next = offered(state, docs[at]);
        assert(docs.skip(at)[0] == docs[at]);
        assert(docs.skip(at).drop_first() =~= docs.skip(at + 1));
        assert(docs.take(at + 1).drop_last() =~= docs.take(at));
        assert(docs.take(at + 1).last() == docs[at]);
        lemma_offered_all(next, docs, at + 1);
    }
}

/// A search finds, of the documents that it looks at, exactly the hits. It looks at the documents
/// in their order, from the first on, gives no more hits than are wanted, and leaves documents out
/// only when it has as many.
pub proof fn law_search_finds_the_hits(start: SearchState, docs: Seq<CandidateView>)
    requires
        start.seen == 0,
        start.hits.len() == 0,
        !(start.request is Nothing),
    ensures
        ({
            let end = offered_all(start, docs);
            &&& end.seen <= docs.len()
            &&& end.hits == hits_among(start.criterion, docs.take(end.seen as int))
            &&& end.hits.len() <= start.limit
            &&& end.seen < docs.len() ==> end.hits.len() == start.limit
        }),
{
    assert(docs.skip(0) =~= docs);
    assert(docs.take(0) =~= Seq::<CandidateView>::empty());
    assert(start.hits =~= Seq::<HitView>::empty());
    lemma_offered_all(start, docs, 0);
}

/// A text search for a query without a searchable term finds nothing, whatever is offered.
pub proof fn law_no_terms_no_hits(
    config: SearchConfig,
    query: Seq<char>,
    limit: Option<usize>,
    docs: Seq<CandidateView>,
    query_time_ms: u64,
)
    requires
        search_terms(query).len() == 0,
    ensures
        outcome(offered_all(literal_search(config, query, limit), docs), query_time_ms).hits.len() == 0,
        outcome(offered_all(literal_search(config, query, limit), docs), query_time_ms).total == 0,
{
}

/// A search of any kind returns no more hits than were asked for and no more than are allowed.
pub proof fn law_results_are_within_the_limits(
    config: SearchConfig,
    query: Seq<char>,
    limit: Option<usize>,
    filters: FiltersView,
    use_regex: bool,
    found: Set<Seq<char>>,
    docs: Seq<CandidateView>,
    query_time_ms: u64,
)
    ensures
        effective_limit(config, limit) <= config.max_limit,
        limit matches Some(n) ==> effective_limit(config, limit) <= n,
        outcome(offered_all(literal_search(config, query, limit), docs), query_time_ms).total <= effective_limit(
            config,
            limit,
        ),
        outcome(offered_all(pattern_search(config, query, found, limit), docs), query_time_ms).total
            <= effective_limit(config, limit),
        outcome(
            offered_all(filtered_search(config, query, limit, filters, use_regex), docs),
            query_time_ms,
        ).total <= effective_limit(config, limit),
{
    let literal = literal_search(config, query, limit);
    if !(literal.request is Nothing) {
        law_search_finds_the_hits(literal, docs);
    }
    law_offers_keep_the_search(literal, docs);
    let pattern = pattern_search(config, query, found, limit);
    law_search_finds_the_hits(pattern, docs);
    law_offers_keep_the_search(pattern, docs);
    let filtered = filtered_search(config, query, limit, filters, use_regex);
    law_offers_keep_the_search(filtered, docs);
    law_filtered_outcome(offered_all(filtered, docs), query_time_ms);
}

/// What documents are offered changes nothing about how a search was asked for.
pub proof fn law_offers_keep_the_search(start: SearchState, docs: Seq<CandidateView>)
    ensures
        ({
            let end = offered_all(start, docs);
            end == SearchState { seen: end.seen, hits: end.hits, ..start }
        }),
    decreases docs.len(),
{
    if docs.len() > 0 && wants_more(start) {
        law_offers_keep_the_search(offered(start, docs[0]), docs.drop_first());
    }
}

/// A search asks the index by terms that are not empty and hold nothing but alphanumeric characters
/// and `_`.
pub proof fn law_terms_are_searchable(query: Seq<char>, k: int, i: int)
    requires
        0 <= k < search_terms(query).len(),
        0 <= i < search_terms(query)[k].len(),
    ensures
        search_terms(query)[k].len() > 0,
        alphanumeric(search_terms(query)[k][i]) || search_terms(query)[k][i] == '_',
{
    let pieces = split_on(query, term_break());
    let term = search_terms(query)[k];
    pieces.lemma_filter_pred(not_empty(), k);
    assert(search_terms(query).contains(term));
    pieces.lemma_filter_contains_rev(not_empty(), term);
    let at = pieces.index_of(term);
    lemma_piece_has_no_break(query, term_break(), at, i);
}

/// Every hit is the hit that its document is: the document is accepted, and its path, its name,
/// its lines and its snippet are those of the hit.
pub proof fn law_hits_are_accepted(criterion: Criterion, docs: Seq<CandidateView>, k: int)
    requires
        0 <= k < hits_among(criterion, docs).len(),
    ensures
        ({
            let hit = hits_among(criterion, docs)[k];
            &&& 0 <= hit.rank < docs.len()
            &&& criterion.accepts(docs[hit.rank].content)
            &&& hit_for(criterion, docs[hit.rank], hit.rank) == Some(hit)
        }),
    decreases docs.len(),
{
    let earlier = hits_among(criterion, docs.drop_last());
    if k < earlier.len() {
        law_hits_are_accepted(criterion, docs.drop_last(), k);
    }
}

/// Every accepted document among those looked at is a hit.
pub proof fn law_accepted_are_hits(criterion: Criterion, docs: Seq<CandidateView>, i: int)
    requires
        0 <= i < docs.len(),
        criterion.accepts(docs[i].content),
    ensures
        exists|k: int|
            0 <= k < hits_among(criterion, docs).len() && (#[trigger] hits_among(criterion, docs)[k]).rank
                == i,
    decreases docs.len(),
{
    let all = hits_among(criterion, docs);
    let earlier = hits_among(criterion, docs.drop_last());
    if i < docs.len() - 1 {
        law_accepted_are_hits(criterion, docs.drop_last(), i);
        let k = choose|k: int| 0 <= k < earlier.len() && (#[trigger] earlier[k]).rank == i;
        assert(all[k].rank == i);
    } else {
        assert(all[all.len() - 1].rank == i);
    }
}

/// The hits stand in the order of their documents.
pub proof fn law_hits_keep_the_order(
    criterion: Criterion,
    docs: Seq<CandidateView>,
    j: int,
    k: int,
)
    requires
        0 <= j < k < hits_among(criterion, docs).len(),
    ensures
        hits_among(criterion, docs)[j].rank < hits_among(criterion, docs)[k].rank,
    decreases docs.len(),
{
    let earlier = hits_among(criterion, docs.drop_last());
    if k < earlier.len() {
        law_hits_keep_the_order(criterion, docs.drop_last(), j, k);
    } else {
        law_hits_are_accepted(criterion, docs.drop_last(), j);
    }
}

/// Letter case does not matter to a text search: queries with the same lower case accept the same
/// documents, and so do documents with the same lower case.
pub proof fn law_case_does_not_matter(query: Seq<char>, other: Seq<char>, content: Seq<char>, recased: Seq<char>)
    requires
        lowercase(query) == lowercase(other),
        lowercase(content) == lowercase(recased),
    ensures
        Criterion::Literal(query).accepts(content) == Criterion::Literal(other).accepts(recased),
{
}

// ---------------------------------------------------------------------------------------------
// Snippets
// ---------------------------------------------------------------------------------------------

/// No line feed stands in a line.
proof fn lemma_line_has_no_feed(text: Seq<char>, k: int, i: int)
    requires
        0 <= k < lines(text).len(),
        0 <= i < lines(text)[k].len(),
    ensures
        lines(text)[k][i] != '\n',
{
    lemma_split_on_has_piece(text, line_feed());
    let pieces = split_on(text, line_feed());
    assert(lines(text)[k][i] == pieces[k][i]);
    lemma_piece_has_no_break(text, line_feed(), k, i);
}

/// The first lines of a text make up a text of no more lines.
proof fn lemma_top_lines(content: Seq<char>, count: int)
    requires
        0 <= count <= lines(content).len(),
    ensures
        lines(join(lines(content).take(count), newline())).len() <= count,
{
    let top = lines(content).take(count);
    if count == 0 {
        assert(split_on(join(top, newline()), line_feed()) =~= seq![Seq::<char>::empty()]);
    } else {
        assert forall|k: int, i: int| 0 <= k < top.len() && 0 <= i < top[k].len() implies #[trigger] top[k][i]
            != '\n' by {
            lemma_line_has_no_feed(content, k, i);
        }
        assert(forall|x: char| #[trigger] line_feed()(x) <==> x == '\n');
        lemma_split_join(top, '\n', line_feed());
    }
}

/// Where some line is a hit, one is the first.
proof fn lemma_some_hit_has_first(list: Seq<Seq<char>>, hit: spec_fn(Seq<char>) -> bool, i: int)
    requires
        0 <= i < list.len(),
        hit(list[i]),
    ensures
        first_line(list, hit) is Some,
    decreases i,
{
    if exists|j: int| 0 <= j < i && hit(#[trigger] list[j]) {
        let j = choose|j: int| 0 <= j < i && hit(#[trigger] list[j]);
        lemma_some_hit_has_first(list, hit, j);
    } else {
        assert(is_first_at(list, hit, i));
    }
}

/// A snippet lies within the text and, where at least three lines are allowed, within the number
/// of lines that is allowed. Where a line is a hit, the snippet holds the first such line and is
/// the text of its lines; else it is taken from the top.
pub proof fn law_snippet_lies_in_the_text(content: Seq<char>, hit: spec_fn(Seq<char>) -> bool, max_lines: int)
    requires
        max_lines >= 0,
    ensures
        ({
            let list = lines(content);
            let first = first_line(list, hit);
            let (text, start, count) = snippet(list, first, max_lines);
            &&& 0 <= start
            &&& 0 <= count
            &&& start + count <= list.len()
            &&& max_lines >= CONTEXT_BEFORE + 1 ==> count <= max_lines
            &&& match first {
                Some(f) => {
                    &&& hit(list[f])
                    &&& start <= f < start + count
                    &&& text == join(list.subrange(start, start + count), newline())
                },
                None => {
                    &&& start == 0
                    &&& forall|i: int| 0 <= i < list.len() ==> !hit(#[trigger] list[i])
                },
            }
        }),
{
    let list = lines(content);
    match first_line(list, hit) {
        Some(f) => {
            assert(is_first_at(list, hit, f));
        },
        None => {
            assert forall|i: int| 0 <= i < list.len() implies !hit(#[trigger] list[i]) by {
                if hit(list[i]) {
                    lemma_some_hit_has_first(list, hit, i);
                }
            }
            lemma_top_lines(content, if max_lines < list.len() { max_lines } else { list.len() as int });
        },
    }
}

/// A line with what stands in the piece that it comes from, if that holds no carriage return.
proof fn lemma_infix_in_line(needle: Seq<char>, text: Seq<char>)
    requires
        is_infix(needle, text),
        needle.len() > 0,
        forall|i: int| 0 <= i < needle.len() ==> #[trigger] needle[i] != '\n' && needle[i] != '\r',
    ensures
        exists|k: int| 0 <= k < lines(text).len() && is_infix(needle, #[trigger] lines(text)[k]),
{
    let pieces = split_on(text, line_feed());
    assert forall|i: int| 0 <= i < needle.len() implies !line_feed()(#[trigger] needle[i]) by {}
    let k = lemma_infix_in_piece(needle, text, line_feed());
    let piece = pieces[k];
    let at = choose|i: int| stands_at(needle, piece, i);
    let n = needle.len() as int;
    let line = without_return(piece);
    assert(needle[n - 1] != '\r');
    assert(piece.subrange(at, at + n)[n - 1] == piece[at + n - 1]);
    assert(at + n <= line.len());
    assert(line.subrange(at, at + n) =~= piece.subrange(at, at + n));
    assert(stands_at(needle, line, at));
    assert(k < lines(text).len());
    if k < pieces.len() - 1 {
        assert(lines(text)[k] == line);
    } else {
        assert(lines(text)[k] == piece);
    }
}

/// The snippet of a document that a text search found shows a line with a word of the query, for
/// documents whose lower case is that of their lines.
pub proof fn law_snippet_shows_the_query(query: Seq<char>, content: Seq<char>, max_lines: int)
    requires
        max_lines >= 0,
        Criterion::Literal(query).accepts(content),
        query_words(query).len() > 0,
        lines(lowercase(content)) == Seq::new(lines(content).len(), |i: int| lowercase(lines(content)[i])),
    ensures
        shows_the_query(content, query, max_lines),
{
    let lowered = lowercase(query);
    let pieces = split_on(lowered, white_space());
    let terms = query_words(query);
    let term = terms[0];
    pieces.lemma_filter_pred(not_empty(), 0);
    assert(terms.contains(term));
    pieces.lemma_filter_contains_rev(not_empty(), term);
    let at = pieces.index_of(term);
    lemma_piece_is_infix(lowered, white_space(), at);
    lemma_infix_of_infix(term, lowered, lowercase(content));
    assert forall|i: int| 0 <= i < term.len() implies #[trigger] term[i] != '\n' && term[i] != '\r' by {
        lemma_piece_has_no_break(lowered, white_space(), at, i);
    }
    lemma_infix_in_line(term, lowercase(content));
    let low = lines(lowercase(content));
    let k = choose|k: int| 0 <= k < low.len() && is_infix(term, #[trigger] low[k]);
    let list = lines(content);
    assert(low[k] == lowercase(list[k]));
    assert(is_infix(terms[0], lowercase(list[k])));
    lemma_some_hit_has_first(list, lowered_mentions(terms), k);
    law_snippet_lies_in_the_text(content, lowered_mentions(terms), max_lines);
    let first = first_line(list, lowered_mentions(terms))->Some_0;
    assert(mentions(terms, lowercase(list[first])));
}

/// The snippet of a document that a text search found shows a line with a word of the query, for
/// documents in whose text and lines only the letters of ASCII have a lower case.
/// [`SearchRun::offer`](crate::search::searcher::SearchRun::offer) promises that of every document
/// in ASCII that it finds.
pub proof fn law_snippet_shows_the_query_in_ascii(query: Seq<char>, content: Seq<char>, max_lines: int)
    requires
        max_lines >= 0,
        Criterion::Literal(query).accepts(content),
        query_words(query).len() > 0,
        lowers_as_ascii(content),
        lines_lower_as_ascii(content),
    ensures
        shows_the_query(content, query, max_lines),
{
    let list = lines(content);
    lemma_ascii_lowercase_of_lines(content);
    assert forall|i: int| 0 <= i < list.len() implies lowercase(#[trigger] list[i]) == ascii_lowercase(list[i]) by {
        assert(lowers_as_ascii(lines(content)[i]));
    }
    assert(lines(lowercase(content)) =~= Seq::new(list.len(), |i: int| lowercase(list[i])));
    law_snippet_shows_the_query(query, content, max_lines);
}

/// Two tests that agree on every line have the same first line.
pub proof fn law_first_line_goes_by_the_lines(
    list: Seq<Seq<char>>,
    one: spec_fn(Seq<char>) -> bool,
    other: spec_fn(Seq<char>) -> bool,
)
    requires
        forall|i: int| 0 <= i < list.len() ==> one(#[trigger] list[i]) == other(list[i]),
    ensures
        first_line(list, one) == first_line(list, other),
{
    match first_line(list, one) {
        Some(f) => {
            assert(is_first_at(list, one, f));
            assert(is_first_at(list, other, f));
            lemma_first_line_at(list, other, f);
        },
        None => {
            assert forall|i: int| 0 <= i < list.len() implies !other(#[trigger] list[i]) by {
                if one(list[i]) {
                    lemma_some_hit_has_first(list, one, i);
                }
            }
            lemma_first_line_none(list, other);
        },
    }
}

/// Where an expression matches the lines that mention a word of the query and no others, a search
/// by the expression shows what a search by the query shows.
pub proof fn law_snippets_of_both_searches_agree(
    content: Seq<char>,
    query: Seq<char>,
    found: Set<Seq<char>>,
    max_lines: int,
)
    requires
        forall|i: int|
            0 <= i < lines(content).len() ==> (found.contains(#[trigger] lines(content)[i]) <==> mentions(
                query_words(query),
                lowercase(lines(content)[i]),
            )),
    ensures
        relevant_snippet(content, query, max_lines) == matching_snippet(content, found, max_lines),
{
    law_first_line_goes_by_the_lines(lines(content), lowered_mentions(query_words(query)), matched_by(found));
}

/// Of the documents in ASCII, a search by a plain expression finds those that a search for the same
/// text finds.
pub proof fn law_plain_expression_finds_what_the_text_finds(
    word: Seq<char>,
    found: Set<Seq<char>>,
    content: Seq<char>,
)
    requires
        finds_plainly(found, word),
        lowers_as_ascii(word),
        is_ascii_chars(content),
        lowers_as_ascii(content),
    ensures
        Criterion::Pattern(found).accepts(content) <==> Criterion::Literal(word).accepts(content),
{
}

/// Of a document in ASCII, a search by a plain expression shows what a search for the same text
/// shows.
pub proof fn law_plain_expression_shows_what_the_text_shows(
    word: Seq<char>,
    found: Set<Seq<char>>,
    content: Seq<char>,
    max_lines: int,
)
    requires
        word.len() > 0,
        is_plain(word),
        finds_plainly(found, word),
        lowers_as_ascii(word),
        is_ascii_chars(content),
        lines_lower_as_ascii(content),
    ensures
        matching_snippet(content, found, max_lines) == relevant_snippet(content, word, max_lines),
{
    let lowered = ascii_lowercase(word);
    assert forall|i: int| 0 <= i < lowered.len() implies !white_space()(#[trigger] lowered[i]) by {
        assert(lowered[i] == ascii_lower(word[i]));
    }
    lemma_single_word(lowered, white_space());
    let terms = query_words(word);
    assert(terms =~= seq![lowered]);
    lemma_lines_of_ascii(content);
    let list = lines(content);
    assert forall|i: int| 0 <= i < list.len() implies (found.contains(#[trigger] list[i]) <==> mentions(
        terms,
        lowercase(list[i]),
    )) by {
        assert(is_ascii_chars(lines(content)[i]));
        assert(lowers_as_ascii(lines(content)[i]));
        assert(terms[0] == lowered);
    }
    law_snippets_of_both_searches_agree(content, word, found, max_lines);
}

/// The lines of a hit are lines of its document, as many as a snippet shows at most.
pub proof fn law_hit_lines_are_lines_of_the_document(criterion: Criterion, doc: CandidateView, rank: int)
    ensures
        hit_for(criterion, doc, rank) matches Some(hit) ==> {
            &&& doc.line_start <= hit.line_start <= hit.line_end
            &&& hit.line_end - hit.line_start < SNIPPET_LINES
            &&& hit.line_end < doc.line_start + lines(doc.content).len() || hit.line_end == doc.line_start
        },
{
    match criterion {
        Criterion::Literal(query) => {
            law_snippet_lies_in_the_text(doc.content, lowered_mentions(query_words(query)), SNIPPET_LINES as int);
        },
        Criterion::Pattern(found) => {
            law_snippet_lies_in_the_text(doc.content, matched_by(found), SNIPPET_LINES as int);
        },
    }
}

// ---------------------------------------------------------------------------------------------
// Filters
// ---------------------------------------------------------------------------------------------

/// The filters leave of the hits those that pass, in their order and no more than wanted; where
/// they leave fewer than wanted, every hit that passes is among them.
pub proof fn law_filters_keep_what_passes(hits: Seq<HitView>, filters: FiltersView, limit: nat)
    ensures
        ({
            let kept = screened_hits(hits, filters, limit);
            &&& kept.len() <= limit
            &&& kept.len() <= hits.len()
            &&& forall|k: int|
                0 <= k < kept.len() ==> passes(filters, (#[trigger] kept[k]).path) && hits.contains(kept[k])
            &&& kept.is_prefix_of(hits.filter(passing(filters)))
            &&& kept.len() < limit ==> forall|i: int|
                0 <= i < hits.len() && passes(filters, (#[trigger] hits[i]).path) ==> kept.contains(hits[i])
        }),
{
    let whole = hits.filter(passing(filters));
    let kept = screened_hits(hits, filters, limit);
    hits.lemma_filter_len(passing(filters));
    assert forall|k: int| 0 <= k < kept.len() implies passes(filters, (#[trigger] kept[k]).path) && hits.contains(
        kept[k],
    ) by {
        assert(kept[k] == whole[k]);
        hits.lemma_filter_pred(passing(filters), k);
        assert(whole.contains(whole[k]));
        hits.lemma_filter_contains_rev(passing(filters), whole[k]);
    }
    assert(kept.is_prefix_of(whole));
    assert forall|i: int|
        kept.len() < limit && 0 <= i < hits.len() && passes(filters, (#[trigger] hits[i]).path) implies kept.contains(
        hits[i],
    ) by {
        hits.lemma_filter_contains(passing(filters), i);
    }
}

/// A filtered search returns no more hits than are wanted, says how many it returns, and every one
/// of them passes the filters.
pub proof fn law_filtered_outcome(state: SearchState, query_time_ms: u64)
    requires
        state.screen is Some,
    ensures
        ({
            let result = outcome(state, query_time_ms);
            &&& result.total == result.hits.len()
            &&& result.hits.len() <= state.screen->0.limit
            &&& forall|k: int|
                0 <= k < result.hits.len() ==> passes(state.screen->0.filters, (#[trigger] result.hits[k]).path)
        }),
{
    law_filters_keep_what_passes(state.hits, state.screen->0.filters, state.screen->0.limit);
}

/// The filters change nothing while documents are offered.
pub proof fn law_filters_wait_for_the_end(
    state: SearchState,
    filters: FiltersView,
    limit: nat,
    docs: Seq<CandidateView>,
)
    ensures
        offered_all(screened_search(state, filters, limit), docs) == screened_search(
            offered_all(state, docs),
            filters,
            limit,
        ),
    decreases docs.len(),
{
    if docs.len() > 0 && wants_more(state) {
        let next = offered(state, docs[0]);
        assert(offered(screened_search(state, filters, limit), docs[0]) == screened_search(next, filters, limit));
        law_filters_wait_for_the_end(next, filters, limit, docs.drop_first());
    }
}

/// A search with filters returns, of the hits that the search without them returns, those that
/// pass, cut to as many as are wanted. It still says how many hits there were before.
pub proof fn law_filtered_search_screens_the_hits(
    state: SearchState,
    filters: FiltersView,
    limit: nat,
    docs: Seq<CandidateView>,
    query_time_ms: u64,
)
    requires
        state.screen is None,
    ensures
        ({
            let plain = outcome(offered_all(state, docs), query_time_ms);
            let filtered = outcome(offered_all(screened_search(state, filters, limit), docs), query_time_ms);
            &&& filtered.hits == screened_hits(plain.hits, filters, limit)
            &&& filtered.total == filtered.hits.len()
            &&& filtered.text_hits == plain.text_hits
            &&& filtered.semantic_hits == 0
        }),
{
    law_filters_wait_for_the_end(state, filters, limit, docs);
    law_offers_keep_the_search(state, docs);
}

/// A filter without entries leaves nothing, and a file without an extension passes no filter by
/// extensions.
pub proof fn law_filters_want_an_entry(filters: FiltersView, path: Seq<char>)
    ensures
        filters.extensions matches Some(list) ==> list.len() == 0 ==> !passes(filters, path),
        filters.paths matches Some(list) ==> list.len() == 0 ==> !passes(filters, path),
        filters.extensions is Some && extension(path) is None ==> !passes(filters, path),
{
}

// ---------------------------------------------------------------------------------------------
// What a hit says
// ---------------------------------------------------------------------------------------------

/// A document is a hit of a text search exactly where its content, in lower case, is the query in
/// lower case with something, or nothing, before and behind it; and of a search by an expression
/// exactly where its content is one of the texts in which the expression has a match.
pub proof fn law_content_decides_what_is_a_hit(
    query: Seq<char>,
    found: Set<Seq<char>>,
    doc: CandidateView,
    rank: int,
)
    ensures
        hit_for(Criterion::Literal(query), doc, rank) is Some <==> exists|before: Seq<char>, after: Seq<char>|
            lowercase(doc.content) == #[trigger] (before + lowercase(query) + after),
        hit_for(Criterion::Pattern(found), doc, rank) is Some <==> found.contains(doc.content),
        Criterion::Literal(query).accepts(doc.content) <==> hit_for(Criterion::Literal(query), doc, rank) is Some,
        Criterion::Pattern(found).accepts(doc.content) <==> hit_for(Criterion::Pattern(found), doc, rank) is Some,
{
    law_infix_has_text_around(lowercase(query), lowercase(doc.content));
}

/// At any time of a search by an expression, with filters or without, and whatever was offered
/// before, a document is a hit exactly where the expression has a match in its content.
pub proof fn law_expression_search_finds_every_match(
    config: SearchConfig,
    pattern: Seq<char>,
    found: Set<Seq<char>>,
    limit: Option<usize>,
    filters: FiltersView,
    docs: Seq<CandidateView>,
    doc: CandidateView,
)
    ensures
        next_hit(offered_all(pattern_search(config, pattern, found, limit), docs), doc) is Some <==> found.contains(
            doc.content,
        ),
        next_hit(offered_all(filtered_search(config, pattern, limit, filters, true), docs), doc) is Some
            <==> caseless_matches(pattern).contains(doc.content),
{
    law_offers_keep_the_search(pattern_search(config, pattern, found, limit), docs);
    law_offers_keep_the_search(filtered_search(config, pattern, limit, filters, true), docs);
}

/// At any time of a text search, with filters or without, and whatever was offered before, a document
/// is a hit exactly where the query stands in its content, both in lower case.
pub proof fn law_text_search_finds_every_occurrence(
    config: SearchConfig,
    query: Seq<char>,
    limit: Option<usize>,
    filters: FiltersView,
    docs: Seq<CandidateView>,
    doc: CandidateView,
)
    ensures
        next_hit(offered_all(literal_search(config, query, limit), docs), doc) is Some <==> exists|
            before: Seq<char>,
            after: Seq<char>,
        |
            lowercase(doc.content) == #[trigger] (before + lowercase(query) + after),
        next_hit(offered_all(filtered_search(config, query, limit, filters, false), docs), doc) is Some <==> exists|
            before: Seq<char>,
            after: Seq<char>,
        |
            lowercase(doc.content) == #[trigger] (before + lowercase(query) + after),
{
    law_offers_keep_the_search(literal_search(config, query, limit), docs);
    law_offers_keep_the_search(filtered_search(config, query, limit, filters, false), docs);
    law_infix_has_text_around(lowercase(query), lowercase(doc.content));
}

/// A hit names its document: its path, its name, its place among the documents, and whether it is a
/// chunk of another.
pub proof fn law_hit_names_its_document(criterion: Criterion, doc: CandidateView, rank: int)
    ensures
        hit_for(criterion, doc, rank) matches Some(hit) ==> {
            &&& hit.path == doc.path
            &&& hit.doc_id == doc.doc_id
            &&& hit.rank == rank
            &&& hit.is_chunk <==> doc.chunk_id.len() > 0
            &&& hit.match_type == MatchType::Text
        },
{
}

/// The lines that a hit shows are those that it numbers, counted from the first line of its document,
/// whatever number that has. They go from two lines before the first line that matches to seven lines
/// behind it, as far as there are such lines.
pub proof fn law_hit_shows_the_lines_that_it_numbers(criterion: Criterion, doc: CandidateView, rank: int, f: int)
    requires
        0 <= f < lines(doc.content).len(),
        match criterion {
            Criterion::Literal(query) => mentions(query_words(query), lowercase(lines(doc.content)[f])) && forall|
                j: int,
            |
                0 <= j < f ==> !mentions(query_words(query), lowercase(#[trigger] lines(doc.content)[j])),
            Criterion::Pattern(found) => found.contains(lines(doc.content)[f]) && forall|j: int|
                0 <= j < f ==> !found.contains(#[trigger] lines(doc.content)[j]),
        },
    ensures
        hit_for(criterion, doc, rank) matches Some(hit) ==> {
            let list = lines(doc.content);
            &&& hit.line_start - doc.line_start == (if f < 2 { 0 } else { f - 2 })
            &&& hit.line_end - doc.line_start == (if f + 7 < list.len() { f + 7 } else { list.len() - 1 })
            &&& hit.line_start <= doc.line_start + f <= hit.line_end
            &&& hit.snippet == join(
                list.subrange(hit.line_start - doc.line_start, hit.line_end - doc.line_start + 1),
                seq!['\n'],
            )
        },
{
    law_snippet_shows_the_lines_around(lines(doc.content), f, 10);
    match criterion {
        Criterion::Literal(query) => {
            law_text_snippet_goes_around_the_first_mention(doc.content, query, 10, f);
        },
        Criterion::Pattern(found) => {
            law_pattern_snippet_goes_around_the_first_match(doc.content, found, 10, f);
        },
    }
}

/// Where a document is a hit but no single line of it matches, the hit shows its first lines, ten at
/// most, and numbers them from the first line of the document.
pub proof fn law_hit_without_a_matching_line_shows_the_top(criterion: Criterion, doc: CandidateView, rank: int)
    requires
        match criterion {
            Criterion::Literal(query) => forall|j: int|
                0 <= j < lines(doc.content).len() ==> !mentions(
                    query_words(query),
                    lowercase(#[trigger] lines(doc.content)[j]),
                ),
            Criterion::Pattern(found) => forall|j: int|
                0 <= j < lines(doc.content).len() ==> !found.contains(#[trigger] lines(doc.content)[j]),
        },
    ensures
        hit_for(criterion, doc, rank) matches Some(hit) ==> {
            let list = lines(doc.content);
            &&& hit.line_start == doc.line_start
            &&& hit.snippet == join(list.take(if 10 < list.len() { 10 } else { list.len() as int }), seq!['\n'])
            &&& hit.line_end == (if lines(hit.snippet).len() == 0 {
                doc.line_start as int
            } else {
                doc.line_start + lines(hit.snippet).len() - 1
            })
        },
{
    law_snippet_shows_the_lines_around(lines(doc.content), 0, 10);
    match criterion {
        Criterion::Literal(query) => {
            law_text_snippet_goes_around_the_first_mention(doc.content, query, 10, 0);
        },
        Criterion::Pattern(found) => {
            law_pattern_snippet_goes_around_the_first_match(doc.content, found, 10, 0);
        },
    }
}

/// The lines of a hit have numbers exactly where the last of them does, and they do wherever all the
/// lines of the document do.
pub proof fn law_lines_are_numbered_as_far_as_numbers_go(state: SearchState, doc: CandidateView)
    ensures
        next_hit(state, doc) is None ==> is_numbered(state, doc),
        next_hit(state, doc) matches Some(hit) ==> (is_numbered(state, doc) <==> hit.line_end <= u64::MAX),
        doc.line_start + lines(doc.content).len() <= u64::MAX ==> is_numbered(state, doc),
        next_hit(state, doc) == hit_for(state.criterion, doc, state.seen as int),
{
    law_hit_lines_are_lines_of_the_document(state.criterion, doc, state.seen as int);
}

/// A document that is offered is counted; a hit is put behind the hits that there are, and nothing
/// else changes. More is wanted as long as something was asked of the index and there are fewer hits
/// than wanted.
pub proof fn law_offer_counts_the_document(state: SearchState, doc: CandidateView)
    ensures
        ({
            let next = offered(state, doc);
            &&& next.seen == state.seen + 1
            &&& next.hits == (match hit_for(state.criterion, doc, state.seen as int) {
                Some(hit) => state.hits.push(hit),
                None => state.hits,
            })
            &&& next.criterion == state.criterion
            &&& next.limit == state.limit
            &&& next.request == state.request
            &&& next.screen == state.screen
        }),
        wants_more(state) <==> !(state.request is Nothing) && state.hits.len() < state.limit,
{
}

// ---------------------------------------------------------------------------------------------
// What a search asks for and gives back
// ---------------------------------------------------------------------------------------------

/// A search gives as many hits as are asked for, or by default, but no more than are allowed.
pub proof fn law_limit_is_the_smaller_one(config: SearchConfig, limit: Option<usize>)
    ensures
        ({
            let wanted = match limit {
                Some(n) => n,
                None => config.default_limit,
            };
            effective_limit(config, limit) == (if wanted < config.max_limit { wanted } else { config.max_limit })
        }),
{
}

/// A text search asks the index by the terms of the query with a space between them, for ten documents
/// per hit, and asks nothing where there is no term. It starts with no hit and without filters.
pub proof fn law_text_search_asks_by_its_terms(config: SearchConfig, query: Seq<char>, limit: Option<usize>)
    ensures
        ({
            let state = literal_search(config, query, limit);
            let count = effective_limit(config, limit) * 10;
            &&& state.criterion == Criterion::Literal(query)
            &&& state.limit == effective_limit(config, limit)
            &&& state.seen == 0
            &&& state.hits.len() == 0
            &&& state.screen is None
            &&& state.request is Nothing <==> search_terms(query).len() == 0
            &&& search_terms(query).len() > 0 ==> state.request == RequestView::Terms {
                query: join(search_terms(query), seq![' ']),
                fetch_limit: if count <= usize::MAX { Some(count as usize) } else { None },
            }
        }),
{
}

/// A search by an expression asks the index by the terms of more than one byte with a space between
/// them, for twenty documents per hit; and for fifty of all documents per hit where there is no such
/// term. It starts with no hit and without filters.
pub proof fn law_expression_search_asks_by_its_terms(
    config: SearchConfig,
    pattern: Seq<char>,
    found: Set<Seq<char>>,
    limit: Option<usize>,
)
    ensures
        ({
            let state = pattern_search(config, pattern, found, limit);
            let by_terms = effective_limit(config, limit) * 20;
            let of_all = effective_limit(config, limit) * 50;
            &&& state.criterion == Criterion::Pattern(found)
            &&& state.limit == effective_limit(config, limit)
            &&& state.seen == 0
            &&& state.hits.len() == 0
            &&& state.screen is None
            &&& long_search_terms(pattern).len() == 0 ==> state.request == RequestView::All {
                fetch_limit: if of_all <= usize::MAX { Some(of_all as usize) } else { None },
            }
            &&& long_search_terms(pattern).len() > 0 ==> state.request == RequestView::Terms {
                query: join(long_search_terms(pattern), seq![' ']),
                fetch_limit: if by_terms <= usize::MAX { Some(by_terms as usize) } else { None },
            }
        }),
{
}

/// A search with filters looks for twice as many hits as are asked for, or as are allowed where no
/// number is given, and gives in the end as many as a search without filters would.
pub proof fn law_filtered_search_looks_for_twice_as_many(
    config: SearchConfig,
    query: Seq<char>,
    limit: Option<usize>,
    filters: FiltersView,
    use_regex: bool,
)
    requires
        unfiltered_limit(config, limit) <= usize::MAX,
    ensures
        ({
            let wanted = match limit {
                Some(n) => n,
                None => config.max_limit,
            };
            let state = filtered_search(config, query, limit, filters, use_regex);
            let plain = if use_regex {
                pattern_search(config, query, caseless_matches(query), Some((2 * wanted) as usize))
            } else {
                literal_search(config, query, Some((2 * wanted) as usize))
            };
            &&& unfiltered_limit(config, limit) == 2 * wanted
            &&& state.criterion == plain.criterion
            &&& state.request == plain.request
            &&& state.limit == plain.limit
            &&& state.seen == 0
            &&& state.hits.len() == 0
            &&& state.screen matches Some(screen) && screen.filters == filters && screen.limit == effective_limit(
                config,
                limit,
            )
        }),
{
}

/// A search gives back its hits, all of them or those that the filters leave, with their number and
/// the number before the filters, and the time that it took.
pub proof fn law_result_tells_the_hits(state: SearchState, query_time_ms: u64)
    ensures
        ({
            let result = outcome(state, query_time_ms);
            &&& state.screen is None ==> result.hits == state.hits
            &&& state.screen matches Some(screen) ==> result.hits == screened_hits(
                state.hits,
                screen.filters,
                screen.limit,
            )
            &&& result.total == result.hits.len()
            &&& result.text_hits == state.hits.len()
            &&& result.semantic_hits == 0
            &&& result.query_time_ms == query_time_ms
        }),
{
}

/// What is asked of the index, as a value, is what is asked.
pub proof fn law_request_holds_its_terms(query: String, fetch_limit: Option<usize>)
    ensures
        (Request::Terms { query, fetch_limit })@ == (RequestView::Terms { query: query@, fetch_limit }),
        (Request::All { fetch_limit })@ == (RequestView::All { fetch_limit }),
        Request::Nothing@ == RequestView::Nothing,
{
}

/// Where a pattern is refused, the message says so and goes on with what the `regex` crate says of an
/// error with which it refuses this pattern.
pub proof fn law_refusal_tells_why(pattern: Seq<char>, error: YgrepError)
    requires
        is_refusal(pattern, error),
    ensures
        error matches YgrepError::Search(message) && exists|e: regex::Error, detail: String|
            refused_with(pattern, e) && #[trigger] vstd::string::to_string_from_display_ensures::<regex::Error>(
                &e,
                detail,
            ) && message@ == "Invalid regex pattern: "@ + detail@,
{
    if let YgrepError::Search(message) = error {
        let e = choose|e: regex::Error| #[trigger] refused_with(pattern, e) && is_pattern_error(message@, e);
        let detail = choose|detail: String| #[trigger]
            vstd::string::to_string_from_display_ensures::<regex::Error>(&e, detail) && message@
                == "Invalid regex pattern: "@ + detail@;
        assert(vstd::string::to_string_from_display_ensures::<regex::Error>(&e, detail));
    }
}

} // verus!
