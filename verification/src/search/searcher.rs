//! The searcher: what to ask an index for a query, which of the documents that it gives are hits,
//! and what the search returns.
//!
//! A search is a [`SearchRun`]. It says what to ask the index ([`SearchRun::request`]); the
//! documents that the index ranks are offered to it one by one, best first, as long as it wants
//! more; and when there are no more, it gives the result.

use vstd::prelude::*;
use vstd::utf8::is_ascii_chars;

use crate::config::SearchConfig;
use crate::error::YgrepError;
use crate::search::document::{Candidate, CandidateView};
use crate::search::filters::{screened_hits, FiltersView, SearchFilters};
use crate::search::laws::law_snippet_shows_the_query_in_ascii;
use crate::search::pattern::{caseless_matches, compile, finds_plainly, is_plain, matched_texts, refused_with};
use crate::search::results::{hit_views, HitView, MatchType, ResultView, SearchHit, SearchResult};
use crate::search::snippet::{create_regex_snippet, create_relevant_snippet, matching_snippet, query_words,
    relevant_snippet, shows_the_query};
use crate::text::{contains_text, is_infix, join, join_range, lines_lower_as_ascii, long_search_terms,
    long_search_terms_of, lowercase, lowers_as_ascii, search_terms, search_terms_of, texts};

verus! {

/// How many lines the snippet of a hit shows.
pub const SNIPPET_LINES: usize = 10;

/// How many documents per hit are asked for where the text decides.
pub const TEXT_OVERSAMPLE: usize = 10;

/// How many documents per hit are asked for where a regular expression decides.
pub const REGEX_OVERSAMPLE: usize = 20;

/// How many documents per hit are asked for where a regular expression decides and gives no term
/// to ask by.
pub const SCAN_OVERSAMPLE: usize = 50;

// ---------------------------------------------------------------------------------------------
// What a search is
// ---------------------------------------------------------------------------------------------

/// By what a document is a hit.
pub enum Criterion {
    /// The query stands in its content, but for letter case.
    Literal(Seq<char>),
    /// Its content is one of these texts: those in which a regular expression has a match.
    Pattern(Set<Seq<char>>),
}

impl Criterion {
    /// A document with this content is a hit.
    pub open spec fn accepts(self, content: Seq<char>) -> bool {
        match self {
            Criterion::Literal(query) => is_infix(lowercase(query), lowercase(content)),
            Criterion::Pattern(found) => found.contains(content),
        }
    }

    /// The snippet that shows why a document with this content is a hit: its text, the index of
    /// its first line and the number of its lines.
    pub open spec fn snippet(self, content: Seq<char>) -> (Seq<char>, int, int) {
        match self {
            Criterion::Literal(query) => relevant_snippet(content, query, SNIPPET_LINES as int),
            Criterion::Pattern(found) => matching_snippet(content, found, SNIPPET_LINES as int),
        }
    }
}

/// The hit that a document with the given rank is, if it is one. The lines of a document are
/// numbered from the line at which it starts.
pub open spec fn hit_for(criterion: Criterion, doc: CandidateView, rank: int) -> Option<HitView> {
    if criterion.accepts(doc.content) {
        let (text, offset, count) = criterion.snippet(doc.content);
        let first = doc.line_start + offset;
        Some(
            HitView {
                path: doc.path,
                line_start: first,
                line_end: if count > 0 { first + count - 1 } else { first },
                snippet: text,
                rank,
                is_chunk: doc.chunk_id.len() > 0,
                doc_id: doc.doc_id,
                match_type: MatchType::Text,
            },
        )
    } else {
        None
    }
}

/// What to ask the index.
#[derive(Debug)]
pub enum Request {
    /// Nothing: no document can be a hit.
    Nothing,
    /// The documents that hold the terms of a query.
    Terms {
        /// The terms, with a space between them.
        query: String,
        /// How many documents; `None` where the number is too large.
        fetch_limit: Option<usize>,
    },
    /// All documents.
    All {
        /// How many documents; `None` where the number is too large.
        fetch_limit: Option<usize>,
    },
}

/// What to ask the index, as a value.
pub enum RequestView {
    Nothing,
    Terms { query: Seq<char>, fetch_limit: Option<usize> },
    All { fetch_limit: Option<usize> },
}

impl View for Request {
    type V = RequestView;

    open spec fn view(&self) -> RequestView {
        match *self {
            Request::Nothing => RequestView::Nothing,
            Request::Terms { query, fetch_limit } => RequestView::Terms { query: query@, fetch_limit },
            Request::All { fetch_limit } => RequestView::All { fetch_limit },
        }
    }
}

/// What becomes of the hits in the end, where they are filtered.
pub struct Screen {
    pub filters: FiltersView,
    pub limit: nat,
}

/// How far a search has come.
pub struct SearchState {
    /// By what a document is a hit.
    pub criterion: Criterion,
    /// How many hits are wanted.
    pub limit: nat,
    /// What the index is asked.
    pub request: RequestView,
    /// How many documents have been looked at.
    pub seen: nat,
    /// Those of them that are hits.
    pub hits: Seq<HitView>,
    /// How the hits are filtered in the end.
    pub screen: Option<Screen>,
}

/// How many hits a search gives at most: as many as are asked for, within what is allowed.
pub open spec fn effective_limit(config: SearchConfig, limit: Option<usize>) -> nat {
    let wanted = match limit {
        Some(n) => n,
        None => config.default_limit,
    };
    if wanted < config.max_limit { wanted as nat } else { config.max_limit as nat }
}

/// `limit` times `factor`, if that is a number of type `usize`.
pub open spec fn times(limit: nat, factor: usize) -> Option<usize> {
    if limit * factor <= usize::MAX { Some((limit * factor) as usize) } else { None }
}

/// One space.
pub open spec fn space() -> Seq<char> {
    seq![' ']
}

/// A search for the text `query` at its start.
pub open spec fn literal_search(
    config: SearchConfig,
    query: Seq<char>,
    limit: Option<usize>,
) -> SearchState {
    SearchState {
        criterion: Criterion::Literal(query),
        limit: effective_limit(config, limit),
        request: if search_terms(query).len() == 0 {
            RequestView::Nothing
        } else {
            RequestView::Terms {
                query: join(search_terms(query), space()),
                fetch_limit: times(effective_limit(config, limit), TEXT_OVERSAMPLE),
            }
        },
        seen: 0,
        hits: Seq::empty(),
        screen: None,
    }
}

/// A search for the texts `found`, in which `pattern` has a match, at its start.
pub open spec fn pattern_search(
    config: SearchConfig,
    pattern: Seq<char>,
    found: Set<Seq<char>>,
    limit: Option<usize>,
) -> SearchState {
    SearchState {
        criterion: Criterion::Pattern(found),
        limit: effective_limit(config, limit),
        request: if long_search_terms(pattern).len() == 0 {
            RequestView::All { fetch_limit: times(effective_limit(config, limit), SCAN_OVERSAMPLE) }
        } else {
            RequestView::Terms {
                query: join(long_search_terms(pattern), space()),
                fetch_limit: times(effective_limit(config, limit), REGEX_OVERSAMPLE),
            }
        },
        seen: 0,
        hits: Seq::empty(),
        screen: None,
    }
}

/// How many hits are wanted before the filters are applied: twice as many as asked for.
pub open spec fn unfiltered_limit(config: SearchConfig, limit: Option<usize>) -> int {
    2 * (match limit {
        Some(n) => n as int,
        None => config.max_limit as int,
    })
}

/// The search `state` with `filters` on its hits, of which `limit` are wanted.
pub open spec fn screened_search(state: SearchState, filters: FiltersView, limit: nat) -> SearchState {
    SearchState { screen: Some(Screen { filters, limit }), ..state }
}

/// A search for `query`, which is a regular expression or a text, with filters on the hits, at
/// its start.
pub open spec fn filtered_search(
    config: SearchConfig,
    query: Seq<char>,
    limit: Option<usize>,
    filters: FiltersView,
    use_regex: bool,
) -> SearchState {
    let unfiltered = Some(unfiltered_limit(config, limit) as usize);
    let inner = if use_regex {
        pattern_search(config, query, caseless_matches(query), unfiltered)
    } else {
        literal_search(config, query, unfiltered)
    };
    screened_search(inner, filters, effective_limit(config, limit))
}

/// The search still looks for hits.
pub open spec fn wants_more(state: SearchState) -> bool {
    !(state.request is Nothing) && state.hits.len() < state.limit
}

/// The hit that `doc` is as the next document, if it is one.
pub open spec fn next_hit(state: SearchState, doc: CandidateView) -> Option<HitView> {
    hit_for(state.criterion, doc, state.seen as int)
}

/// The search after `doc` as the next document.
pub open spec fn offered(state: SearchState, doc: CandidateView) -> SearchState {
    SearchState {
        seen: state.seen + 1,
        hits: match next_hit(state, doc) {
            Some(hit) => state.hits.push(hit),
            None => state.hits,
        },
        ..state
    }
}

/// The lines of the hit that `doc` is as the next document have numbers of type `u64`.
pub open spec fn is_numbered(state: SearchState, doc: CandidateView) -> bool {
    next_hit(state, doc) matches Some(hit) ==> hit.line_end <= u64::MAX
}

/// What the search returns in the end. The filters change the hits and their number.
pub open spec fn outcome(state: SearchState, query_time_ms: u64) -> ResultView {
    let hits = match state.screen {
        Some(screen) => screened_hits(state.hits, screen.filters, screen.limit),
        None => state.hits,
    };
    ResultView {
        total: hits.len(),
        hits,
        query_time_ms,
        text_hits: state.hits.len(),
        semantic_hits: 0,
    }
}

// ---------------------------------------------------------------------------------------------
// How a search is carried out
// ---------------------------------------------------------------------------------------------

/// What decides whether a document is a hit.
enum Matcher {
    /// A query, and the same in lower case.
    Literal { query: String, lowered: String },
    /// A compiled regular expression.
    Pattern(regex::Regex),
}

impl Matcher {
    spec fn criterion(self) -> Criterion {
        match self {
            Matcher::Literal { query, .. } => Criterion::Literal(query@),
            Matcher::Pattern(re) => Criterion::Pattern(matched_texts(re)),
        }
    }

    spec fn wf(self) -> bool {
        self matches Matcher::Literal { query, lowered } ==> lowered@ == lowercase(query@)
    }

    fn accepts(&self, content: &str) -> (yes: bool)
        requires
            self.wf(),
        ensures
            yes == self.criterion().accepts(content@),
            self is Literal && is_ascii_chars(content@) ==> lowers_as_ascii(content@),
    {
        match self {
            Matcher::Literal { lowered, .. } => contains_text(content.to_lowercase().as_str(), lowered.as_str()),
            Matcher::Pattern(re) => re.is_match(content),
        }
    }

    fn snippet(&self, content: &str) -> (shown: (String, usize, usize))
        ensures
            (shown.0@, shown.1 as int, shown.2 as int) == self.criterion().snippet(content@),
            self is Literal && is_ascii_chars(content@) ==> lines_lower_as_ascii(content@),
    {
        match self {
            Matcher::Literal { query, .. } => create_relevant_snippet(content, query.as_str(), SNIPPET_LINES),
            Matcher::Pattern(re) => create_regex_snippet(content, re, SNIPPET_LINES),
        }
    }
}

/// A search under way.
pub struct SearchRun {
    matcher: Matcher,
    limit: usize,
    request: Request,
    seen: usize,
    hits: Vec<SearchHit>,
    screen: Option<(SearchFilters, usize)>,
}

impl View for SearchRun {
    type V = SearchState;

    closed spec fn view(&self) -> SearchState {
        SearchState {
            criterion: self.matcher.criterion(),
            limit: self.limit as nat,
            request: self.request@,
            seen: self.seen as nat,
            hits: hit_views(self.hits@),
            screen: match self.screen {
                Some((filters, limit)) => Some(Screen { filters: filters@, limit: limit as nat }),
                None => None,
            },
        }
    }
}

/// What became of a document that was offered.
#[derive(Debug, Clone, Copy, PartialEq, Eq, Structural)]
pub enum Offer {
    /// It is a hit.
    Hit,
    /// It is no hit.
    Miss,
    /// It would be a hit, but for its lines there are no numbers of type `u64`. Nothing changed.
    Unnumbered,
}

impl SearchRun {
    /// What every search under way keeps.
    pub closed spec fn wf(self) -> bool {
        self.matcher.wf()
    }

    /// What to ask the index.
    pub fn request(&self) -> (request: &Request)
        ensures
            request@ == self@.request,
    {
        &self.request
    }

    /// How many hits are wanted.
    pub fn limit(&self) -> (limit: usize)
        ensures
            limit == self@.limit,
    {
        self.limit
    }

    /// Whether the search still looks for hits.
    pub fn wants_more(&self) -> (yes: bool)
        ensures
            yes == wants_more(self@),
    {
        let asks = match &self.request {
            Request::Nothing => false,
            _ => true,
        };
        asks && self.hits.len() < self.limit
    }

    /// Looks at the next document that the index gave. Where a text is searched for and the
    /// document is in ASCII, the snippet of a hit shows a word of the query.
    pub fn offer(&mut self, doc: Candidate) -> (how: Offer)
        requires
            old(self).wf(),
            wants_more(old(self)@),
            old(self)@.seen < usize::MAX,
        ensures
            final(self).wf(),
            match how {
                Offer::Hit => next_hit(old(self)@, doc@) is Some && is_numbered(old(self)@, doc@) && final(self)@
                    == offered(old(self)@, doc@),
                Offer::Miss => next_hit(old(self)@, doc@) is None && final(self)@ == offered(old(self)@, doc@),
                Offer::Unnumbered => !is_numbered(old(self)@, doc@) && final(self)@ == old(self)@,
            },
            old(self)@.criterion matches Criterion::Literal(query) ==> (how != Offer::Miss <==> is_infix(
                lowercase(query),
                lowercase(doc.content@),
            )),
            old(self)@.criterion matches Criterion::Pattern(found) ==> (how != Offer::Miss <==> found.contains(
                doc.content@,
            )),
            old(self)@.criterion is Literal && is_ascii_chars(doc.content@) ==> {
                &&& lowers_as_ascii(doc.content@)
                &&& how != Offer::Miss ==> lines_lower_as_ascii(doc.content@)
            },
            old(self)@.criterion matches Criterion::Literal(query) ==> how != Offer::Miss && is_ascii_chars(
                doc.content@,
            ) && query_words(query).len() > 0 ==> shows_the_query(doc.content@, query, SNIPPET_LINES as int),
    {
        if !self.matcher.accepts(doc.content.as_str()) {
            self.seen += 1;
            return Offer::Miss;
        }
        let (snippet, offset, count) = self.matcher.snippet(doc.content.as_str());
        proof {
            if let Criterion::Literal(query) = self@.criterion {
                if is_ascii_chars(doc.content@) && query_words(query).len() > 0 {
                    law_snippet_shows_the_query_in_ascii(query, doc.content@, SNIPPET_LINES as int);
                }
            }
        }
        let more_lines = count.saturating_sub(1);
        let room: u64 = u64::MAX - doc.line_start;
        if offset as u64 > room || more_lines as u64 > room - offset as u64 {
            return Offer::Unnumbered;
        }
        let first: u64 = doc.line_start + offset as u64;
        let hit = SearchHit {
            path: doc.path,
            line_start: first,
            line_end: first + more_lines as u64,
            snippet,
            rank: self.seen,
            is_chunk: !doc.chunk_id.as_str().is_empty(),
            doc_id: doc.doc_id,
            match_type: MatchType::Text,
        };
        let ghost before = hit_views(self.hits@);
        self.hits.push(hit);
        self.seen += 1;
        assert(hit_views(self.hits@) =~= before.push(hit@));
        Offer::Hit
    }

    /// Ends the search, which took `query_time_ms` milliseconds.
    pub fn finish(self, query_time_ms: u64) -> (result: SearchResult)
        ensures
            result@ == outcome(self@, query_time_ms),
    {
        let text_hits = self.hits.len();
        let hits = match self.screen {
            Some((filters, limit)) => filters.screen(self.hits, limit),
            None => self.hits,
        };
        SearchResult { total: hits.len(), hits, query_time_ms, text_hits, semantic_hits: 0 }
    }
}

/// Search engine for querying an index.
pub struct Searcher {
    config: SearchConfig,
}

impl Searcher {
    /// The limits of the searches.
    pub closed spec fn config(self) -> SearchConfig {
        self.config
    }

    /// Creates a searcher with the given limits.
    pub fn new(config: SearchConfig) -> (searcher: Searcher)
        ensures
            searcher.config() == config,
    {
        Searcher { config }
    }

    /// How many hits a search gives at most.
    fn limit(&self, limit: Option<usize>) -> (n: usize)
        ensures
            n == effective_limit(self.config(), limit),
    {
        let wanted = limit.unwrap_or(self.config.default_limit);
        if wanted < self.config.max_limit {
            wanted
        } else {
            self.config.max_limit
        }
    }

    /// Searches the index for a text (literal text matching, like grep).
    pub fn search(&self, query: &str, limit: Option<usize>) -> (run: SearchRun)
        ensures
            run.wf(),
            run@ == literal_search(self.config(), query@, limit),
            is_ascii_chars(query@) ==> lowers_as_ascii(query@),
    {
        let limit = self.limit(limit);
        let terms = search_terms_of(query);
        assert(texts(terms@).len() == terms@.len());
        let request = if terms.len() == 0 {
            Request::Nothing
        } else {
            Request::Terms { query: spaced(&terms), fetch_limit: limit.checked_mul(TEXT_OVERSAMPLE) }
        };
        let run = SearchRun {
            matcher: Matcher::Literal { query: query.to_owned(), lowered: query.to_lowercase() },
            limit,
            request,
            seen: 0,
            hits: Vec::new(),
            screen: None,
        };
        assert(run@.hits =~= Seq::<HitView>::empty());
        run
    }

    /// Searches the index with a compiled regular expression, which was written as `pattern`, or
    /// fails where it did not compile.
    pub fn search_compiled(
        &self,
        pattern: &str,
        limit: Option<usize>,
        built: Result<regex::Regex, regex::Error>,
    ) -> (run: Result<SearchRun, YgrepError>)
        ensures
            match built {
                Ok(re) => run matches Ok(r) && r.wf() && r@ == pattern_search(
                    self.config(),
                    pattern@,
                    matched_texts(re),
                    limit,
                ),
                Err(e) => run matches Err(YgrepError::Search(message)) && is_pattern_error(message@, e),
            },
    {
        let re = match built {
            Ok(re) => re,
            Err(e) => {
                let mut message = "Invalid regex pattern: ".to_owned();
                let detail = e.to_string();
                message.append(detail.as_str());
                return Err(YgrepError::Search(message));
            },
        };
        let limit = self.limit(limit);
        let terms = long_search_terms_of(pattern);
        assert(texts(terms@).len() == terms@.len());
        let request = if terms.len() == 0 {
            Request::All { fetch_limit: limit.checked_mul(SCAN_OVERSAMPLE) }
        } else {
            Request::Terms { query: spaced(&terms), fetch_limit: limit.checked_mul(REGEX_OVERSAMPLE) }
        };
        let run = SearchRun {
            matcher: Matcher::Pattern(re),
            limit,
            request,
            seen: 0,
            hits: Vec::new(),
            screen: None,
        };
        assert(run@.hits =~= Seq::<HitView>::empty());
        Ok(run)
    }

    /// Searches the index with a regular expression, in which letters match in either case.
    pub fn search_regex(&self, pattern: &str, limit: Option<usize>) -> (run: Result<SearchRun, YgrepError>)
        ensures
            match run {
                Ok(r) => r.wf() && r@ == pattern_search(
                    self.config(),
                    pattern@,
                    caseless_matches(pattern@),
                    limit,
                ),
                Err(error) => is_refusal(pattern@, error),
            },
            run is Ok && is_plain(pattern@) ==> finds_plainly(caseless_matches(pattern@), pattern@),
    {
        let built = compile(pattern);
        self.search_compiled(pattern, limit, built)
    }

    /// Searches with filters on the hits.
    pub fn search_filtered(
        &self,
        query: &str,
        limit: Option<usize>,
        filters: SearchFilters,
        use_regex: bool,
    ) -> (run: Result<SearchRun, YgrepError>)
        requires
            unfiltered_limit(self.config(), limit) <= usize::MAX,
        ensures
            match run {
                Ok(r) => r.wf() && r@ == filtered_search(
                    self.config(),
                    query@,
                    limit,
                    filters@,
                    use_regex,
                ),
                Err(error) => use_regex && is_refusal(query@, error),
            },
            run is Ok && use_regex && is_plain(query@) ==> finds_plainly(caseless_matches(query@), query@),
    {
        let unfiltered = Some(limit.unwrap_or(self.config.max_limit) * 2);
        let inner = if use_regex {
            self.search_regex(query, unfiltered)
        } else {
            Ok(self.search(query, unfiltered))
        };
        self.with_filters(inner, limit, filters)
    }

    /// The search `inner` with filters on its hits, of which `limit` are wanted. It fails exactly
    /// where the search without filters fails, and with the same error.
    pub fn with_filters(
        &self,
        inner: Result<SearchRun, YgrepError>,
        limit: Option<usize>,
        filters: SearchFilters,
    ) -> (run: Result<SearchRun, YgrepError>)
        ensures
            match inner {
                Ok(search) => run matches Ok(r) && (search.wf() ==> r.wf()) && r@ == screened_search(
                    search@,
                    filters@,
                    effective_limit(self.config(), limit),
                ),
                Err(error) => run == Err::<SearchRun, YgrepError>(error),
            },
    {
        match inner {
            Ok(search) => {
                let mut run = search;
                run.screen = Some((filters, self.limit(limit)));
                Ok(run)
            },
            Err(error) => Err(error),
        }
    }
}

/// `message` says that a pattern did not compile, and how the `regex` crate puts it.
pub open spec fn is_pattern_error(message: Seq<char>, e: regex::Error) -> bool {
    exists|detail: String| #[trigger]
        vstd::string::to_string_from_display_ensures::<regex::Error>(&e, detail) && message
            == "Invalid regex pattern: "@ + detail@
}

/// `error` says that `pattern` did not compile, and with which error the `regex` crate refused it.
pub open spec fn is_refusal(pattern: Seq<char>, error: YgrepError) -> bool {
    error matches YgrepError::Search(message) && exists|e: regex::Error| #[trigger]
        refused_with(pattern, e) && is_pattern_error(message@, e)
}

/// `terms` with a space between them.
fn spaced(terms: &Vec<String>) -> (text: String)
    ensures
        text@ == join(texts(terms@), space()),
{
    proof {
        reveal_strlit(" ");
        assert(" "@ =~= space());
        assert(texts(terms@).subrange(0, terms@.len() as int) =~= texts(terms@));
    }
    join_range(terms, 0, terms.len(), " ")
}

} // verus!
