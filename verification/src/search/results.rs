//! What a search gives back.

use vstd::prelude::*;

verus! {

/// How a hit was found.
#[derive(Debug, Clone, Copy, PartialEq, Eq, Structural)]
pub enum MatchType {
    /// By its text.
    Text,
}

/// A document that was found.
#[derive(Debug)]
pub struct SearchHit {
    /// The path of the document.
    pub path: String,
    /// The number of the first line of the snippet.
    pub line_start: u64,
    /// The number of the last line of the snippet.
    pub line_end: u64,
    /// The lines that show the match.
    pub snippet: String,
    /// Where the document stood among those that the index gave, by which its score is found.
    pub rank: usize,
    /// Whether the document is a chunk of another.
    pub is_chunk: bool,
    /// The name of the document in the index.
    pub doc_id: String,
    /// How it was found.
    pub match_type: MatchType,
}

/// A hit as a value.
pub struct HitView {
    pub path: Seq<char>,
    pub line_start: int,
    pub line_end: int,
    pub snippet: Seq<char>,
    pub rank: int,
    pub is_chunk: bool,
    pub doc_id: Seq<char>,
    pub match_type: MatchType,
}

impl View for SearchHit {
    type V = HitView;

    open spec fn view(&self) -> HitView {
        HitView {
            path: self.path@,
            line_start: self.line_start as int,
            line_end: self.line_end as int,
            snippet: self.snippet@,
            rank: self.rank as int,
            is_chunk: self.is_chunk,
            doc_id: self.doc_id@,
            match_type: self.match_type,
        }
    }
}

/// Hits as values.
pub open spec fn hit_views(hits: Seq<SearchHit>) -> Seq<HitView> {
    Seq::new(hits.len(), |i: int| hits[i]@)
}

/// The outcome of a search.
#[derive(Debug)]
pub struct SearchResult {
    /// The number of hits.
    pub total: usize,
    /// The hits, best first.
    pub hits: Vec<SearchHit>,
    /// How long the search took, in milliseconds.
    pub query_time_ms: u64,
    /// The number of documents found by their text.
    pub text_hits: usize,
    /// The number of documents found by their meaning.
    pub semantic_hits: usize,
}

/// The outcome of a search as a value.
pub struct ResultView {
    pub total: nat,
    pub hits: Seq<HitView>,
    pub query_time_ms: u64,
    pub text_hits: nat,
    pub semantic_hits: nat,
}

impl View for SearchResult {
    type V = ResultView;

    open spec fn view(&self) -> ResultView {
        ResultView {
            total: self.total as nat,
            hits: hit_views(self.hits@),
            query_time_ms: self.query_time_ms,
            text_hits: self.text_hits as nat,
            semantic_hits: self.semantic_hits as nat,
        }
    }
}

impl SearchResult {
    /// Whether nothing was found.
    pub fn is_empty(&self) -> (empty: bool)
        ensures
            empty == (self@.hits.len() == 0),
    {
        self.hits.len() == 0
    }
}

// ---------------------------------------------------------------------------------------------
// Laws
// ---------------------------------------------------------------------------------------------

/// A hit as a value holds what its fields hold.
pub proof fn law_hit_holds_its_fields(hit: SearchHit)
    ensures
        hit@.path == hit.path@,
        hit@.line_start == hit.line_start,
        hit@.line_end == hit.line_end,
        hit@.snippet == hit.snippet@,
        hit@.rank == hit.rank,
        hit@.is_chunk == hit.is_chunk,
        hit@.doc_id == hit.doc_id@,
        hit@.match_type == hit.match_type,
{
}

/// A result as a value holds what its fields hold, and its hits in their order.
pub proof fn law_result_holds_its_fields(result: SearchResult)
    ensures
        result@.total == result.total,
        result@.query_time_ms == result.query_time_ms,
        result@.text_hits == result.text_hits,
        result@.semantic_hits == result.semantic_hits,
        result@.hits.len() == result.hits@.len(),
        forall|i: int| 0 <= i < result.hits@.len() ==> result@.hits[i] == (#[trigger] result.hits@[i])@,
        result@.hits == hit_views(result.hits@),
{
}

} // verus!
