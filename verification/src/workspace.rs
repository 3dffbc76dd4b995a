//! A workspace: a directory tree with an index of its own.

use vstd::prelude::*;
use vstd::utf8::{encode_utf8, is_ascii_chars};

use crate::config::SearchConfig;
use crate::error::YgrepError;
use crate::index::location::{hashed_name, hex_digits, index_segments, law_index_name_has_sixteen_digits};
use crate::index::metadata::{read_semantic_flag, semantic_flag};
use crate::index::run::{is_plan, new_run, planned, step_for, vectors_at_start, EmbeddingPlan, FileOutcome,
    FileStep, IndexRun, IndexState};
use crate::index::schema::{doc_id_field, fields_of, is_field_missing};
use crate::path::{relative_path, relative_to};
use crate::search::filters::{FiltersView, SearchFilters};
use crate::search::pattern::{caseless_matches, finds_plainly, is_plain};
use crate::search::searcher::{filtered_search, is_refusal, literal_search, unfiltered_limit, SearchRun, Searcher};
use crate::text::{lowers_as_ascii, texts};

verus! {

/// Which files are there where the index of a workspace belongs.
#[derive(Debug, Clone, Copy)]
pub struct IndexFiles {
    /// `workspace.json`, which is written when the workspace has been indexed.
    pub workspace_json: bool,
    /// `meta.json`, which is there where there is an index at all.
    pub meta_json: bool,
}

/// How the index of a workspace comes to be open.
#[derive(Debug, Clone, Copy, PartialEq, Eq, Structural)]
pub enum IndexOpening {
    /// There is one, which is opened.
    Open,
    /// There is none; its directory and an empty one are made.
    Create,
}

/// High-level workspace for indexing and searching.
pub struct Workspace {
    root: String,
    search: SearchConfig,
    engine: bool,
    opening: IndexOpening,
}

/// A workspace as a value.
pub struct WorkspaceView {
    /// The root directory.
    pub root: Seq<char>,
    /// The limits of searches.
    pub search: SearchConfig,
    /// A semantic index can be built.
    pub engine: bool,
    /// How the index comes to be open.
    pub opening: IndexOpening,
}

impl View for Workspace {
    type V = WorkspaceView;

    closed spec fn view(&self) -> WorkspaceView {
        WorkspaceView { root: self.root@, search: self.search, engine: self.engine, opening: self.opening }
    }
}

/// `error` says that the workspace at `root` has not been indexed.
pub open spec fn is_not_indexed(error: YgrepError, root: Seq<char>) -> bool {
    error matches YgrepError::Config(message) && message@ == "Workspace not indexed: "@ + root
}

/// How an index comes to be open where the files `found` are there.
pub open spec fn opening_for(found: IndexFiles) -> IndexOpening {
    if found.meta_json {
        IndexOpening::Open
    } else {
        IndexOpening::Create
    }
}

/// The workspace has been indexed: what was noted down about that is there, and so is an index.
pub open spec fn is_indexed(found: IndexFiles) -> bool {
    found.workspace_json && found.meta_json
}

/// The workspace at `root` where the files `found` are there. Unless `create` is set there is one
/// only if it has been indexed, and then nothing is made.
pub open spec fn opened(
    root: Seq<char>,
    search: SearchConfig,
    engine: bool,
    found: IndexFiles,
    create: bool,
) -> Option<WorkspaceView> {
    if create || is_indexed(found) {
        Some(WorkspaceView { root, search, engine, opening: opening_for(found) })
    } else {
        None
    }
}

/// The components that lead from the data directory to the index of the workspace at `root`.
pub open spec fn index_place(root: Seq<char>) -> Seq<Seq<char>> {
    seq!["indexes"@, hashed_name(root)]
}

/// Semantic search is available: it can be done at all, and there are vectors to search.
pub open spec fn is_semantic(engine: bool, vectors: nat) -> bool {
    engine && vectors > 0
}

/// `filters` by extensions and by paths.
pub open spec fn filters_of(extensions: Option<Vec<String>>, paths: Option<Vec<String>>) -> FiltersView {
    FiltersView {
        extensions: match extensions {
            Some(list) => Some(texts(list@)),
            None => None,
        },
        paths: match paths {
            Some(list) => Some(texts(list@)),
            None => None,
        },
    }
}

impl Workspace {
    /// Opens or creates a workspace. If `create` is false, it fails where the workspace has not
    /// been indexed.
    fn open_internal(
        root: String,
        search: SearchConfig,
        engine: bool,
        found: IndexFiles,
        create: bool,
    ) -> (workspace: Result<Workspace, YgrepError>)
        requires
            root@.len() > 0,
        ensures
            match workspace {
                Ok(w) => w.wf() && opened(root@, search, engine, found, create) == Some(w@),
                Err(error) => opened(root@, search, engine, found, create) is None && is_not_indexed(
                    error,
                    root@,
                ),
            },
    {
        if !create && !(found.workspace_json && found.meta_json) {
            let mut message = "Workspace not indexed: ".to_owned();
            message.append(root.as_str());
            return Err(YgrepError::Config(message));
        }
        let opening = if found.meta_json {
            IndexOpening::Open
        } else {
            IndexOpening::Create
        };
        Ok(Workspace { root, search, engine, opening })
    }

    /// What every workspace keeps.
    pub closed spec fn wf(self) -> bool {
        self.root@.len() > 0
    }

    /// Opens an existing workspace (fails if not indexed). Nothing is made.
    pub fn open_with_config(
        root: String,
        search: SearchConfig,
        engine: bool,
        found: IndexFiles,
    ) -> (workspace: Result<Workspace, YgrepError>)
        requires
            root@.len() > 0,
        ensures
            match workspace {
                Ok(w) => w.wf() && opened(root@, search, engine, found, false) == Some(w@),
                Err(error) => opened(root@, search, engine, found, false) is None && is_not_indexed(
                    error,
                    root@,
                ),
            },
    {
        Self::open_internal(root, search, engine, found, false)
    }

    /// Creates or opens a workspace for indexing.
    pub fn create_with_config(
        root: String,
        search: SearchConfig,
        engine: bool,
        found: IndexFiles,
    ) -> (workspace: Result<Workspace, YgrepError>)
        requires
            root@.len() > 0,
        ensures
            workspace matches Ok(w) && w.wf() && opened(root@, search, engine, found, true) == Some(w@),
    {
        Self::open_internal(root, search, engine, found, true)
    }

    /// How the index comes to be open.
    pub fn opening(&self) -> (opening: IndexOpening)
        ensures
            opening == self@.opening,
    {
        self.opening
    }

    /// The workspace root.
    pub fn root(&self) -> (root: &str)
        ensures
            root@ == self@.root,
    {
        self.root.as_str()
    }

    /// The components that lead from the data directory to the index.
    pub fn index_path(&self) -> (segments: Vec<String>)
        ensures
            texts(segments@) == index_place(self@.root),
    {
        index_segments(self.root.as_str())
    }

    /// Starts a run that indexes all files (text only).
    pub fn index_all(&self) -> (run: IndexRun)
        ensures
            run@ == new_run(false, self@.engine),
    {
        self.index_all_with_options(false)
    }

    /// Starts a run that indexes all files, with a semantic index if asked for.
    pub fn index_all_with_options(&self, with_embeddings: bool) -> (run: IndexRun)
        ensures
            run@ == new_run(with_embeddings, self@.engine),
    {
        IndexRun::new(with_embeddings, self.engine)
    }

    /// Searches the workspace.
    pub fn search(&self, query: &str, limit: Option<usize>) -> (run: SearchRun)
        ensures
            run.wf(),
            run@ == literal_search(self@.search, query@, limit),
            is_ascii_chars(query@) ==> lowers_as_ascii(query@),
    {
        Searcher::new(self.search).search(query, limit)
    }

    /// Searches with filters.
    pub fn search_filtered(
        &self,
        query: &str,
        limit: Option<usize>,
        extensions: Option<Vec<String>>,
        paths: Option<Vec<String>>,
        use_regex: bool,
    ) -> (run: Result<SearchRun, YgrepError>)
        requires
            unfiltered_limit(self@.search, limit) <= usize::MAX,
        ensures
            match run {
                Ok(r) => r.wf() && r@ == filtered_search(
                    self@.search,
                    query@,
                    limit,
                    filters_of(extensions, paths),
                    use_regex,
                ),
                Err(error) => use_regex && is_refusal(query@, error),
            },
            run is Ok && use_regex && is_plain(query@) ==> finds_plainly(caseless_matches(query@), query@),
    {
        let filters = SearchFilters { extensions, paths };
        Searcher::new(self.search).search_filtered(query, limit, filters, use_regex)
    }

    /// Whether semantic search is available: it can be done at all, and there are `vectors` to
    /// search.
    pub fn has_semantic_index(&self, vectors: usize) -> (yes: bool)
        ensures
            yes == is_semantic(self@.engine, vectors as nat),
    {
        self.engine && vectors > 0
    }

    /// What follows when a single file was to be indexed or indexed again.
    pub fn index_file(&self, outcome: FileOutcome) -> (step: FileStep)
        ensures
            step == step_for(outcome),
    {
        outcome.next_step()
    }

    /// What follows when a single file was to be indexed or indexed again, and whether its content
    /// is then to be embedded.
    pub fn index_file_with_options(&self, outcome: FileOutcome, with_embeddings: bool) -> (plan: (FileStep, bool))
        ensures
            plan.0 == step_for(outcome),
            plan.1 == (outcome == FileOutcome::Indexed && with_embeddings && self@.engine),
    {
        let step = outcome.next_step();
        (step, step == FileStep::Commit && with_embeddings && self.engine)
    }

    /// Which document to delete from an index with the given schema for the file at `path`: the
    /// number of the field that holds the names of documents, and the name. The name is the path
    /// below the root, or the path itself where it is not below the root; `/` separates components.
    pub fn delete_file(&self, schema: &tantivy::schema::Schema, path: &str) -> (term: Result<(u32, String), YgrepError>)
        requires
            self.wf(),
        ensures
            match term {
                Ok((field, doc_id)) => {
                    &&& fields_of(*schema).contains_key("doc_id"@)
                    &&& fields_of(*schema)["doc_id"@] == field
                    &&& doc_id@ == relative_to(self@.root, path@)
                },
                Err(error) => !fields_of(*schema).contains_key("doc_id"@) && is_field_missing(error),
            },
    {
        let doc_id = relative_path(self.root.as_str(), path);
        match doc_id_field(schema) {
            Ok(field) => Ok((field, doc_id)),
            Err(error) => Err(error),
        }
    }

    /// The stored semantic flag, from the text of `workspace.json` if that could be read.
    pub fn stored_semantic_flag(&self, metadata: Option<&str>) -> (flag: Option<bool>)
        ensures
            flag == (match metadata {
                Some(text) => semantic_flag(text@),
                None => None,
            }),
    {
        match metadata {
            Some(text) => read_semantic_flag(text),
            None => None,
        }
    }
}

// ---------------------------------------------------------------------------------------------
// Laws
// ---------------------------------------------------------------------------------------------

/// However a workspace is opened, its root is the one asked for and its index is in the place that
/// belongs to that root. So two openings of one root meet in one index.
pub proof fn law_openings_of_one_root_meet(
    root: Seq<char>,
    first: (SearchConfig, bool, IndexFiles, bool),
    second: (SearchConfig, bool, IndexFiles, bool),
)
    requires
        opened(root, first.0, first.1, first.2, first.3) is Some,
        opened(root, second.0, second.1, second.2, second.3) is Some,
    ensures
        ({
            let one = opened(root, first.0, first.1, first.2, first.3)->Some_0;
            let other = opened(root, second.0, second.1, second.2, second.3)->Some_0;
            &&& one.root == root
            &&& other.root == root
            &&& index_place(one.root) == index_place(other.root)
        }),
{
}

/// Opening a workspace that need not be created makes nothing, and gives what creating it gives.
pub proof fn law_opening_makes_nothing(root: Seq<char>, search: SearchConfig, engine: bool, found: IndexFiles)
    ensures
        match opened(root, search, engine, found, false) {
            Some(w) => w.opening == IndexOpening::Open && opened(root, search, engine, found, true) == Some(w),
            None => !is_indexed(found),
        },
{
}

/// After a run `end` without a semantic index there is none, whatever there was before: where there
/// can be vectors they are cleared, and the run plans to embed nothing.
pub proof fn law_text_only_run_leaves_no_semantic_index(
    end: IndexState,
    plan: EmbeddingPlan,
    before: nat,
    inserted: nat,
)
    requires
        !end.semantic,
        is_plan(plan, end),
        inserted <= planned(plan),
    ensures
        plan is Nothing,
        !is_semantic(end.engine, vectors_at_start(end, before) + inserted),
{
}

/// Where a semantic index cannot be built there never is one.
pub proof fn law_no_engine_no_semantic_index(vectors: nat)
    ensures
        !is_semantic(false, vectors),
{
}

/// Opening succeeds where the workspace is to be created, and else exactly where both files are
/// there. An index is opened where there is one and made where there is none.
pub proof fn law_files_decide_the_opening(
    root: Seq<char>,
    search: SearchConfig,
    engine: bool,
    workspace_json: bool,
    meta_json: bool,
    create: bool,
)
    ensures
        ({
            let result = opened(root, search, engine, IndexFiles { workspace_json, meta_json }, create);
            &&& result is Some <==> create || workspace_json && meta_json
            &&& result matches Some(w) ==> {
                &&& w.root == root
                &&& w.search == search
                &&& w.engine == engine
                &&& w.opening == IndexOpening::Open <==> meta_json
                &&& w.opening == IndexOpening::Create <==> !meta_json
            }
        }),
{
}

/// The index of a workspace is found under `indexes`, by the hash of the root.
pub proof fn law_place_is_named_by_the_hash(root: Seq<char>)
    ensures
        index_place(root).len() == 2,
        index_place(root)[0] == "indexes"@,
        index_place(root)[1] == hex_digits(crate::index::location::xxh3(encode_utf8(root)) as int, 16),
{
    law_index_name_has_sixteen_digits(root);
}

/// Semantic search is available exactly where texts can be embedded and there are vectors.
pub proof fn law_semantic_search_needs_vectors(engine: bool, vectors: nat)
    ensures
        is_semantic(engine, vectors) <==> engine && vectors > 0,
{
}

/// The error for a workspace that has not been indexed names its root.
pub proof fn law_error_names_the_root(error: YgrepError, root: Seq<char>)
    ensures
        is_not_indexed(error, root) <==> (error matches YgrepError::Config(message) && message@
            == "Workspace not indexed: "@ + root),
{
}

/// The filters of a search are the extensions and the parts of paths that were given.
pub proof fn law_filters_are_those_given(extensions: Option<Vec<String>>, paths: Option<Vec<String>>)
    ensures
        filters_of(extensions, paths) == (SearchFilters { extensions, paths })@,
{
}

} // verus!
