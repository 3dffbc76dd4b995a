//! A run over the files of a workspace.
//!
//! What becomes of each file is recorded in an [`IndexRun`]. Where a semantic index is built too,
//! the run collects the contents and, when all files are through, says what to embed. In what order
//! the run ends is in [`steps`](crate::index::steps).

use vstd::prelude::*;

use crate::index::embedding::{batch_views, batched, in_batches, named_views, suitable, suitable_texts, NamedText,
    NamedTextView};
use crate::index::metadata::{metadata_text, pretty_object, semantic_flag, workspace_object};

verus! {

/// After how many files progress is shown.
pub const PROGRESS_EVERY: usize = 500;

/// Statistics from an indexing operation.
#[derive(Debug, Clone, Default)]
pub struct IndexStats {
    pub indexed: usize,
    pub embedded: usize,
    pub skipped: usize,
    pub errors: usize,
    pub unique_paths: usize,
}

/// What became of a file.
#[derive(Debug, Clone, Copy, PartialEq, Eq, Structural)]
pub enum FileOutcome {
    /// It is in the index.
    Indexed,
    /// It is too large to be indexed.
    TooLarge,
    /// It could not be indexed.
    Failed,
}

/// What follows for a single file that was to be indexed.
#[derive(Debug, Clone, Copy, PartialEq, Eq, Structural)]
pub enum FileStep {
    /// The change of the index is to be made final.
    Commit,
    /// The file is passed over, which is no failure.
    Skip,
    /// The failure is to be passed on.
    Fail,
}

/// What follows for a single file with the given outcome.
pub open spec fn step_for(outcome: FileOutcome) -> FileStep {
    match outcome {
        FileOutcome::Indexed => FileStep::Commit,
        FileOutcome::TooLarge => FileStep::Skip,
        FileOutcome::Failed => FileStep::Fail,
    }
}

impl FileOutcome {
    /// What follows for a single file.
    pub fn next_step(self) -> (step: FileStep)
        ensures
            step == step_for(self),
    {
        match self {
            FileOutcome::Indexed => FileStep::Commit,
            FileOutcome::TooLarge => FileStep::Skip,
            FileOutcome::Failed => FileStep::Fail,
        }
    }
}

/// How far a run has come.
pub struct IndexState {
    /// A semantic index is asked for.
    pub semantic: bool,
    /// A semantic index can be built.
    pub engine: bool,
    /// How many files are in the index.
    pub indexed: nat,
    /// How many files are too large.
    pub skipped: nat,
    /// How many files could not be indexed.
    pub errors: nat,
    /// How many documents are in the semantic index.
    pub embedded: nat,
    /// The contents that were collected.
    pub pending: Seq<NamedTextView>,
}

/// The run with one more file.
pub open spec fn recorded(state: IndexState, outcome: FileOutcome) -> IndexState {
    match outcome {
        FileOutcome::Indexed => IndexState { indexed: state.indexed + 1, ..state },
        FileOutcome::TooLarge => IndexState { skipped: state.skipped + 1, ..state },
        FileOutcome::Failed => IndexState { errors: state.errors + 1, ..state },
    }
}

/// How many files were recorded.
pub open spec fn files(state: IndexState) -> nat {
    state.indexed + state.skipped + state.errors
}

/// The run after one more batch of `count` texts, which were `embedded` or not.
pub open spec fn with_batch(state: IndexState, embedded: bool, count: nat) -> IndexState {
    if embedded {
        IndexState { embedded: state.embedded + count, ..state }
    } else {
        state
    }
}

/// The run collects contents for a semantic index.
pub open spec fn collects(state: IndexState) -> bool {
    state.semantic && state.engine
}

/// What to do about a semantic index when all files are through.
#[derive(Debug)]
pub enum EmbeddingPlan {
    /// Nothing: none is built, or nothing was collected for it.
    Nothing,
    /// Nothing: of what was collected nothing is suitable.
    NothingSuitable,
    /// Embed these texts, batch by batch.
    Embed {
        /// How many texts there are.
        total: usize,
        /// The texts in batches.
        batches: Vec<Vec<NamedText>>,
    },
}

/// `plan` is what to do about a semantic index after the run `state`.
pub open spec fn is_plan(plan: EmbeddingPlan, state: IndexState) -> bool {
    let texts = suitable(state.pending);
    if !collects(state) || state.pending.len() == 0 {
        plan is Nothing
    } else if texts.len() == 0 {
        plan is NothingSuitable
    } else {
        plan matches EmbeddingPlan::Embed { total, batches } && total == texts.len() && batch_views(batches@)
            == batched(texts)
    }
}

/// How many texts are embedded where everything in `plan` succeeds.
pub open spec fn planned(plan: EmbeddingPlan) -> nat {
    match plan {
        EmbeddingPlan::Embed { total, .. } => total as nat,
        _ => 0,
    }
}

/// How many of the `vectors` that there were are left when the run `state` begins.
pub open spec fn vectors_at_start(state: IndexState, vectors: nat) -> nat {
    if state.engine {
        0
    } else {
        vectors
    }
}

/// A run over the files of a workspace.
pub struct IndexRun {
    semantic: bool,
    engine: bool,
    indexed: usize,
    skipped: usize,
    errors: usize,
    embedded: usize,
    pending: Vec<NamedText>,
}

impl View for IndexRun {
    type V = IndexState;

    closed spec fn view(&self) -> IndexState {
        IndexState {
            semantic: self.semantic,
            engine: self.engine,
            indexed: self.indexed as nat,
            skipped: self.skipped as nat,
            errors: self.errors as nat,
            embedded: self.embedded as nat,
            pending: named_views(self.pending@),
        }
    }
}

/// A run before its first file.
pub open spec fn new_run(semantic: bool, engine: bool) -> IndexState {
    IndexState { semantic, engine, indexed: 0, skipped: 0, errors: 0, embedded: 0, pending: Seq::empty() }
}

impl IndexRun {
    /// A run in which a semantic index is asked for or not, where one can be built or not.
    pub fn new(semantic: bool, engine: bool) -> (run: IndexRun)
        ensures
            run@ == new_run(semantic, engine),
    {
        let run = IndexRun {
            semantic,
            engine,
            indexed: 0,
            skipped: 0,
            errors: 0,
            embedded: 0,
            pending: Vec::new(),
        };
        assert(run@.pending =~= Seq::<NamedTextView>::empty());
        run
    }

    /// Records what became of a file.
    pub fn record(&mut self, outcome: FileOutcome)
        requires
            files(old(self)@) < usize::MAX,
        ensures
            final(self)@ == recorded(old(self)@, outcome),
    {
        match outcome {
            FileOutcome::Indexed => self.indexed += 1,
            FileOutcome::TooLarge => self.skipped += 1,
            FileOutcome::Failed => self.errors += 1,
        }
    }

    /// How many files are in the index.
    pub fn indexed(&self) -> (count: usize)
        ensures
            count == self@.indexed,
    {
        self.indexed
    }

    /// Whether progress is to be shown after the file that was just indexed.
    pub fn progress_due(&self) -> (yes: bool)
        ensures
            yes == (self@.indexed % PROGRESS_EVERY as nat == 0),
            yes == (self@.indexed % 500 == 0),
    {
        self.indexed % PROGRESS_EVERY == 0
    }

    /// Whether the contents of indexed files are to be collected.
    pub fn collects_content(&self) -> (yes: bool)
        ensures
            yes == collects(self@),
    {
        self.semantic && self.engine
    }

    /// Whether a semantic index is asked for where none can be built.
    pub fn lacks_engine(&self) -> (yes: bool)
        ensures
            yes == (self@.semantic && !self@.engine),
    {
        self.semantic && !self.engine
    }

    /// Collects the content of an indexed file.
    pub fn collect(&mut self, doc_id: String, content: String)
        ensures
            final(self)@ == (IndexState {
                pending: old(self)@.pending.push(NamedTextView { doc_id: doc_id@, text: content@ }),
                ..old(self)@
            }),
    {
        let ghost before = self@.pending;
        let item = NamedText { doc_id, text: content };
        self.pending.push(item);
        assert(self@.pending =~= before.push(item@));
    }

    /// What to do about a semantic index now that all files are through.
    pub fn embedding_plan(&self) -> (plan: EmbeddingPlan)
        ensures
            is_plan(plan, self@),
    {
        assert(self@.pending.len() == self.pending@.len());
        if !self.collects_content() || self.pending.len() == 0 {
            return EmbeddingPlan::Nothing;
        }
        let texts = suitable_texts(&self.pending);
        assert(named_views(texts@).len() == texts@.len());
        if texts.len() == 0 {
            return EmbeddingPlan::NothingSuitable;
        }
        EmbeddingPlan::Embed { total: texts.len(), batches: in_batches(texts) }
    }

    /// Whether the vectors of an earlier run are to be cleared before the first file. They are
    /// wherever there can be any, so that none is left of a file that is gone.
    pub fn clears_vectors(&self) -> (yes: bool)
        ensures
            yes == self@.engine,
    {
        self.engine
    }

    /// Records that a batch of `count` texts is done, and whether they were `embedded`. A batch
    /// that was not is passed over, and the run goes on.
    pub fn batch_done(&mut self, embedded: bool, count: usize)
        requires
            embedded ==> old(self)@.embedded + count <= usize::MAX,
        ensures
            final(self)@ == with_batch(old(self)@, embedded, count as nat),
    {
        if embedded {
            self.embedded += count;
        }
    }

    /// How many documents are in the semantic index.
    pub fn embedded(&self) -> (count: usize)
        ensures
            count == self@.embedded,
    {
        self.embedded
    }

    /// What is noted down about the run over the workspace at `root`, which ended at `indexed_at`.
    pub fn metadata(&self, root: &str, indexed_at: &str) -> (text: String)
        ensures
            text@ == pretty_object(
                workspace_object(root@, indexed_at@, self@.indexed as u64, self@.semantic),
            ),
            semantic_flag(text@) == Some(self@.semantic),
    {
        metadata_text(root, indexed_at, self.indexed, self.semantic)
    }

    /// The statistics of the run, in which `unique_paths` paths were visited.
    pub fn finish(&self, unique_paths: usize) -> (stats: IndexStats)
        ensures
            stats.indexed == self@.indexed,
            stats.embedded == self@.embedded,
            stats.skipped == self@.skipped,
            stats.errors == self@.errors,
            stats.unique_paths == unique_paths,
    {
        IndexStats {
            indexed: self.indexed,
            embedded: self.embedded,
            skipped: self.skipped,
            errors: self.errors,
            unique_paths,
        }
    }
}

// ---------------------------------------------------------------------------------------------
// Laws
// ---------------------------------------------------------------------------------------------

/// The run after files with the given outcomes.
pub open spec fn recorded_all(state: IndexState, outcomes: Seq<FileOutcome>) -> IndexState
    decreases outcomes.len(),
{
    if outcomes.len() == 0 {
        state
    } else {
        recorded(recorded_all(state, outcomes.drop_last()), outcomes.last())
    }
}

/// How many of `outcomes` are `which`.
pub open spec fn count_of(outcomes: Seq<FileOutcome>, which: FileOutcome) -> nat {
    outcomes.filter(|o: FileOutcome| o == which).len()
}

/// Every file of a run is counted once, under what became of it, and nothing else changes.
pub proof fn law_every_file_is_counted_once(semantic: bool, engine: bool, outcomes: Seq<FileOutcome>)
    ensures
        ({
            let end = recorded_all(new_run(semantic, engine), outcomes);
            &&& end.indexed == count_of(outcomes, FileOutcome::Indexed)
            &&& end.skipped == count_of(outcomes, FileOutcome::TooLarge)
            &&& end.errors == count_of(outcomes, FileOutcome::Failed)
            &&& files(end) == outcomes.len()
            &&& end == IndexState {
                indexed: end.indexed,
                skipped: end.skipped,
                errors: end.errors,
                ..new_run(semantic, engine)
            }
        }),
    decreases outcomes.len(),
{
    reveal(Seq::filter);
    if outcomes.len() > 0 {
        law_every_file_is_counted_once(semantic, engine, outcomes.drop_last());
    }
}

/// A single file that is in the index is committed, one that is too large is passed over, and one
/// that could not be indexed fails.
pub proof fn law_outcome_decides_the_step(outcome: FileOutcome)
    ensures
        outcome == FileOutcome::Indexed <==> step_for(outcome) == FileStep::Commit,
        outcome == FileOutcome::TooLarge <==> step_for(outcome) == FileStep::Skip,
        outcome == FileOutcome::Failed <==> step_for(outcome) == FileStep::Fail,
{
}

/// A run starts with nothing counted and nothing collected, and keeps what was asked for.
pub proof fn law_run_starts_empty(semantic: bool, engine: bool)
    ensures
        ({
            let run = new_run(semantic, engine);
            &&& run.semantic == semantic
            &&& run.engine == engine
            &&& run.indexed == 0 && run.skipped == 0 && run.errors == 0 && run.embedded == 0
            &&& run.pending.len() == 0
        }),
{
}

/// One more file changes the one number that counts files with its outcome, by one.
pub proof fn law_file_is_counted_under_its_outcome(state: IndexState, outcome: FileOutcome)
    ensures
        ({
            let next = recorded(state, outcome);
            &&& next.indexed == state.indexed + (if outcome == FileOutcome::Indexed { 1nat } else { 0nat })
            &&& next.skipped == state.skipped + (if outcome == FileOutcome::TooLarge { 1nat } else { 0nat })
            &&& next.errors == state.errors + (if outcome == FileOutcome::Failed { 1nat } else { 0nat })
            &&& next.embedded == state.embedded
            &&& next.pending == state.pending
            &&& next.semantic == state.semantic
            &&& next.engine == state.engine
            &&& files(next) == files(state) + 1
        }),
{
}

/// A batch adds its texts where they were embedded, and nothing where they were not.
pub proof fn law_only_embedded_batches_count(state: IndexState, count: nat)
    ensures
        with_batch(state, false, count) == state,
        with_batch(state, true, count) == (IndexState { embedded: state.embedded + count, ..state }),
{
}

/// What is embedded after a run: all suitable texts in their batches where a semantic index is asked
/// for and can be built, and nothing otherwise.
pub proof fn law_plan_embeds_the_suitable_texts(plan: EmbeddingPlan, state: IndexState)
    requires
        is_plan(plan, state),
    ensures
        collects(state) <==> state.semantic && state.engine,
        plan is Nothing <==> !state.semantic || !state.engine || state.pending.len() == 0,
        plan is NothingSuitable <==> state.semantic && state.engine && state.pending.len() > 0 && suitable(
            state.pending,
        ).len() == 0,
        plan is Embed <==> state.semantic && state.engine && suitable(state.pending).len() > 0,
        plan matches EmbeddingPlan::Embed { total, batches } ==> total == suitable(state.pending).len() && batch_views(
            batches@,
        ) == batched(suitable(state.pending)),
        planned(plan) == (if state.semantic && state.engine { suitable(state.pending).len() } else { 0 }),
{
    assert(suitable(Seq::<NamedTextView>::empty()).len() == 0);
    if state.pending.len() == 0 {
        assert(state.pending =~= Seq::<NamedTextView>::empty());
    }
}

} // verus!
