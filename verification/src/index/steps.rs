//! The steps of a run once all files are through, and their order.

use vstd::prelude::*;

use crate::index::embedding::{batch_views, batched, suitable, NamedText, NamedTextView};
use crate::index::run::{collects, with_batch, EmbeddingPlan, IndexRun, IndexState};

verus! {

/// What happened in the run last.
#[derive(Debug, Clone, Copy, PartialEq, Eq, Structural)]
pub enum RunEvent {
    /// All files are through.
    Walked,
    /// The changes of the index were made final.
    Committed,
    /// It was said that nothing is suitable for a semantic index.
    Reported,
    /// All batches are done.
    Embedded,
    /// The vectors were saved.
    Saved,
    /// The metadata of the run was written, or could not be, which is no failure.
    Noted,
    /// What was to be done failed.
    Failed,
}

/// What is to be done next in the run.
#[derive(Debug)]
pub enum RunAction {
    /// Make the changes of the index final.
    Commit,
    /// Say that of what was collected nothing is suitable for a semantic index.
    Report,
    /// Embed these texts, batch by batch.
    Embed {
        /// How many texts there are.
        total: usize,
        /// The texts in batches.
        batches: Vec<Vec<NamedText>>,
    },
    /// Save the vectors.
    Save,
    /// Write the metadata of the run: the workspace has been indexed.
    Note,
    /// Nothing: the run succeeded.
    Finish,
    /// Pass the failure on.
    Fail,
}

/// What is to be done next in the run, as a value.
pub enum RunActionView {
    /// Make the changes of the index final.
    Commit,
    /// Say that nothing is suitable.
    Report,
    /// Embed these texts.
    Embed {
        /// How many texts there are.
        total: nat,
        /// The texts in batches.
        batches: Seq<Seq<NamedTextView>>,
    },
    /// Save the vectors.
    Save,
    /// Write the metadata.
    Note,
    /// Nothing.
    Finish,
    /// Pass the failure on.
    Fail,
}

impl View for RunAction {
    type V = RunActionView;

    open spec fn view(&self) -> RunActionView {
        match self {
            RunAction::Commit => RunActionView::Commit,
            RunAction::Report => RunActionView::Report,
            RunAction::Embed { total, batches } => RunActionView::Embed {
                total: *total as nat,
                batches: batch_views(batches@),
            },
            RunAction::Save => RunActionView::Save,
            RunAction::Note => RunActionView::Note,
            RunAction::Finish => RunActionView::Finish,
            RunAction::Fail => RunActionView::Fail,
        }
    }
}

/// The run has texts to embed.
pub open spec fn embeds(state: IndexState) -> bool {
    collects(state) && suitable(state.pending).len() > 0
}

/// What is to be done in the run `state` after `event`. A failure of any step ends the run.
pub open spec fn run_action(state: IndexState, event: RunEvent) -> RunActionView {
    match event {
        RunEvent::Walked => RunActionView::Commit,
        RunEvent::Committed => if !collects(state) || state.pending.len() == 0 {
            RunActionView::Note
        } else if !embeds(state) {
            RunActionView::Report
        } else {
            let texts = suitable(state.pending);
            RunActionView::Embed { total: texts.len(), batches: batched(texts) }
        },
        RunEvent::Reported => RunActionView::Note,
        RunEvent::Embedded => RunActionView::Save,
        RunEvent::Saved => RunActionView::Note,
        RunEvent::Noted => RunActionView::Finish,
        RunEvent::Failed => RunActionView::Fail,
    }
}

impl IndexRun {
    /// What is to be done after `event`.
    pub fn next_action(&self, event: RunEvent) -> (action: RunAction)
        ensures
            action@ == run_action(self@, event),
    {
        match event {
            RunEvent::Walked => RunAction::Commit,
            RunEvent::Committed => match self.embedding_plan() {
                EmbeddingPlan::Nothing => RunAction::Note,
                EmbeddingPlan::NothingSuitable => RunAction::Report,
                EmbeddingPlan::Embed { total, batches } => RunAction::Embed { total, batches },
            },
            RunEvent::Reported => RunAction::Note,
            RunEvent::Embedded => RunAction::Save,
            RunEvent::Saved => RunAction::Note,
            RunEvent::Noted => RunAction::Finish,
            RunEvent::Failed => RunAction::Fail,
        }
    }
}

// ---------------------------------------------------------------------------------------------
// Laws
// ---------------------------------------------------------------------------------------------

/// `event` can come of `action`. To say something cannot fail, and that the metadata could not be
/// written is no failure of the run.
pub open spec fn can_come_of(event: RunEvent, action: RunActionView) -> bool {
    match action {
        RunActionView::Commit => event is Committed || event is Failed,
        RunActionView::Report => event is Reported,
        RunActionView::Embed { .. } => event is Embedded || event is Failed,
        RunActionView::Save => event is Saved || event is Failed,
        RunActionView::Note => event is Noted,
        RunActionView::Finish => false,
        RunActionView::Fail => false,
    }
}

/// `events` can happen in the run `state`, one after the other, where what is to be done is done.
/// The run may fail before the files are through.
pub open spec fn can_happen(state: IndexState, events: Seq<RunEvent>) -> bool {
    &&& events.len() > 0
    &&& events[0] is Walked || events[0] is Failed
    &&& forall|i: int|
        0 < i < events.len() ==> can_come_of(#[trigger] events[i], run_action(state, events[i - 1]))
}

/// The metadata that says that the workspace has been indexed is written only after the changes of
/// the index were made final and, where there is something to embed, after all of that was done
/// and the vectors were saved; and only where no step failed.
pub proof fn law_metadata_is_written_last(state: IndexState, events: Seq<RunEvent>)
    requires
        can_happen(state, events),
        run_action(state, events.last()) is Note,
    ensures
        !events.contains(RunEvent::Failed),
        events.len() >= 2,
        events[0] == RunEvent::Walked,
        events[1] == RunEvent::Committed,
        embeds(state) ==> events == seq![
            RunEvent::Walked,
            RunEvent::Committed,
            RunEvent::Embedded,
            RunEvent::Saved,
        ],
        !embeds(state) ==> !events.contains(RunEvent::Embedded) && !events.contains(RunEvent::Saved),
{
    lemma_first_events(state, events);
}

/// A run in which a step failed fails, and nothing more is done in it.
pub proof fn law_failure_ends_the_run(state: IndexState, events: Seq<RunEvent>, i: int)
    requires
        can_happen(state, events),
        0 <= i < events.len(),
        events[i] == RunEvent::Failed,
    ensures
        i == events.len() - 1,
        run_action(state, events.last()) is Fail,
{
    if i < events.len() - 1 {
        assert(can_come_of(events[i + 1], run_action(state, events[i + 1 - 1])));
    }
}

/// A run succeeds only after its metadata was to be written.
pub proof fn law_success_comes_after_the_metadata(state: IndexState, events: Seq<RunEvent>)
    requires
        can_happen(state, events),
        run_action(state, events.last()) is Finish,
    ensures
        events.len() >= 2,
        can_happen(state, events.drop_last()),
        run_action(state, events.drop_last().last()) is Note,
{
    let n = events.len();
    if n > 1 {
        assert(can_come_of(events[n - 1], run_action(state, events[n - 2])));
    }
    let front = events.drop_last();
    assert forall|i: int| 0 < i < front.len() implies can_come_of(
        #[trigger] front[i],
        run_action(state, front[i - 1]),
    ) by {
        assert(can_come_of(events[i], run_action(state, events[i - 1])));
    }
}

/// Recording batches changes nothing about the steps, so the order is that of one and the same run.
pub proof fn law_batches_change_no_step(state: IndexState, embedded: bool, count: nat, event: RunEvent)
    ensures
        run_action(with_batch(state, embedded, count), event) == run_action(state, event),
{
}

/// What the first events of a run can be.
proof fn lemma_first_events(state: IndexState, events: Seq<RunEvent>)
    requires
        can_happen(state, events),
    ensures
        events.len() <= 5,
        events.len() > 1 ==> can_come_of(events[1], run_action(state, events[0])),
        events.len() > 2 ==> can_come_of(events[2], run_action(state, events[1])),
        events.len() > 3 ==> can_come_of(events[3], run_action(state, events[2])),
        events.len() > 4 ==> can_come_of(events[4], run_action(state, events[3])),
{
    assert(events.len() > 1 ==> can_come_of(events[1], run_action(state, events[0])));
    assert(events.len() > 2 ==> can_come_of(events[2], run_action(state, events[1])));
    assert(events.len() > 3 ==> can_come_of(events[3], run_action(state, events[2])));
    assert(events.len() > 4 ==> can_come_of(events[4], run_action(state, events[3])));
    assert(events.len() > 5 ==> can_come_of(events[5], run_action(state, events[4])));
}

/// Each step that is done leads to the next, and only a failure makes the run fail. After the commit
/// the suitable texts are embedded where a semantic index is asked for and can be built; where none
/// of what was collected is suitable, that is said; else the metadata is next.
pub proof fn law_each_step_leads_on(state: IndexState, event: RunEvent)
    ensures
        event == RunEvent::Walked <==> run_action(state, event) is Commit,
        event == RunEvent::Embedded <==> run_action(state, event) is Save,
        event == RunEvent::Noted <==> run_action(state, event) is Finish,
        event == RunEvent::Failed <==> run_action(state, event) is Fail,
        event == RunEvent::Reported || event == RunEvent::Saved ==> run_action(state, event) is Note,
        event == RunEvent::Committed ==> {
            let texts = suitable(state.pending);
            if !state.semantic || !state.engine || state.pending.len() == 0 {
                run_action(state, event) is Note
            } else if texts.len() == 0 {
                run_action(state, event) is Report
            } else {
                run_action(state, event) == RunActionView::Embed { total: texts.len(), batches: batched(texts) }
            }
        },
{
}

/// An action as a value is the same action, with the texts that it holds.
pub proof fn law_run_action_holds_its_texts(total: usize, batches: Vec<Vec<NamedText>>)
    ensures
        (RunAction::Embed { total, batches })@ == (RunActionView::Embed {
            total: total as nat,
            batches: batch_views(batches@),
        }),
        RunAction::Commit@ == RunActionView::Commit,
        RunAction::Report@ == RunActionView::Report,
        RunAction::Save@ == RunActionView::Save,
        RunAction::Note@ == RunActionView::Note,
        RunAction::Finish@ == RunActionView::Finish,
        RunAction::Fail@ == RunActionView::Fail,
{
}

} // verus!
