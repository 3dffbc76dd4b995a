//! A single file in a semantic index, once its text is in the index.

use vstd::prelude::*;
use vstd::utf8::encode_utf8;

use crate::index::embedding::{embedded_text, embedding_text, law_size_decides_what_is_embedded};

verus! {

/// What happened to the file last.
#[derive(Debug)]
pub enum EmbedEvent {
    /// Its content was read.
    Read(String),
    /// Its text was embedded.
    Embedded,
    /// Its vector was put in among the others.
    Inserted,
    /// The vectors were saved.
    Saved,
    /// What was to be done failed.
    Failed,
}

/// What is to be done next.
#[derive(Debug)]
pub enum EmbedAction {
    /// Embed this text.
    Embed(String),
    /// Put the vector in among the others.
    Insert,
    /// Save the vectors.
    Save,
    /// Nothing: the file is through, and no failure is passed on.
    Finish,
}

/// What is to be done next, as a value.
pub enum EmbedActionView {
    /// Embed this text.
    Embed(Seq<char>),
    /// Put the vector in among the others.
    Insert,
    /// Save the vectors.
    Save,
    /// Nothing.
    Finish,
}

impl View for EmbedAction {
    type V = EmbedActionView;

    open spec fn view(&self) -> EmbedActionView {
        match self {
            EmbedAction::Embed(text) => EmbedActionView::Embed(text@),
            EmbedAction::Insert => EmbedActionView::Insert,
            EmbedAction::Save => EmbedActionView::Save,
            EmbedAction::Finish => EmbedActionView::Finish,
        }
    }
}

/// What is to be done after `event`. A text that does not suit ends it, and so does a failure.
pub open spec fn action_for(event: EmbedEvent) -> EmbedActionView {
    match event {
        EmbedEvent::Read(content) => match embedded_text(content@) {
            Some(text) => EmbedActionView::Embed(text),
            None => EmbedActionView::Finish,
        },
        EmbedEvent::Embedded => EmbedActionView::Insert,
        EmbedEvent::Inserted => EmbedActionView::Save,
        EmbedEvent::Saved => EmbedActionView::Finish,
        EmbedEvent::Failed => EmbedActionView::Finish,
    }
}

impl EmbedEvent {
    /// What is to be done next.
    pub fn next_action(self) -> (action: EmbedAction)
        ensures
            action@ == action_for(self),
    {
        match self {
            EmbedEvent::Read(content) => match embedding_text(content.as_str()) {
                Some(text) => EmbedAction::Embed(text),
                None => EmbedAction::Finish,
            },
            EmbedEvent::Embedded => EmbedAction::Insert,
            EmbedEvent::Inserted => EmbedAction::Save,
            EmbedEvent::Saved => EmbedAction::Finish,
            EmbedEvent::Failed => EmbedAction::Finish,
        }
    }
}

// ---------------------------------------------------------------------------------------------
// Laws
// ---------------------------------------------------------------------------------------------

/// `event` can come of `action`.
pub open spec fn can_come_of(event: EmbedEvent, action: EmbedActionView) -> bool {
    match action {
        EmbedActionView::Embed(_) => event is Embedded || event is Failed,
        EmbedActionView::Insert => event is Inserted || event is Failed,
        EmbedActionView::Save => event is Saved || event is Failed,
        EmbedActionView::Finish => false,
    }
}

/// `events` can happen to one file, one after the other, where what is to be done is done.
pub open spec fn can_happen(events: Seq<EmbedEvent>) -> bool {
    &&& events.len() > 0
    &&& events[0] is Read || events[0] is Failed
    &&& forall|i: int| 0 < i < events.len() ==> can_come_of(#[trigger] events[i], action_for(events[i - 1]))
}

/// The vectors are saved only where the file was read, its text suits, and it was both embedded
/// and put in among the others.
pub proof fn law_vectors_are_saved_after_both_steps(events: Seq<EmbedEvent>)
    requires
        can_happen(events),
        action_for(events.last()) is Save,
    ensures
        events.len() == 3,
        events[0] matches EmbedEvent::Read(content) && embedded_text(content@) is Some,
        events[1] is Embedded,
        events[2] is Inserted,
{
    law_every_file_comes_through(events);
}

/// A file is through after no more than four events.
pub proof fn law_every_file_comes_through(events: Seq<EmbedEvent>)
    requires
        can_happen(events),
    ensures
        events.len() <= 4,
        events.len() == 4 ==> action_for(events.last()) is Finish,
{
    if events.len() > 1 {
        assert(can_come_of(events[1], action_for(events[0])));
    }
    if events.len() > 2 {
        assert(can_come_of(events[2], action_for(events[1])));
    }
    if events.len() > 3 {
        assert(can_come_of(events[3], action_for(events[2])));
    }
    if events.len() > 4 {
        assert(can_come_of(events[4], action_for(events[3])));
    }
}

/// Of a file that was read, the longest beginning of up to 4096 bytes is embedded where the content
/// takes from 50 to 50000 bytes, and nothing otherwise. Each success leads to the next step, the last
/// one and any failure to the end.
pub proof fn law_each_success_leads_on(event: EmbedEvent)
    ensures
        event matches EmbedEvent::Read(content) ==> {
            &&& 50 <= encode_utf8(content@).len() <= 50_000 <==> action_for(event) is Embed
            &&& !(50 <= encode_utf8(content@).len() <= 50_000) <==> action_for(event) is Finish
            &&& action_for(event) matches EmbedActionView::Embed(text) ==> {
                &&& text.is_prefix_of(content@)
                &&& encode_utf8(text).len() <= 4096
                &&& text.len() < content@.len() ==> encode_utf8(content@.take(text.len() as int + 1)).len() > 4096
            }
        },
        event is Embedded <==> action_for(event) is Insert,
        event is Inserted <==> action_for(event) is Save,
        event is Saved || event is Failed ==> action_for(event) is Finish,
{
    if let EmbedEvent::Read(content) = event {
        law_size_decides_what_is_embedded(content@);
    }
}

/// An action as a value is the same action, with the text that it holds.
pub proof fn law_embed_action_holds_its_text(text: String)
    ensures
        EmbedAction::Embed(text)@ == EmbedActionView::Embed(text@),
        EmbedAction::Insert@ == EmbedActionView::Insert,
        EmbedAction::Save@ == EmbedActionView::Save,
        EmbedAction::Finish@ == EmbedActionView::Finish,
{
}

} // verus!
