//! What dictation asks its surroundings to do.
//!
//! Nothing here talks to an application, a thread or a screen. Each step of a
//! session appends what is to be done to a list, in order, and the compositor
//! does it.
use vstd::prelude::*;

use crate::dictation::chunker::{Chunk, ChunkView};
use crate::ui::dictation_indicator::Fade;

verus! {

/// One thing to do.
#[derive(Debug, PartialEq, Eq)]
pub enum Effect {
    /// Let the preview lane know which utterance is being filled.
    Filling(u64),
    /// Queue a chunk on the lane that transcribes it: settled utterances have
    /// one, previews the other.
    Transcribe(Chunk),
    /// Set the preedit of the active text-input, or clear it, with the cursor
    /// at a place in it.
    PreeditString { text: Option<String>, cursor_begin: i32, cursor_end: i32 },
    /// Commit text to the active text-input.
    CommitString(String),
    /// End a batch of requests to the active text-input.
    Done,
    /// Send a key event to the focused client.
    Key { keycode: u32, pressed: bool },
    /// Report characters that the keymap cannot type.
    Untypable(String),
    /// Report that there is no keyboard to type with.
    NoKeyboard,
    /// Start to show or to hide the indicator.
    Animate(Fade),
    /// Draw every output again.
    QueueRedraw,
    /// Stop listening to the transcripts of an earlier session.
    RemoveSource(u64),
    /// Open the microphone and the transcription lanes of a new session.
    OpenSession,
    /// Release the microphone and the transcription lanes.
    CloseSession,
}

/// What an [`Effect`] says.
pub enum EffectView {
    Filling(int),
    Transcribe(ChunkView),
    PreeditString { text: Option<Seq<char>>, cursor_begin: i32, cursor_end: i32 },
    CommitString(Seq<char>),
    Done,
    Key { keycode: u32, pressed: bool },
    Untypable(Seq<char>),
    NoKeyboard,
    Animate(Fade),
    QueueRedraw,
    RemoveSource(u64),
    OpenSession,
    CloseSession,
}

impl View for Effect {
    type V = EffectView;

    open spec fn view(&self) -> EffectView {
        match *self {
            Effect::Filling(generation) => EffectView::Filling(generation as int),
            Effect::Transcribe(chunk) => EffectView::Transcribe(chunk@),
            Effect::PreeditString { text, cursor_begin, cursor_end } => EffectView::PreeditString {
                text: match text {
                    Some(text) => Some(text@),
                    None => None,
                },
                cursor_begin,
                cursor_end,
            },
            Effect::CommitString(text) => EffectView::CommitString(text@),
            Effect::Done => EffectView::Done,
            Effect::Key { keycode, pressed } => EffectView::Key { keycode, pressed },
            Effect::Untypable(text) => EffectView::Untypable(text@),
            Effect::NoKeyboard => EffectView::NoKeyboard,
            Effect::Animate(fade) => EffectView::Animate(fade),
            Effect::QueueRedraw => EffectView::QueueRedraw,
            Effect::RemoveSource(token) => EffectView::RemoveSource(token),
            Effect::OpenSession => EffectView::OpenSession,
            Effect::CloseSession => EffectView::CloseSession,
        }
    }
}

/// What each effect of a list says.
pub open spec fn asked(effects: Seq<Effect>) -> Seq<EffectView> {
    Seq::new(effects.len(), |i: int| effects[i]@)
}

/// Append one thing to do.
pub fn ask(effects: &mut Vec<Effect>, effect: Effect)
    ensures
        asked(final(effects)@) == asked(old(effects)@).push(effect@),
{
    effects.push(effect);
    assert(asked(effects@) =~= asked(old(effects)@).push(effect@));
}

} // verus!
