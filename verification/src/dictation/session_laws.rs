//! What holds of dictation sessions, over all states and events.
use vstd::prelude::*;

use crate::dictation::chunker::ChunkView;
use crate::dictation::effect::EffectView;
use crate::dictation::injector::{injected, Focus, InjectionView};
use crate::dictation::whisper::{cleaned, filling_after, queued, Lanes, TranscriptView};
use crate::dictation::{dispatched, SessionView, StateView};
use crate::ui::dictation_indicator::Visibility;

verus! {

/// The session that is on.
pub open spec fn on(state: StateView, session: SessionView) -> bool {
    state.session == Some(session)
}

/// Whether the clip is on the screen or on its way there.
pub open spec fn clip_up(state: StateView) -> bool {
    state.indicator.state == Visibility::Showing || state.indicator.state == Visibility::Shown
}

/// Stopping ends the session, whatever the lanes and the focus, and takes the
/// clip and the words beside it away. Stopping again does nothing.
pub proof fn law_stopping_stops(
    state: StateView,
    lanes: Lanes,
    focus: Focus,
    later_lanes: Lanes,
    later_focus: Focus,
)
    requires
        state.session is Some,
    ensures
        ({
            let (after, done) = state.stop(lanes, focus);
            &&& after.session is None
            &&& !clip_up(after)
            &&& after.indicator.preview.len() == 0
            &&& done.len() > 0 && done.last() == EffectView::CloseSession
            &&& after.stop(later_lanes, later_focus) == (after, Seq::<EffectView>::empty())
        }),
{
}

/// Starting puts a session on and the clip up.
pub proof fn law_starting_starts(
    state: StateView,
    settings: crate::config::dictation::Dictation,
    token: u64,
)
    ensures
        ({
            let (after, done) = state.start(settings, token);
            &&& on(after, SessionView::fresh(settings))
            &&& after.transcripts == Some(token)
            &&& clip_up(after)
            &&& done.len() > 0 && done.last() == EffectView::QueueRedraw
        }),
{
}

/// Toggling ends a session that is on, and asks for one where none is.
pub proof fn law_toggling_alternates(state: StateView, lanes: Lanes, focus: Focus)
    ensures
        ({
            let (after, done) = state.toggle(lanes, focus);
            &&& after.session is None
            &&& done.len() > 0
            &&& done.last() == (if state.session is Some {
                EffectView::CloseSession
            } else {
                EffectView::OpenSession
            })
        }),
{
}

/// Stopping sends the last words: what was mid-sentence goes to its lane before
/// anything is shown or cleared, if it is speech and the lane is there.
pub proof fn law_the_last_words_are_sent(
    state: StateView,
    session: SessionView,
    lanes: Lanes,
    focus: Focus,
)
    requires
        on(state, session),
        session.chunker.buf.len() > 0,
        session.chunker.is_speech(session.settings),
        lanes.finals,
    ensures
        state.stop(lanes, focus).1.len() > 1,
        state.stop(lanes, focus).1[0] is Filling,
        state.stop(lanes, focus).1[1] == EffectView::Transcribe(
            ChunkView {
                pcm: session.chunker.buf,
                generation: session.chunker.generation,
                final_: true,
            },
        ),
{
    reveal_with_fuel(dispatched, 2);
    let last_words = session.chunker.flush(session.settings).1;
    assert(last_words.len() == 1);
    assert(last_words[0] == session.chunker.chunk(true));
    let sent = dispatched(last_words, lanes, session.filling).1;
    assert(sent.len() > 1 && sent[1] == EffectView::Transcribe(last_words[0]));
}

/// What happens to a session from outside, other than starting and stopping it.
pub enum SessionEvent {
    /// Captured audio, with a verdict for each frame of it that is heard.
    Audio { audio: Seq<u8>, voiced: Seq<bool>, lanes: Lanes, focus: Focus },
    /// Something came back from the transcription lanes.
    Transcript { transcript: TranscriptView, lanes: Lanes, focus: Focus },
}

/// After one event.
pub open spec fn stepped(state: StateView, event: SessionEvent) -> StateView {
    match event {
        SessionEvent::Audio { audio, voiced, lanes, focus } => state.hear(
            audio,
            voiced,
            lanes,
            focus,
        ).0,
        SessionEvent::Transcript { transcript, lanes, focus } => state.transcript(
            transcript,
            lanes,
            focus,
        ).0,
    }
}

/// After some events.
pub open spec fn after_all(state: StateView, events: Seq<SessionEvent>) -> StateView
    decreases events.len(),
{
    if events.len() == 0 {
        state
    } else {
        stepped(after_all(state, events.drop_last()), events.last())
    }
}

/// While a session lasts, what it has settled stays settled: no event, and no
/// number of them, takes its generation back. None starts a session either.
pub proof fn law_generations_never_fall(
    state: StateView,
    events: Seq<SessionEvent>,
    later: SessionView,
)
    requires
        on(after_all(state, events), later),
    ensures
        state.session matches Some(session) && session.generation <= later.generation,
    decreases events.len(),
{
    if events.len() > 0 {
        let before = after_all(state, events.drop_last());
        assert(before.session is Some);
        law_generations_never_fall(state, events.drop_last(), before.session.unwrap());
    }
}

/// Settled text stands however much happens in between: for as long as the session
/// lasts, neither a preview nor a text of that utterance or of an earlier one
/// changes anything.
pub proof fn law_settled_text_stands(
    state: StateView,
    session: SessionView,
    text: Seq<char>,
    generation: int,
    focus: Focus,
    events: Seq<SessionEvent>,
    late_text: Seq<char>,
    late_generation: int,
    late_focus: Focus,
)
    requires
        on(state, session),
        !state.superseded(generation),
        late_generation <= generation,
        after_all(state.settle(text, generation, focus).0, events).session is Some,
    ensures
        ({
            let later = after_all(state.settle(text, generation, focus).0, events);
            &&& later.preview(late_text, late_generation, late_focus) == (
                later,
                Seq::<EffectView>::empty(),
            )
            &&& later.settle(late_text, late_generation, late_focus) == (
                later,
                Seq::<EffectView>::empty(),
            )
        }),
{
    let settled = state.settle(text, generation, focus).0;
    let later = after_all(settled, events);
    law_generations_never_fall(settled, events, later.session.unwrap());
}

/// Whether the `i`-th of some events is the text of a settled utterance, numbered
/// `generation`, that a session acts on.
pub open spec fn acted_on(
    state: StateView,
    events: Seq<SessionEvent>,
    i: int,
    generation: int,
) -> bool {
    let before = after_all(state, events.take(i));
    &&& 0 <= i < events.len()
    &&& before.session is Some
    &&& !before.superseded(generation)
    &&& events[i] matches SessionEvent::Transcript { transcript, .. }
        && transcript matches TranscriptView::Final { generation: numbered, .. } && numbered
        == generation
}

/// Settled utterances are committed in spoken order: of two whose texts a session
/// acts on, the later one has the higher number.
pub proof fn law_settled_texts_are_in_order(
    state: StateView,
    events: Seq<SessionEvent>,
    i: int,
    first: int,
    j: int,
    second: int,
)
    requires
        i < j,
        acted_on(state, events, i, first),
        acted_on(state, events, j, second),
    ensures
        first < second,
{
    let settled = after_all(state, events.take(i + 1));
    assert(events.take(i + 1).drop_last() =~= events.take(i));
    let between = events.subrange(i + 1, j);
    lemma_after_both(state, events.take(i + 1), between);
    assert(events.take(i + 1) + between =~= events.take(j));
    let before = after_all(state, events.take(j));
    law_generations_never_fall(settled, between, before.session.unwrap());
}

proof fn lemma_after_both(state: StateView, events: Seq<SessionEvent>, more: Seq<SessionEvent>)
    ensures
        after_all(state, events + more) == after_all(after_all(state, events), more),
    decreases more.len(),
{
    if more.len() == 0 {
        assert(events + more =~= events);
    } else {
        assert((events + more).drop_last() =~= events + more.drop_last());
        lemma_after_both(state, events, more.drop_last());
    }
}

/// Settled text is committed even when the session has already ended: its words,
/// and a space after them. It ends what is asked for.
pub proof fn law_settled_text_is_committed(
    state: StateView,
    text: Seq<char>,
    generation: int,
    focus: Focus,
)
    requires
        state.session is None || !state.superseded(generation),
        cleaned(text).len() > 0,
    ensures
        ({
            let done = state.settle(text, generation, focus).1;
            let commit = injected(InjectionView::Commit(cleaned(text) + " "@), focus);
            &&& done.len() >= commit.len()
            &&& done.skip(done.len() - commit.len()) == commit
        }),
{
    let done = state.settle(text, generation, focus).1;
    let commit = injected(InjectionView::Commit(cleaned(text) + " "@), focus);
    assert(done.skip(done.len() - commit.len()) =~= commit);
}

/// A guess at words is gone once they settle: no words beside the clip and none
/// in the session, and the preedit of a text-input is replaced.
pub proof fn law_settling_takes_the_guess_away(
    state: StateView,
    text: Seq<char>,
    generation: int,
    focus: Focus,
)
    requires
        !state.superseded(generation),
    ensures
        ({
            let (after, done) = state.settle(text, generation, focus);
            &&& after.indicator.preview.len() == 0
            &&& after.session matches Some(session) ==> session.preview.len() == 0
            &&& focus.text_input ==> exists|i: int|
                0 <= i < done.len() && #[trigger] done[i] == (EffectView::PreeditString {
                    text: if cleaned(text).len() == 0 {
                        Some(Seq::<char>::empty())
                    } else {
                        None
                    },
                    cursor_begin: 0,
                    cursor_end: 0,
                })
        }),
{
    let done = state.settle(text, generation, focus).1;
    let at = if state.indicator.preview.len() > 0 {
        1int
    } else {
        0int
    };
    if focus.text_input {
        assert(vstd::utf8::encode_utf8(Seq::<char>::empty()) =~= Seq::<u8>::empty());
        assert(done[at] is PreeditString);
    }
}

/// Provisional text is never typed and never committed: a preview asks for
/// nothing but preedit and a redraw.
pub proof fn law_provisional_text_is_never_typed(
    state: StateView,
    text: Seq<char>,
    generation: int,
    focus: Focus,
    i: int,
)
    requires
        0 <= i < state.preview(text, generation, focus).1.len(),
    ensures
        ({
            let asked = state.preview(text, generation, focus).1[i];
            asked is PreeditString || asked is Done || asked is QueueRedraw
        }),
{
}

/// What is heard is shown: a preview that counts puts its words into the preedit
/// of the focused application, or beside the clip where that takes none.
pub proof fn law_what_is_heard_is_shown(
    state: StateView,
    session: SessionView,
    text: Seq<char>,
    generation: int,
    focus: Focus,
)
    requires
        on(state, session),
        generation >= session.generation,
        cleaned(text) != session.preview,
    ensures
        ({
            let (after, done) = state.preview(text, generation, focus);
            &&& after.session matches Some(later) && later.preview == cleaned(text)
            &&& if focus.text_input {
                done.len() > 0 && (done[0] matches EffectView::PreeditString { text: words, .. }
                    && words == Some(cleaned(text)))
            } else {
                after.indicator.preview == cleaned(text)
            }
        }),
{
}

/// Without a session, provisional text means nothing.
pub proof fn law_no_session_no_previews(
    state: StateView,
    text: Seq<char>,
    generation: int,
    focus: Focus,
)
    requires
        state.session is None,
    ensures
        state.preview(text, generation, focus) == (state, Seq::<EffectView>::empty()),
{
}

/// The same guess twice is one guess.
pub proof fn law_a_repeated_preview_changes_nothing(
    state: StateView,
    text: Seq<char>,
    generation: int,
    focus: Focus,
    later_focus: Focus,
)
    ensures
        ({
            let after = state.preview(text, generation, focus).0;
            after.preview(text, generation, later_focus) == (after, Seq::<EffectView>::empty())
        }),
{
}

/// A failed request ends the session.
pub proof fn law_a_failure_stops(state: StateView, err: Seq<char>, lanes: Lanes, focus: Focus)
    ensures
        state.transcript(TranscriptView::Failed(err), lanes, focus) == state.stop(lanes, focus),
        state.transcript(TranscriptView::Failed(err), lanes, focus).0.session is None,
{
}

/// The chunks that some effects queue.
pub open spec fn chunks_queued(done: Seq<EffectView>) -> Seq<ChunkView>
    decreases done.len(),
{
    if done.len() == 0 {
        Seq::empty()
    } else {
        match done[0] {
            EffectView::Transcribe(chunk) => seq![chunk] + chunks_queued(done.drop_first()),
            _ => chunks_queued(done.drop_first()),
        }
    }
}

/// Chunks are queued in the order in which they were cut, and none is passed
/// over: all of them, or those before the first whose lane is gone.
pub proof fn law_chunks_are_queued_in_order(chunks: Seq<ChunkView>, lanes: Lanes, filling: int)
    ensures
        ({
            let (after, done, all) = dispatched(chunks, lanes, filling);
            let sent = chunks_queued(done);
            &&& after >= filling
            &&& sent.is_prefix_of(chunks)
            &&& forall|i: int| 0 <= i < sent.len() ==> lanes.takes(#[trigger] sent[i])
            &&& all == (sent.len() == chunks.len())
            &&& !all ==> !lanes.takes(chunks[sent.len() as int])
        }),
    decreases chunks.len(),
{
    reveal_with_fuel(chunks_queued, 3);
    let done = dispatched(chunks, lanes, filling).1;
    let sent = chunks_queued(done);
    if chunks.len() > 0 {
        let own = queued(chunks[0], lanes, filling);
        if lanes.takes(chunks[0]) {
            let reached = filling_after(filling, chunks[0]);
            let later = chunks.drop_first();
            law_chunks_are_queued_in_order(later, lanes, reached);
            let rest = dispatched(later, lanes, reached).1;
            let tail = chunks_queued(rest);
            assert(done =~= own + rest);
            assert(done.drop_first().drop_first() =~= rest);
            assert(sent =~= seq![chunks[0]] + tail);
            assert(tail =~= later.take(tail.len() as int));
            assert(sent =~= chunks.take(sent.len() as int));
            assert forall|i: int| 0 <= i < sent.len() implies lanes.takes(#[trigger] sent[i]) by {
                if i > 0 {
                    assert(sent[i] == tail[i - 1]);
                }
            }
            if tail.len() < later.len() {
                assert(later[tail.len() as int] == chunks[sent.len() as int]);
            }
        } else {
            assert(done.drop_first() =~= Seq::<EffectView>::empty());
            assert(sent =~= chunks.take(0));
        }
    } else {
        assert(sent =~= chunks.take(0));
    }
}

/// The preview lane is told which utterance is being filled: first of all what the
/// first chunk shows, and then also what sending leaves behind, even where a
/// chunk's own lane turns out to be gone.
pub proof fn law_the_preview_lane_is_told(chunks: Seq<ChunkView>, lanes: Lanes, filling: int)
    requires
        chunks.len() > 0,
    ensures
        ({
            let (after, done, all) = dispatched(chunks, lanes, filling);
            &&& done.len() > 0
            &&& done[0] == EffectView::Filling(filling_after(filling, chunks[0]))
            &&& exists|i: int| 0 <= i < done.len() && #[trigger] done[i] == EffectView::Filling(after)
        }),
    decreases chunks.len(),
{
    let (after, done, all) = dispatched(chunks, lanes, filling);
    let reached = filling_after(filling, chunks[0]);
    let own = queued(chunks[0], lanes, filling);
    if lanes.takes(chunks[0]) && chunks.len() > 1 {
        law_the_preview_lane_is_told(chunks.drop_first(), lanes, reached);
        let rest = dispatched(chunks.drop_first(), lanes, reached).1;
        let i = choose|i: int| 0 <= i < rest.len() && #[trigger] rest[i] == EffectView::Filling(
            after,
        );
        assert(done[i + own.len()] == rest[i]);
    } else {
        reveal_with_fuel(dispatched, 2);
        assert(done[0] == EffectView::Filling(after));
    }
}

/// A session goes on for as long as its lanes do: with both there, audio never
/// ends it. Once a chunk finds its lane gone, it is over.
pub proof fn law_a_session_lasts_as_long_as_its_lanes(
    state: StateView,
    session: SessionView,
    audio: Seq<u8>,
    voiced: Seq<bool>,
    lanes: Lanes,
    focus: Focus,
)
    requires
        on(state, session),
    ensures
        ({
            let cuts = session.chunker.push(session.settings, audio, voiced).1;
            let after = state.hear(audio, voiced, lanes, focus).0;
            (after.session is Some) == forall|i: int|
                0 <= i < cuts.len() ==> lanes.takes(#[trigger] cuts[i])
        }),
{
    let cuts = session.chunker.push(session.settings, audio, voiced).1;
    law_chunks_are_queued_in_order(cuts, lanes, session.filling);
    let (after, done, all) = dispatched(cuts, lanes, session.filling);
    if all {
        assert forall|i: int| 0 <= i < cuts.len() implies lanes.takes(#[trigger] cuts[i]) by {
            assert(chunks_queued(done) =~= cuts);
            assert(lanes.takes(chunks_queued(done)[i]));
        }
    }
}

} // verus!
