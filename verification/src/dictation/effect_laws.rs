//! What the events of a session ask for, spelled out.
use vstd::prelude::*;

use crate::config::dictation::Dictation;
use crate::dictation::chunker::{views, Chunk, ChunkView, ChunkerView};
use crate::dictation::effect::{asked, Effect, EffectView};
use crate::dictation::injector::{injected, Focus, Injection, InjectionView};
use crate::dictation::session_laws::{
    chunks_queued, law_chunks_are_queued_in_order, on,
};
use crate::dictation::typing_laws::law_text_takes_one_route;
use crate::dictation::whisper::{cleaned, filling_after, queued, Lanes, TranscriptView};
use crate::dictation::{dispatched, SessionView, StateView};
use crate::ui::dictation_indicator::{Fade, FadeFrom, Visibility};

verus! {

/// One effect, where it is called for.
pub open spec fn only_if(yes: bool, effect: EffectView) -> Seq<EffectView> {
    if yes {
        seq![effect]
    } else {
        Seq::empty()
    }
}

/// The preedit of a text-input without words in it, and the end of the batch.
pub open spec fn cleared(text_input: bool) -> Seq<EffectView> {
    if text_input {
        seq![
            EffectView::PreeditString {
                text: Some(Seq::empty()),
                cursor_begin: 0,
                cursor_end: 0,
            },
            EffectView::Done,
        ]
    } else {
        Seq::empty()
    }
}

proof fn lemma_cleared(focus: Focus)
    ensures
        injected(InjectionView::Preedit(Seq::empty()), focus) == cleared(focus.text_input),
{
    law_text_takes_one_route(Seq::empty(), focus);
    assert(vstd::utf8::encode_utf8(Seq::<char>::empty()) =~= Seq::<u8>::empty());
    assert(injected(InjectionView::Preedit(Seq::empty()), focus) =~= cleared(focus.text_input));
}

/// The larger of two numbers.
pub open spec fn larger(a: int, b: int) -> int {
    if a < b {
        b
    } else {
        a
    }
}

/// Stopping always clears the preedit of a focused text-input, whatever was shown
/// there: an empty one is set and the batch is ended. No other is set, and nothing is
/// committed or typed.
pub proof fn law_stopping_clears_the_preedit(
    state: StateView,
    session: SessionView,
    lanes: Lanes,
    focus: Focus,
)
    requires
        on(state, session),
    ensures
        ({
            let done = state.stop(lanes, focus).1;
            let clear = EffectView::PreeditString {
                text: Some(Seq::empty()),
                cursor_begin: 0,
                cursor_end: 0,
            };
            &&& focus.text_input ==> exists|i: int|
                0 <= i && i + 1 < done.len() && #[trigger] done[i] == clear && done[i + 1]
                    == EffectView::Done
            &&& forall|i: int|
                0 <= i < done.len() ==> {
                    &&& (#[trigger] done[i]) is PreeditString ==> focus.text_input && done[i]
                        == clear
                    &&& !(done[i] is CommitString) && !(done[i] is Key)
                }
        }),
{
    law_what_stopping_asks_for(state, session, lanes, focus);
    let done = state.stop(lanes, focus).1;
    let speech = session.chunker.buf.len() > 0 && session.chunker.voiced_ms
        >= session.settings.min_speech_ms;
    let i = if speech && lanes.finals {
        2int
    } else if speech {
        1int
    } else {
        0int
    };
    if focus.text_input {
        assert(done[i] is PreeditString);
        assert(done[i + 1] == EffectView::Done);
    }
}

/// What stopping a session asks for, in order: the last words if they are speech,
/// the end of the preedit, the fade of a clip that is up, a redraw, and the end of
/// the session. The words beside the clip go, and the source of transcripts stays.
pub proof fn law_what_stopping_asks_for(
    state: StateView,
    session: SessionView,
    lanes: Lanes,
    focus: Focus,
)
    requires
        on(state, session),
    ensures
        ({
            let (after, done) = state.stop(lanes, focus);
            let words = session.chunker.buf;
            let speech = words.len() > 0 && session.chunker.voiced_ms
                >= session.settings.min_speech_ms;
            let number = session.chunker.generation;
            let shown = state.indicator.state;
            let up = shown == Visibility::Showing || shown == Visibility::Shown;
            &&& done == only_if(
                speech,
                EffectView::Filling(larger(session.filling, number + 1)),
            ) + only_if(
                speech && lanes.finals,
                EffectView::Transcribe(
                    ChunkView { pcm: words, generation: number, final_: true },
                ),
            ) + cleared(focus.text_input) + only_if(
                up,
                EffectView::Animate(
                    Fade {
                        from: if shown == Visibility::Shown {
                            FadeFrom::Shown
                        } else {
                            FadeFrom::Current
                        },
                        fade_in: false,
                    },
                ),
            ) + seq![EffectView::QueueRedraw, EffectView::CloseSession]
            &&& after.session is None
            &&& after.transcripts == state.transcripts
            &&& after.indicator.preview.len() == 0
            &&& after.indicator.buffers == (if state.indicator.preview.len() > 0 {
                Map::empty()
            } else {
                state.indicator.buffers
            })
            &&& after.indicator.state == (if up {
                Visibility::Hiding
            } else {
                shown
            })
        }),
{
    lemma_cleared(focus);
    if state.indicator.preview.len() == 0 {
        assert(state.indicator.preview =~= Seq::empty());
    }
    reveal_with_fuel(dispatched, 3);
    let last_words = session.chunker.flush(session.settings).1;
    let speech = session.chunker.buf.len() > 0 && session.chunker.voiced_ms
        >= session.settings.min_speech_ms;
    if speech {
        assert(last_words.len() == 1);
        assert(last_words.drop_first() =~= Seq::<ChunkView>::empty());
    } else {
        assert(last_words.len() == 0);
    }
    let (after, done) = state.stop(lanes, focus);
    let sent = dispatched(last_words, lanes, session.filling).1;
    assert(sent =~= only_if(
        speech,
        EffectView::Filling(larger(session.filling, session.chunker.generation + 1)),
    ) + only_if(
        speech && lanes.finals,
        EffectView::Transcribe(
            ChunkView {
                pcm: session.chunker.buf,
                generation: session.chunker.generation,
                final_: true,
            },
        ),
    ));
}

/// Without a session there is nothing to stop.
pub proof fn law_without_a_session_nothing_stops(state: StateView, lanes: Lanes, focus: Focus)
    requires
        state.session is None,
    ensures
        state.stop(lanes, focus).0 == state,
        state.stop(lanes, focus).1.len() == 0,
{
}

/// What switching asks for where no session is on: the source of an earlier session
/// is retired, and then a session is opened. Nothing else changes.
pub proof fn law_what_switching_on_asks_for(state: StateView, lanes: Lanes, focus: Focus)
    requires
        state.session is None,
    ensures
        ({
            let (after, done) = state.toggle(lanes, focus);
            &&& done == (match state.transcripts {
                Some(token) => seq![EffectView::RemoveSource(token), EffectView::OpenSession],
                None => seq![EffectView::OpenSession],
            })
            &&& after.session is None
            &&& after.transcripts is None
            &&& after.indicator == state.indicator
        }),
{
    let done = state.toggle(lanes, focus).1;
    assert(done =~= match state.transcripts {
        Some(token) => seq![EffectView::RemoveSource(token), EffectView::OpenSession],
        None => seq![EffectView::OpenSession],
    });
}

/// Switching a session off is stopping it.
pub proof fn law_switching_off_is_stopping(state: StateView, lanes: Lanes, focus: Focus)
    requires
        state.session is Some,
    ensures
        state.toggle(lanes, focus) == state.stop(lanes, focus),
{
}

/// What a start that fails asks for: that the source of an earlier session is retired,
/// and nothing else.
pub proof fn law_what_retiring_asks_for(state: StateView)
    ensures
        ({
            let (after, done) = state.retire();
            &&& done.len() == (if state.transcripts is Some {
                1int
            } else {
                0int
            })
            &&& state.transcripts matches Some(token) ==> done[0] == EffectView::RemoveSource(token)
            &&& after.session == state.session
            &&& after.transcripts is None
            &&& after.indicator == state.indicator
        }),
{
}

/// What the start of a session asks for: that a source still there is retired, the
/// fade of a clip that is not up, and a redraw. Nothing has been heard, sent or
/// settled in it.
pub proof fn law_what_starting_asks_for(state: StateView, settings: Dictation, token: u64)
    ensures
        ({
            let (after, done) = state.start(settings, token);
            let shown = state.indicator.state;
            let up = shown == Visibility::Showing || shown == Visibility::Shown;
            &&& done == (match state.transcripts {
                Some(earlier) => seq![EffectView::RemoveSource(earlier)],
                None => Seq::empty(),
            }) + only_if(
                !up,
                EffectView::Animate(
                    Fade {
                        from: if shown == Visibility::Hidden {
                            FadeFrom::Hidden
                        } else {
                            FadeFrom::Current
                        },
                        fade_in: true,
                    },
                ),
            ) + seq![EffectView::QueueRedraw]
            &&& after.transcripts == Some(token)
            &&& after.indicator.preview == state.indicator.preview
            &&& after.indicator.buffers == state.indicator.buffers
            &&& after.indicator.state == (if up {
                shown
            } else {
                Visibility::Showing
            })
            &&& after.session matches Some(session) && {
                &&& session.settings == settings
                &&& session.filling == 0
                &&& session.generation == 0
                &&& session.preview.len() == 0
                &&& session.chunker == (ChunkerView {
                    warmup_left: 200,
                    carry: Seq::empty(),
                    buf: Seq::empty(),
                    silent_ms: 0,
                    voiced_ms: 0,
                    previewed: 0,
                    generation: 0,
                })
            }
        }),
{
    let done = state.start(settings, token).1;
    let shown = state.indicator.state;
    let up = shown == Visibility::Showing || shown == Visibility::Shown;
    assert(done =~= (match state.transcripts {
        Some(earlier) => seq![EffectView::RemoveSource(earlier)],
        None => Seq::<EffectView>::empty(),
    }) + only_if(
        !up,
        EffectView::Animate(
            Fade {
                from: if shown == Visibility::Hidden {
                    FadeFrom::Hidden
                } else {
                    FadeFrom::Current
                },
                fade_in: true,
            },
        ),
    ) + seq![EffectView::QueueRedraw]);
}

/// What a guess asks for. It counts if its utterance has not settled and its words
/// are new: a text-input shows them, with the cursor at their end, and otherwise they
/// go beside the clip, which is drawn again if it showed others. Nothing else of the
/// session changes.
pub proof fn law_what_a_guess_asks_for(
    state: StateView,
    text: Seq<char>,
    generation: int,
    lanes: Lanes,
    focus: Focus,
)
    ensures
        ({
            let (after, done) = state.transcript(
                TranscriptView::Preview { text, generation },
                lanes,
                focus,
            );
            let words = cleaned(text);
            let end = vstd::utf8::encode_utf8(words).len() as usize as i32;
            match state.session {
                Some(session) if generation >= session.generation && words != session.preview => {
                    &&& done == (if focus.text_input {
                        seq![
                            EffectView::PreeditString {
                                text: Some(words),
                                cursor_begin: end,
                                cursor_end: end,
                            },
                            EffectView::Done,
                        ]
                    } else {
                        only_if(state.indicator.preview != words, EffectView::QueueRedraw)
                    })
                    &&& after.session == Some(SessionView { preview: words, ..session })
                    &&& after.transcripts == state.transcripts
                    &&& after.indicator.state == state.indicator.state
                    &&& after.indicator.preview == (if focus.text_input {
                        state.indicator.preview
                    } else {
                        words
                    })
                    &&& after.indicator.buffers == (if focus.text_input || state.indicator.preview
                        == words {
                        state.indicator.buffers
                    } else {
                        Map::empty()
                    })
                },
                _ => after == state && done.len() == 0,
            }
        }),
{
    let words = cleaned(text);
    law_text_takes_one_route(words, focus);
    let done = state.transcript(TranscriptView::Preview { text, generation }, lanes, focus).1;
    if let Some(session) = state.session {
        if generation >= session.generation && words != session.preview {
            let end = vstd::utf8::encode_utf8(words).len() as usize as i32;
            if focus.text_input {
                assert(done =~= seq![
                    EffectView::PreeditString {
                        text: Some(words),
                        cursor_begin: end,
                        cursor_end: end,
                    },
                    EffectView::Done,
                ]);
            } else {
                assert(done =~= only_if(
                    state.indicator.preview != words,
                    EffectView::QueueRedraw,
                ));
            }
        }
    }
}

/// What settled text asks for. It counts if the session has not settled its utterance
/// yet, or is over: the words beside the clip go, and the text, with a space behind it,
/// is committed to a text-input or typed. Where nothing was said, the guess is taken
/// back. From then on the utterance is settled; nothing else of the session changes.
pub proof fn law_what_settled_text_asks_for(
    state: StateView,
    text: Seq<char>,
    generation: int,
    lanes: Lanes,
    focus: Focus,
)
    ensures
        ({
            let (after, done) = state.transcript(
                TranscriptView::Final { text, generation },
                lanes,
                focus,
            );
            let words = cleaned(text);
            let late = state.session matches Some(session) && generation < session.generation;
            if late {
                after == state && done.len() == 0
            } else {
                &&& done == only_if(
                    state.indicator.preview.len() > 0,
                    EffectView::QueueRedraw,
                ) + (if words.len() == 0 {
                    cleared(focus.text_input)
                } else if focus.text_input {
                    seq![
                        EffectView::PreeditString { text: None, cursor_begin: 0, cursor_end: 0 },
                        EffectView::CommitString(words + " "@),
                        EffectView::Done,
                    ]
                } else {
                    match focus.keyboard {
                        Some(keymap) => crate::dictation::injector::typing(words + " "@, &keymap),
                        None => seq![EffectView::NoKeyboard],
                    }
                })
                &&& after.session == (match state.session {
                    Some(session) => Some(
                        SessionView {
                            preview: Seq::empty(),
                            generation: generation + 1,
                            ..session
                        },
                    ),
                    None => None,
                })
                &&& after.transcripts == state.transcripts
                &&& after.indicator.state == state.indicator.state
                &&& after.indicator.preview.len() == 0
                &&& after.indicator.buffers == (if state.indicator.preview.len() > 0 {
                    Map::empty()
                } else {
                    state.indicator.buffers
                })
            }
        }),
{
    reveal_strlit(" ");
    if state.indicator.preview.len() == 0 {
        assert(state.indicator.preview =~= Seq::empty());
    }
    let words = cleaned(text);
    lemma_cleared(focus);
    law_text_takes_one_route(words + " "@, focus);
}

/// What a failure asks for is what stopping does.
pub proof fn law_what_a_failure_asks_for(
    state: StateView,
    err: Seq<char>,
    lanes: Lanes,
    focus: Focus,
)
    ensures
        state.transcript(TranscriptView::Failed(err), lanes, focus) == state.stop(lanes, focus),
{
}

/// What captured audio asks for while both lanes are there: the chunks that the
/// chunker sends are queued, all of them and in order, and nothing else is asked for.
/// The session goes on with what the chunker has become, and nothing else changes.
pub proof fn law_what_audio_asks_for(
    state: StateView,
    session: SessionView,
    audio: Seq<u8>,
    voiced: Seq<bool>,
    lanes: Lanes,
    focus: Focus,
)
    requires
        on(state, session),
        lanes.finals,
        lanes.previews,
    ensures
        ({
            let (chunker, cuts) = session.chunker.push(session.settings, audio, voiced);
            let (after, done) = state.hear(audio, voiced, lanes, focus);
            &&& chunks_queued(done) == cuts
            &&& forall|i: int|
                0 <= i < done.len() ==> (#[trigger] done[i]) is Filling || done[i] is Transcribe
            &&& after.session matches Some(later) && later == (SessionView {
                chunker,
                filling: later.filling,
                ..session
            })
            &&& after.transcripts == state.transcripts
            &&& after.indicator == state.indicator
        }),
{
    let cuts = session.chunker.push(session.settings, audio, voiced).1;
    law_chunks_are_queued_in_order(cuts, lanes, session.filling);
    let (filling, done, all) = dispatched(cuts, lanes, session.filling);
    let sent = chunks_queued(done);
    if !all {
        assert(lanes.takes(cuts[sent.len() as int]));
    }
    assert(sent =~= cuts);
    assert forall|i: int| 0 <= i < done.len() implies (#[trigger] done[i]) is Filling
        || done[i] is Transcribe by {
        lemma_only_lanes(cuts, lanes, session.filling, i);
    }
}

proof fn lemma_only_lanes(chunks: Seq<ChunkView>, lanes: Lanes, filling: int, i: int)
    requires
        0 <= i < dispatched(chunks, lanes, filling).1.len(),
    ensures
        dispatched(chunks, lanes, filling).1[i] is Filling || dispatched(
            chunks,
            lanes,
            filling,
        ).1[i] is Transcribe,
    decreases chunks.len(),
{
    let own = queued(chunks[0], lanes, filling);
    if chunks.len() > 0 && lanes.takes(chunks[0]) && i >= own.len() {
        lemma_only_lanes(
            chunks.drop_first(),
            lanes,
            filling_after(filling, chunks[0]),
            i - own.len(),
        );
    }
}

/// Audio without a session asks for nothing.
pub proof fn law_audio_without_a_session_asks_for_nothing(
    state: StateView,
    audio: Seq<u8>,
    voiced: Seq<bool>,
    lanes: Lanes,
    focus: Focus,
)
    requires
        state.session is None,
    ensures
        state.hear(audio, voiced, lanes, focus) == (state, Seq::<EffectView>::empty()),
        state.audible(audio.len() as int) == 0,
{
}

/// Where a lane is gone, audio that makes a chunk for it ends the session, after the
/// chunks before it have been queued, and as stopping it then would.
pub proof fn law_a_lost_lane_stops_the_session(
    state: StateView,
    session: SessionView,
    audio: Seq<u8>,
    voiced: Seq<bool>,
    lanes: Lanes,
    focus: Focus,
    i: int,
)
    requires
        on(state, session),
        0 <= i < session.chunker.push(session.settings, audio, voiced).1.len(),
        !(if session.chunker.push(session.settings, audio, voiced).1[i].final_ {
            lanes.finals
        } else {
            lanes.previews
        }),
    ensures
        ({
            let (after, done) = state.hear(audio, voiced, lanes, focus);
            let (chunker, cuts) = session.chunker.push(session.settings, audio, voiced);
            let (filling, sent, _) = dispatched(cuts, lanes, session.filling);
            let heard = StateView {
                session: Some(SessionView { chunker, filling, ..session }),
                transcripts: state.transcripts,
                indicator: state.indicator,
            };
            &&& after == heard.stop(lanes, focus).0
            &&& done == sent + heard.stop(lanes, focus).1
            &&& after.session is None
            &&& after.indicator.preview.len() == 0
            &&& done.last() == EffectView::CloseSession
            &&& focus.text_input ==> exists|n: int|
                0 <= n && n + 1 < done.len() && #[trigger] done[n] == (EffectView::PreeditString {
                    text: Some(Seq::empty()),
                    cursor_begin: 0,
                    cursor_end: 0,
                }) && done[n + 1] == EffectView::Done
        }),
{
    let (chunker, cuts) = session.chunker.push(session.settings, audio, voiced);
    law_chunks_are_queued_in_order(cuts, lanes, session.filling);
    let (filling, sent, all) = dispatched(cuts, lanes, session.filling);
    if all {
        assert(chunks_queued(sent) =~= cuts);
        assert(lanes.takes(chunks_queued(sent)[i]));
    }
    let heard = SessionView { chunker, filling, ..session };
    let between = StateView { session: Some(heard), ..state };
    law_stopping_clears_the_preedit(between, heard, lanes, focus);
    law_what_stopping_asks_for(between, heard, lanes, focus);
    let (after, done) = state.hear(audio, voiced, lanes, focus);
    let rest = between.stop(lanes, focus).1;
    assert(done == sent + rest);
    if focus.text_input {
        let clear = EffectView::PreeditString {
            text: Some(Seq::empty()),
            cursor_begin: 0,
            cursor_end: 0,
        };
        let n = choose|n: int|
            0 <= n && n + 1 < rest.len() && #[trigger] rest[n] == clear && rest[n + 1]
                == EffectView::Done;
        assert(done[sent.len() + n] == clear);
        assert(done[sent.len() + n + 1] == EffectView::Done);
    }
}

/// What sending a chunk asks for: the preview lane is told the highest number there
/// has been, one more where an utterance is over, and the chunk goes to its lane.
pub proof fn law_what_sending_asks_for(chunk: ChunkView, lanes: Lanes, filling: int)
    ensures
        ({
            let number = if chunk.final_ {
                chunk.generation + 1
            } else {
                chunk.generation
            };
            let open = if chunk.final_ {
                lanes.finals
            } else {
                lanes.previews
            };
            &&& lanes.takes(chunk) == open
            &&& filling_after(filling, chunk) == larger(filling, number)
            &&& queued(chunk, lanes, filling) == seq![
                EffectView::Filling(larger(filling, number)),
            ] + only_if(open, EffectView::Transcribe(chunk))
        }),
{
    let open = lanes.takes(chunk);
    assert(queued(chunk, lanes, filling) =~= seq![
        EffectView::Filling(filling_after(filling, chunk)),
    ] + only_if(open, EffectView::Transcribe(chunk)));
}

/// Chunks are sent one after the other: each as [`law_what_sending_asks_for`] says, with
/// the number that the one before left, until a lane is gone.
pub proof fn law_chunks_are_sent_one_after_the_other(
    chunk: ChunkView,
    later: Seq<ChunkView>,
    lanes: Lanes,
    filling: int,
)
    ensures
        ({
            let number = larger(
                filling,
                if chunk.final_ {
                    chunk.generation + 1
                } else {
                    chunk.generation
                },
            );
            let open = if chunk.final_ {
                lanes.finals
            } else {
                lanes.previews
            };
            let (after, done, all) = dispatched(seq![chunk] + later, lanes, filling);
            let rest = dispatched(later, lanes, number);
            &&& open ==> {
                &&& after == rest.0
                &&& done == seq![EffectView::Filling(number), EffectView::Transcribe(chunk)]
                    + rest.1
                &&& all == rest.2
            }
            &&& !open ==> {
                &&& after == number
                &&& done == seq![EffectView::Filling(number)]
                &&& !all
            }
            &&& dispatched(Seq::empty(), lanes, filling) == (
                filling,
                Seq::<EffectView>::empty(),
                true,
            )
        }),
{
    let chunks = seq![chunk] + later;
    assert(chunks.drop_first() =~= later);
    assert(chunks[0] == chunk);
}

/// The frames of a session to judge are those of its chunker.
pub proof fn law_a_session_hears_by_its_chunker(
    state: StateView,
    session: SessionView,
    extra: int,
)
    requires
        on(state, session),
    ensures
        state.audible(extra) == session.chunker.audible(extra),
{
}

/// Lists are taken item by item.
pub proof fn law_lists_are_taken_item_by_item(effects: Seq<Effect>, chunks: Seq<Chunk>)
    ensures
        asked(effects).len() == effects.len(),
        forall|i: int| 0 <= i < effects.len() ==> #[trigger] asked(effects)[i] == effects[i]@,
        views(chunks).len() == chunks.len(),
        forall|i: int| 0 <= i < chunks.len() ==> #[trigger] views(chunks)[i] == chunks[i]@,
{
}

/// Pieces of text are taken at their word.
pub proof fn law_pieces_of_text_are_taken_at_their_word(text: String)
    ensures
        Injection::Preedit(text)@ == InjectionView::Preedit(text@),
        Injection::Commit(text)@ == InjectionView::Commit(text@),
{
}

/// An effect says what it is, word for word.
pub proof fn law_effects_say_what_they_are(
    chunk: Chunk,
    text: String,
    number: u64,
    keycode: u32,
    pressed: bool,
    begin: i32,
    end: i32,
    fade: Fade,
)
    ensures
        chunk@ == (ChunkView {
            pcm: chunk.pcm@,
            generation: chunk.generation as int,
            final_: chunk.final_,
        }),
        Effect::Filling(number)@ == EffectView::Filling(number as int),
        Effect::Transcribe(chunk)@ == EffectView::Transcribe(chunk@),
        (Effect::PreeditString { text: Some(text), cursor_begin: begin, cursor_end: end })@ == (
        EffectView::PreeditString { text: Some(text@), cursor_begin: begin, cursor_end: end }),
        (Effect::PreeditString { text: None, cursor_begin: begin, cursor_end: end })@ == (
        EffectView::PreeditString { text: None, cursor_begin: begin, cursor_end: end }),
        Effect::CommitString(text)@ == EffectView::CommitString(text@),
        Effect::Done@ == EffectView::Done,
        (Effect::Key { keycode, pressed })@ == (EffectView::Key { keycode, pressed }),
        Effect::Untypable(text)@ == EffectView::Untypable(text@),
        Effect::NoKeyboard@ == EffectView::NoKeyboard,
        Effect::Animate(fade)@ == EffectView::Animate(fade),
        Effect::QueueRedraw@ == EffectView::QueueRedraw,
        Effect::RemoveSource(number)@ == EffectView::RemoveSource(number),
        Effect::OpenSession@ == EffectView::OpenSession,
        Effect::CloseSession@ == EffectView::CloseSession,
{
}

} // verus!
