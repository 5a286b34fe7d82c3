//! Dictation: speech captured, transcribed, and typed into the focused app.
//!
//! ```text
//! microphone --> audio --> chunker --> whisper lanes --> injector --> app
//! ```
//!
//! Every step takes what came in and what is known of the surroundings, changes
//! the [`State`], and appends what is to be done about it to a list of
//! [`effect::Effect`]s. Opening the microphone, posting to the server and
//! pressing keys is up to whoever carries them out.
use vstd::prelude::*;
use vstd::string::StringExecFns;

pub mod audio;
pub mod chunker;
pub mod chunker_laws;
pub mod effect;
pub mod effect_laws;
pub mod injector;
pub mod keymap;
pub mod request_laws;
pub mod session_laws;
pub mod typing_laws;
pub mod utterance_laws;
pub mod wav_laws;
pub mod whisper;
pub mod whisper_laws;
pub mod words_laws;

use crate::config;
use crate::ui::dictation_indicator::{DictationIndicator, Fade, IndicatorView};
use chunker::{frame, views, Chunk, ChunkView, Chunker, ChunkerView};
use chunker_laws::{law_generations_are_monotonic, law_one_cut_per_frame};
use effect::{ask, asked, Effect, EffectView};
use injector::{injected, route, Delivery, Focus, Injection, InjectionView};
use whisper::{
    clean, cleaned, filling_after, queued, Lanes, Transcriber, Transcript, TranscriptView,
};

verus! {

/// A dictation session: the microphone is open and words are being typed.
#[derive(Debug)]
pub struct Dictation {
    chunker: Chunker,
    transcriber: Transcriber,
    /// The most recent provisional text, so the indicator can show what is
    /// coming before it settles.
    preview: String,
    /// Generation of the utterance whose text is still to come. Anything older
    /// arriving late has been superseded and is dropped.
    generation: u64,
}

/// Where a session stands.
pub struct SessionView {
    pub settings: config::dictation::Dictation,
    pub chunker: ChunkerView,
    /// The utterance that the preview lane takes to be filling.
    pub filling: int,
    pub preview: Seq<char>,
    pub generation: int,
}

impl View for Dictation {
    type V = SessionView;

    closed spec fn view(&self) -> SessionView {
        SessionView {
            settings: self.chunker.settings(),
            chunker: self.chunker@,
            filling: self.transcriber@,
            preview: self.preview@,
            generation: self.generation as int,
        }
    }
}

impl SessionView {
    /// What holds of a session between two events.
    pub open spec fn wf(self) -> bool {
        &&& self.chunker.wf(self.settings)
        &&& self.chunker.generation < u64::MAX
    }

    /// Nothing heard yet.
    pub open spec fn fresh(settings: config::dictation::Dictation) -> Self {
        SessionView {
            settings,
            chunker: ChunkerView::fresh(),
            filling: 0,
            preview: Seq::empty(),
            generation: 0,
        }
    }
}

impl Dictation {
    fn new(config: config::dictation::Dictation) -> (session: Self)
        ensures
            session@ == SessionView::fresh(config),
            session@.wf(),
    {
        Dictation {
            chunker: Chunker::new(config),
            transcriber: Transcriber::new(),
            preview: String::new(),
            generation: 0,
        }
    }

    /// What is currently being heard but has not settled.
    pub fn preview(&self) -> (text: &str)
        ensures
            text@ == self@.preview,
    {
        self.preview.as_str()
    }
}

/// What of the compositor dictation has to do with.
#[derive(Debug)]
pub struct State {
    pub dictation: Option<Dictation>,
    /// Where transcripts come in. It outlives the session, because the last
    /// utterance is still being transcribed when the session ends.
    pub dictation_transcripts: Option<u64>,
    pub dictation_indicator: DictationIndicator,
}

/// Where dictation stands.
pub struct StateView {
    pub session: Option<SessionView>,
    pub transcripts: Option<u64>,
    pub indicator: IndicatorView,
}

impl View for State {
    type V = StateView;

    open spec fn view(&self) -> StateView {
        StateView {
            session: match self.dictation {
                Some(dictation) => Some(dictation@),
                None => None,
            },
            transcripts: self.dictation_transcripts,
            indicator: self.dictation_indicator@,
        }
    }
}

/// How opening the microphone and the transcription lanes went.
#[derive(Debug)]
pub enum Setup {
    /// The event loop did not take the source of transcripts, and why.
    SourceRefused(String),
    /// The microphone could not be opened, and why.
    CaptureRefused(String),
    /// All is open, and this is the source of transcripts.
    Ready(u64),
}

/// The start of a fade, if there is one.
pub open spec fn animated(fade: Option<Fade>) -> Seq<EffectView> {
    match fade {
        Some(fade) => seq![EffectView::Animate(fade)],
        None => Seq::empty(),
    }
}

/// A redraw, if it is called for.
pub open spec fn redrawn(needed: bool) -> Seq<EffectView> {
    if needed {
        seq![EffectView::QueueRedraw]
    } else {
        Seq::empty()
    }
}

/// Sending chunks in order until a lane turns out to be gone: the utterance
/// filling after that, what was queued, and whether everything was.
pub open spec fn dispatched(chunks: Seq<ChunkView>, lanes: Lanes, filling: int) -> (
    int,
    Seq<EffectView>,
    bool,
)
    decreases chunks.len(),
{
    if chunks.len() == 0 {
        (filling, Seq::empty(), true)
    } else {
        let reached = filling_after(filling, chunks[0]);
        let done = queued(chunks[0], lanes, filling);
        if !lanes.takes(chunks[0]) {
            (reached, done, false)
        } else {
            let (after, rest, all) = dispatched(chunks.drop_first(), lanes, reached);
            (after, done + rest, all)
        }
    }
}

impl StateView {
    /// What holds of the state between two events.
    pub open spec fn wf(self) -> bool {
        match self.session {
            Some(session) => session.wf(),
            None => true,
        }
    }

    /// After the session is over, and what that asks for.
    ///
    /// Whatever was mid-sentence is sent, any preedit is cleared, since it
    /// belongs to text that will never be committed now, and the indicator goes.
    pub open spec fn stop(self, lanes: Lanes, focus: Focus) -> (Self, Seq<EffectView>) {
        match self.session {
            None => (self, Seq::empty()),
            Some(session) => {
                let last_words = session.chunker.flush(session.settings).1;
                let (indicator, fade) = self.indicator.with_preview(Seq::empty()).dismiss();
                (
                    StateView { session: None, indicator, ..self },
                    dispatched(last_words, lanes, session.filling).1 + injected(
                        InjectionView::Preedit(Seq::empty()),
                        focus,
                    ) + animated(fade) + seq![
                        EffectView::QueueRedraw,
                        EffectView::CloseSession,
                    ],
                )
            },
        }
    }

    /// With the source of an earlier session retired, and what that asks for. It
    /// is not retired when that session stops, because its last utterance is still
    /// being transcribed then.
    pub open spec fn retire(self) -> (Self, Seq<EffectView>) {
        (
            StateView { transcripts: None, ..self },
            match self.transcripts {
                Some(token) => seq![EffectView::RemoveSource(token)],
                None => Seq::empty(),
            },
        )
    }

    /// After dictation has been switched on or off, and what that asks for. To
    /// switch it on, the source of an earlier session is retired and a session
    /// is asked for.
    pub open spec fn toggle(self, lanes: Lanes, focus: Focus) -> (Self, Seq<EffectView>) {
        if self.session is Some {
            self.stop(lanes, focus)
        } else {
            let (retired, done) = self.retire();
            (retired, done.push(EffectView::OpenSession))
        }
    }

    /// After a session has been opened, and what that asks for. A source that is
    /// still there is an earlier session's.
    pub open spec fn start(self, settings: config::dictation::Dictation, token: u64) -> (
        Self,
        Seq<EffectView>,
    ) {
        let (indicator, fade) = self.indicator.show();
        (
            StateView {
                session: Some(SessionView::fresh(settings)),
                transcripts: Some(token),
                indicator,
            },
            self.retire().1 + animated(fade).push(EffectView::QueueRedraw),
        )
    }

    /// How many frames `extra` more bytes of audio make heard.
    pub open spec fn audible(self, extra: int) -> int {
        match self.session {
            Some(session) => session.chunker.audible(extra),
            None => 0,
        }
    }

    /// After captured audio, and what that asks for: the chunks it made the
    /// chunker send go to their lanes, and if one of those is gone, the session
    /// is over.
    pub open spec fn hear(
        self,
        audio: Seq<u8>,
        voiced: Seq<bool>,
        lanes: Lanes,
        focus: Focus,
    ) -> (Self, Seq<EffectView>) {
        match self.session {
            None => (self, Seq::empty()),
            Some(session) => {
                let (chunker, cuts) = session.chunker.push(session.settings, audio, voiced);
                let (filling, sent, all) = dispatched(cuts, lanes, session.filling);
                let heard = StateView {
                    session: Some(SessionView { chunker, filling, ..session }),
                    ..self
                };
                if all {
                    (heard, sent)
                } else {
                    let (stopped, rest) = heard.stop(lanes, focus);
                    (stopped, sent + rest)
                }
            },
        }
    }

    /// After the text of an utterance still being spoken, and what that asks
    /// for. It only means something while a session is on, and not once the
    /// utterance has settled: that would put stale words on top of real ones.
    pub open spec fn preview(self, text: Seq<char>, generation: int, focus: Focus) -> (
        Self,
        Seq<EffectView>,
    ) {
        match self.session {
            Some(session) if generation >= session.generation && cleaned(text)
                != session.preview => {
                let words = cleaned(text);
                let injection = InjectionView::Preedit(words);
                let beside = route(injection, focus) != Delivery::TextInput;
                (
                    StateView {
                        session: Some(SessionView { preview: words, ..session }),
                        indicator: if beside {
                            self.indicator.with_preview(words)
                        } else {
                            self.indicator
                        },
                        ..self
                    },
                    injected(injection, focus) + redrawn(
                        beside && self.indicator.preview != words,
                    ),
                )
            },
            _ => (self, Seq::empty()),
        }
    }

    /// Whether the text of a settled utterance comes too late.
    pub open spec fn superseded(self, generation: int) -> bool {
        match self.session {
            Some(session) => generation < session.generation,
            None => false,
        }
    }

    /// After the text of a settled utterance, and what that asks for. It counts
    /// even when the session has already ended: stopping flushes whatever was
    /// mid-sentence, and that is exactly the last thing the speaker said.
    pub open spec fn settle(self, text: Seq<char>, generation: int, focus: Focus) -> (
        Self,
        Seq<EffectView>,
    ) {
        if self.superseded(generation) {
            (self, Seq::empty())
        } else {
            let words = cleaned(text);
            (
                StateView {
                    session: match self.session {
                        Some(session) => Some(
                            SessionView {
                                preview: Seq::empty(),
                                generation: generation + 1,
                                ..session
                            },
                        ),
                        None => None,
                    },
                    indicator: self.indicator.with_preview(Seq::empty()),
                    ..self
                },
                redrawn(self.indicator.preview.len() > 0) + injected(
                    if words.len() == 0 {
                        InjectionView::Preedit(Seq::empty())
                    } else {
                        InjectionView::Commit(words + " "@)
                    },
                    focus,
                ),
            )
        }
    }

    /// After something came back from the transcription lanes, and what that
    /// asks for. A failure ends the session.
    pub open spec fn transcript(
        self,
        transcript: TranscriptView,
        lanes: Lanes,
        focus: Focus,
    ) -> (Self, Seq<EffectView>) {
        match transcript {
            TranscriptView::Failed(_) => self.stop(lanes, focus),
            TranscriptView::Preview { text, generation } => self.preview(text, generation, focus),
            TranscriptView::Final { text, generation } => self.settle(text, generation, focus),
        }
    }
}

impl State {
    /// What holds of the state between two events.
    pub open spec fn wf(&self) -> bool {
        self@.wf()
    }

    /// With no session and the indicator hidden.
    pub fn new() -> (state: Self)
        ensures
            state.wf(),
            state@ == (StateView {
                session: None,
                transcripts: None,
                indicator: IndicatorView::fresh(),
            }),
    {
        State {
            dictation: None,
            dictation_transcripts: None,
            dictation_indicator: DictationIndicator::new(),
        }
    }

    /// Start or stop dictation.
    pub fn toggle_dictation(&mut self, lanes: Lanes, focus: &Focus, effects: &mut Vec<Effect>)
        requires
            old(self).wf(),
            focus.wf(),
        ensures
            final(self).wf(),
            (final(self)@, asked(final(effects)@)) == ({
                let (after, done) = old(self)@.toggle(lanes, *focus);
                (after, asked(old(effects)@) + done)
            }),
    {
        if self.dictation.is_some() {
            self.stop_dictation(lanes, focus, effects);
        } else {
            self.retire_transcripts(effects);
            ask(effects, Effect::OpenSession);
            assert(asked(effects@) =~= asked(old(effects)@) + old(self)@.toggle(lanes, *focus).1);
        }
    }

    /// Retire the previous session's source. It is not removed at stop time
    /// because the last utterance is still being transcribed then.
    fn retire_transcripts(&mut self, effects: &mut Vec<Effect>)
        requires
            old(self).wf(),
        ensures
            final(self).wf(),
            (final(self)@, asked(final(effects)@)) == ({
                let (after, done) = old(self)@.retire();
                (after, asked(old(effects)@) + done)
            }),
    {
        if let Some(token) = self.dictation_transcripts.take() {
            ask(effects, Effect::RemoveSource(token));
        }
        assert(asked(effects@) =~= asked(old(effects)@) + old(self)@.retire().1);
    }

    /// Go on with the start that [`State::toggle_dictation`] asked for. However
    /// that went, a source of an earlier session is retired.
    pub fn start_dictation(
        &mut self,
        config: config::dictation::Dictation,
        setup: Setup,
        effects: &mut Vec<Effect>,
    ) -> (result: Result<(), String>)
        requires
            old(self).wf(),
        ensures
            final(self).wf(),
            (final(self)@, asked(final(effects)@)) == (match setup {
                Setup::Ready(token) => {
                    let (after, done) = old(self)@.start(config, token);
                    (after, asked(old(effects)@) + done)
                },
                _ => {
                    let (after, done) = old(self)@.retire();
                    (after, asked(old(effects)@) + done)
                },
            }),
            match setup {
                Setup::SourceRefused(err) => result matches Err(e) && e@
                    == "error inserting transcript source: "@ + err@,
                Setup::CaptureRefused(err) => result matches Err(e) && e@ == err@,
                Setup::Ready(_) => result is Ok,
            },
    {
        self.retire_transcripts(effects);
        match setup {
            Setup::SourceRefused(err) => Err(
                "error inserting transcript source: ".to_owned().concat(err.as_str()),
            ),
            Setup::CaptureRefused(err) => Err(err),
            Setup::Ready(token) => {
                self.dictation = Some(Dictation::new(config));
                self.dictation_transcripts = Some(token);
                if let Some(fade) = self.dictation_indicator.show() {
                    ask(effects, Effect::Animate(fade));
                }
                // The indicator appearing needs a frame.
                ask(effects, Effect::QueueRedraw);
                assert(asked(effects@) =~= asked(old(effects)@) + old(self)@.start(config, token).1);
                Ok(())
            },
        }
    }

    pub fn stop_dictation(&mut self, lanes: Lanes, focus: &Focus, effects: &mut Vec<Effect>)
        requires
            old(self).wf(),
            focus.wf(),
        ensures
            final(self).wf(),
            (final(self)@, asked(final(effects)@)) == ({
                let (after, done) = old(self)@.stop(lanes, *focus);
                (after, asked(old(effects)@) + done)
            }),
    {
        let mut dictation = match self.dictation.take() {
            Some(dictation) => dictation,
            None => {
                assert(asked(effects@) =~= asked(old(effects)@) + old(self)@.stop(lanes, *focus).1);
                return;
            },
        };
        let ghost session = dictation@;

        // Send whatever was mid-sentence, or the last few words are lost simply
        // because the speaker stopped before the chunker cut.
        let mut cuts: Vec<Chunk> = Vec::new();
        dictation.chunker.flush(&mut cuts);
        assert(views(cuts@) =~= session.chunker.flush(session.settings).1);
        dispatch(&mut dictation.transcriber, cuts, lanes, effects);

        // Any preedit belongs to text that will never be committed now.
        self.clear_preedit(focus, effects);
        self.dictation_indicator.set_preview("");
        if let Some(fade) = self.dictation_indicator.dismiss() {
            ask(effects, Effect::Animate(fade));
        }
        ask(effects, Effect::QueueRedraw);
        ask(effects, Effect::CloseSession);
        proof {
            reveal_strlit("");
            assert(""@ =~= Seq::<char>::empty());
        }
        assert(asked(effects@) =~= asked(old(effects)@) + old(self)@.stop(lanes, *focus).1);
    }

    /// Whether the counters of the session, if there is one, can take `extra`
    /// more bytes of audio.
    pub fn has_room(&self, extra: usize) -> (room: bool)
        ensures
            room == (match self@.session {
                Some(session) => session.chunker.has_room(extra as int),
                None => true,
            }),
    {
        match &self.dictation {
            Some(dictation) => dictation.chunker.has_room(extra),
            None => true,
        }
    }

    /// The frames to judge before captured audio is handed to
    /// [`State::on_dictation_audio`].
    pub fn audible_frames(&self, audio: &[u8]) -> (frames: Vec<Vec<u8>>)
        requires
            self.wf(),
        ensures
            frames@.len() == self@.audible(audio@.len() as int),
            self@.session matches Some(session) ==> forall|i: int|
                0 <= i < frames@.len() ==> (#[trigger] frames@[i])@ == frame(
                    session.chunker.carry + audio@,
                    session.chunker.swallowed(audio@.len() as int) + i,
                ),
    {
        match &self.dictation {
            Some(dictation) => dictation.chunker.audible_frames(audio),
            None => Vec::new(),
        }
    }

    /// Feed captured audio to the chunker and dispatch whatever it cuts.
    /// `voiced` says of each frame of [`State::audible_frames`] whether it is
    /// speech.
    pub fn on_dictation_audio(
        &mut self,
        audio: &[u8],
        voiced: &[bool],
        lanes: Lanes,
        focus: &Focus,
        effects: &mut Vec<Effect>,
    )
        requires
            old(self).wf(),
            focus.wf(),
            old(self)@.session matches Some(session) ==> session.chunker.has_room(
                audio@.len() as int,
            ),
            voiced@.len() == old(self)@.audible(audio@.len() as int),
        ensures
            final(self).wf(),
            (final(self)@, asked(final(effects)@)) == ({
                let (after, done) = old(self)@.hear(audio@, voiced@, lanes, *focus);
                (after, asked(old(effects)@) + done)
            }),
    {
        let mut dictation = match self.dictation.take() {
            Some(dictation) => dictation,
            None => {
                assert(asked(effects@) =~= asked(old(effects)@) + Seq::<EffectView>::empty());
                return;
            },
        };
        let ghost session = dictation@;
        let mut cuts: Vec<Chunk> = Vec::new();
        dictation.chunker.push(audio, voiced, &mut cuts);
        let ghost after = session.chunker.push(session.settings, audio@, voiced@);
        assert(views(cuts@) =~= after.1);
        proof {
            law_generations_are_monotonic(session.chunker, session.settings, audio@, voiced@);
            law_one_cut_per_frame(session.chunker, session.settings, audio@, voiced@);
            assert forall|i: int| 0 <= i < cuts@.len() && (#[trigger] cuts@[i]).final_ implies
                cuts@[i].generation < u64::MAX by {
                assert(views(cuts@)[i] == cuts@[i]@);
            }
        }
        let all = dispatch(&mut dictation.transcriber, cuts, lanes, effects);
        self.dictation = Some(dictation);
        if !all {
            self.stop_dictation(lanes, focus, effects);
        }
        assert(asked(effects@) =~= asked(old(effects)@) + old(self)@.hear(
            audio@,
            voiced@,
            lanes,
            *focus,
        ).1);
    }

    /// Text has come back from the server.
    pub fn on_transcript(
        &mut self,
        transcript: Transcript,
        lanes: Lanes,
        focus: &Focus,
        effects: &mut Vec<Effect>,
    )
        requires
            old(self).wf(),
            focus.wf(),
            transcript matches Transcript::Final { generation, .. } ==> old(self)@.session is None
                || generation < u64::MAX,
        ensures
            final(self).wf(),
            (final(self)@, asked(final(effects)@)) == ({
                let (after, done) = old(self)@.transcript(transcript@, lanes, *focus);
                (after, asked(old(effects)@) + done)
            }),
    {
        match transcript {
            Transcript::Failed(_) => {
                self.stop_dictation(lanes, focus, effects);
            },
            Transcript::Preview { text, generation } => {
                self.on_preview(text.as_str(), generation, focus, effects);
            },
            Transcript::Final { text, generation } => {
                self.on_final(text.as_str(), generation, focus, effects);
            },
        }
    }

    fn on_preview(&mut self, text: &str, generation: u64, focus: &Focus, effects: &mut Vec<Effect>)
        requires
            old(self).wf(),
            focus.wf(),
        ensures
            final(self).wf(),
            (final(self)@, asked(final(effects)@)) == ({
                let (after, done) = old(self)@.preview(text@, generation as int, *focus);
                (after, asked(old(effects)@) + done)
            }),
    {
        assert(asked(old(effects)@) + Seq::<EffectView>::empty() =~= asked(old(effects)@));
        // Provisional text is only meaningful while still listening.
        let mut dictation = match self.dictation.take() {
            Some(dictation) => dictation,
            None => {
                return;
            },
        };
        // A preview whose utterance has already been committed would put stale
        // words on top of real ones.
        if generation < dictation.generation {
            self.dictation = Some(dictation);
            return;
        }
        let words: String = clean(text);
        if words == dictation.preview {
            self.dictation = Some(dictation);
            return;
        }
        dictation.preview = words.clone();
        self.dictation = Some(dictation);

        // Applications that speak text-input show this themselves as preedit.
        // The rest cannot, so the indicator carries it - otherwise nothing
        // appears until the utterance settles, which is up to max_chunk_ms away.
        let delivery = self.inject_text(Injection::Preedit(words.clone()), focus, effects);
        if delivery != Delivery::TextInput {
            if self.dictation_indicator.set_preview(words.as_str()) {
                ask(effects, Effect::QueueRedraw);
            }
        }
        assert(asked(effects@) =~= asked(old(effects)@) + old(self)@.preview(
            text@,
            generation as int,
            *focus,
        ).1);
    }

    fn on_final(&mut self, text: &str, generation: u64, focus: &Focus, effects: &mut Vec<Effect>)
        requires
            old(self).wf(),
            focus.wf(),
            old(self)@.session is None || generation < u64::MAX,
        ensures
            final(self).wf(),
            (final(self)@, asked(final(effects)@)) == ({
                let (after, done) = old(self)@.settle(text@, generation as int, *focus);
                (after, asked(old(effects)@) + done)
            }),
    {
        assert(asked(old(effects)@) + Seq::<EffectView>::empty() =~= asked(old(effects)@));
        proof {
            reveal_strlit("");
            assert(""@ =~= Seq::<char>::empty());
            let shown = self@.indicator.preview;
            assert(shown.len() == 0 ==> shown =~= Seq::<char>::empty());
        }
        // Committed even when the session has already ended: stopping flushes
        // whatever was mid-sentence, and that is exactly the last thing the
        // speaker said. Dropping it loses words.
        if let Some(mut dictation) = self.dictation.take() {
            if generation < dictation.generation {
                self.dictation = Some(dictation);
                return;
            }
            dictation.generation = generation + 1;
            dictation.preview = String::new();
            self.dictation = Some(dictation);
        }
        // The words are about to be real; stop showing a guess at them.

        if self.dictation_indicator.set_preview("") {
            ask(effects, Effect::QueueRedraw);
        }
        let words: String = clean(text);
        if words.as_str().is_empty() {
            // Nothing was said, but a preedit may be showing a guess at it, and
            // that guess is now known to be wrong.
            self.clear_preedit(focus, effects);
        } else {
            // A space between utterances, since each arrives trimmed.
            self.inject_text(Injection::Commit(words.concat(" ")), focus, effects);
        }
        assert(asked(effects@) =~= asked(old(effects)@) + old(self)@.settle(
            text@,
            generation as int,
            *focus,
        ).1);
    }

    /// Drop any provisional text showing in the focused application.
    pub fn clear_preedit(&self, focus: &Focus, effects: &mut Vec<Effect>)
        requires
            focus.wf(),
        ensures
            asked(final(effects)@) == asked(old(effects)@) + injected(
                InjectionView::Preedit(Seq::empty()),
                *focus,
            ),
    {
        self.inject_text(Injection::Preedit(String::new()), focus, effects);
    }
}

/// Send chunks in order until a lane turns out to be gone. Returns whether
/// everything was sent.
fn dispatch(
    transcriber: &mut Transcriber,
    chunks: Vec<Chunk>,
    lanes: Lanes,
    effects: &mut Vec<Effect>,
) -> (all: bool)
    requires
        forall|i: int|
            0 <= i < chunks@.len() && (#[trigger] chunks@[i]).final_ ==> chunks@[i].generation
                < u64::MAX,
    ensures
        (final(transcriber)@, asked(final(effects)@), all) == ({
            let (filling, done, all) = dispatched(views(chunks@), lanes, old(transcriber)@);
            (filling, asked(old(effects)@) + done, all)
        }),
{
    let mut rest: Vec<Chunk> = chunks;
    let ghost cuts = views(chunks@);
    assert(asked(old(effects)@) + dispatched(cuts, lanes, old(transcriber)@).1 =~= asked(effects@)
        + dispatched(cuts, lanes, old(transcriber)@).1);
    while rest.len() > 0
        invariant
            cuts == views(chunks@),
            forall|i: int|
                0 <= i < rest@.len() && (#[trigger] rest@[i]).final_ ==> rest@[i].generation
                    < u64::MAX,
            ({
                let (filling, done, all) = dispatched(cuts, lanes, old(transcriber)@);
                let (filling2, done2, all2) = dispatched(views(rest@), lanes, transcriber@);
                &&& filling == filling2
                &&& all == all2
                &&& asked(old(effects)@) + done == asked(effects@) + done2
            }),
        decreases rest@.len(),
    {
        let ghost before = rest@;
        let ghost filling = transcriber@;
        let ghost asked_before = asked(effects@);
        let chunk: Chunk = rest.remove(0);
        assert(views(rest@) =~= views(before).drop_first());
        assert(views(before)[0] == chunk@);
        let ghost step = dispatched(views(before), lanes, filling);
        if !transcriber.send(chunk, lanes, effects) {
            assert(asked_before + step.1 =~= asked(effects@));
            return false;
        }
        assert(asked_before + step.1 =~= asked(effects@) + dispatched(
            views(rest@),
            lanes,
            transcriber@,
        ).1);
    }
    assert(asked(effects@) + Seq::<EffectView>::empty() =~= asked(effects@));
    true
}

} // verus!
