use niri_dictation::config::dictation::Dictation as Settings;
use niri_dictation::dictation::chunker::{ms_to_bytes, Chunk, WARMUP_MS};
use niri_dictation::dictation::effect::Effect;
use niri_dictation::dictation::injector::{Delivery, Focus, Injection};
use niri_dictation::dictation::keymap::{Key, Keymap};
use niri_dictation::dictation::whisper::{Lanes, Transcript};
use niri_dictation::dictation::{Setup, State};
use niri_dictation::ui::dictation_indicator::{Fade, FadeFrom, Visibility};

const OPEN: Lanes = Lanes {
    finals: true,
    previews: true,
};

const GONE: Lanes = Lanes {
    finals: false,
    previews: false,
};

fn text_input() -> Focus {
    Focus {
        text_input: true,
        keyboard: Some(keyboard()),
    }
}

fn typed_into() -> Focus {
    Focus {
        text_input: false,
        keyboard: Some(keyboard()),
    }
}

fn nothing() -> Focus {
    Focus {
        text_input: false,
        keyboard: None,
    }
}

/// A keyboard with an `a` and a space.
fn keyboard() -> Keymap {
    let key = |ch: char| Key {
        syms: vec![ch as u32],
        produces: vec![ch as u32],
    };
    Keymap {
        min_keycode: 8,
        keys: vec![key('a'), key(' ')],
        shift_mask: 0,
        level3_mask: 0,
    }
}

fn settings() -> Settings {
    Settings {
        chunk_ms: 1000,
        max_chunk_ms: 2000,
        silence_ms: 200,
        min_speech_ms: 100,
        partial_ms: 400,
        ..Settings::default()
    }
}

/// A state with a session on.
fn started() -> State {
    let mut state = State::new();
    let mut effects = Vec::new();
    state.toggle_dictation(OPEN, &nothing(), &mut effects);
    state
        .start_dictation(settings(), Setup::Ready(5), &mut effects)
        .unwrap();
    state
}

fn hear(state: &mut State, audio: &[u8], voiced: bool, lanes: Lanes) -> Vec<Effect> {
    let mut effects = Vec::new();
    assert!(state.has_room(audio.len()));
    let verdicts = vec![voiced; state.audible_frames(audio).len()];
    state.on_dictation_audio(audio, &verdicts, lanes, &text_input(), &mut effects);
    effects
}

fn receive(state: &mut State, transcript: Transcript, focus: &Focus) -> Vec<Effect> {
    let mut effects = Vec::new();
    state.on_transcript(transcript, OPEN, focus, &mut effects);
    effects
}

fn preview(text: &str, generation: u64) -> Transcript {
    Transcript::Preview {
        text: text.to_owned(),
        generation,
    }
}

fn settled(text: &str, generation: u64) -> Transcript {
    Transcript::Final {
        text: text.to_owned(),
        generation,
    }
}

fn preedit(text: &str) -> Effect {
    Effect::PreeditString {
        text: Some(text.to_owned()),
        cursor_begin: text.len() as i32,
        cursor_end: text.len() as i32,
    }
}

fn no_preedit() -> Effect {
    Effect::PreeditString {
        text: None,
        cursor_begin: 0,
        cursor_end: 0,
    }
}

fn commit(text: &str) -> Effect {
    Effect::CommitString(text.to_owned())
}

fn tap(keycode: u32) -> [Effect; 2] {
    [
        Effect::Key {
            keycode,
            pressed: true,
        },
        Effect::Key {
            keycode,
            pressed: false,
        },
    ]
}

#[test]
fn starts_with_a_session_and_a_clip() {
    let mut state = State::new();
    let mut effects = Vec::new();
    state.toggle_dictation(OPEN, &nothing(), &mut effects);
    assert_eq!(effects, [Effect::OpenSession]);
    assert!(state.dictation.is_none());

    effects.clear();
    let result = state.start_dictation(settings(), Setup::Ready(5), &mut effects);
    assert_eq!(result, Ok(()));
    assert_eq!(
        effects,
        [
            Effect::Animate(Fade {
                from: FadeFrom::Hidden,
                fade_in: true
            }),
            Effect::QueueRedraw
        ]
    );
    assert_eq!(state.dictation.as_ref().unwrap().preview(), "");
    assert_eq!(state.dictation_transcripts, Some(5));
    assert_eq!(state.dictation_indicator.visibility(), Visibility::Showing);
}

#[test]
fn a_start_that_fails_changes_nothing() {
    let mut state = State::new();
    let mut effects = Vec::new();
    let refused = Setup::SourceRefused("full".to_owned());
    assert_eq!(
        state.start_dictation(settings(), refused, &mut effects),
        Err("error inserting transcript source: full".to_owned())
    );
    let refused = Setup::CaptureRefused("no microphone".to_owned());
    assert_eq!(
        state.start_dictation(settings(), refused, &mut effects),
        Err("no microphone".to_owned())
    );
    assert!(effects.is_empty());
    assert!(state.dictation.is_none());
    assert_eq!(state.dictation_transcripts, None);
    assert_eq!(state.dictation_indicator.visibility(), Visibility::Hidden);
}

#[test]
fn a_start_retires_the_source_before_it() {
    let mut state = started();
    let mut effects = Vec::new();
    state.stop_dictation(OPEN, &nothing(), &mut effects);
    assert_eq!(state.dictation_transcripts, Some(5));

    effects.clear();
    state
        .start_dictation(settings(), Setup::Ready(6), &mut effects)
        .unwrap();
    assert_eq!(effects[0], Effect::RemoveSource(5));
    assert_eq!(effects.last(), Some(&Effect::QueueRedraw));
    assert_eq!(state.dictation_transcripts, Some(6));

    state.stop_dictation(OPEN, &nothing(), &mut effects);
    effects.clear();
    let refused = Setup::CaptureRefused("no microphone".to_owned());
    assert!(state
        .start_dictation(settings(), refused, &mut effects)
        .is_err());
    assert_eq!(effects, [Effect::RemoveSource(6)]);
    assert_eq!(state.dictation_transcripts, None);
}

#[test]
fn toggling_stops_and_asks_for_another() {
    let mut state = started();
    let mut effects = Vec::new();
    state.toggle_dictation(OPEN, &nothing(), &mut effects);
    assert_eq!(
        effects,
        [
            Effect::Animate(Fade {
                from: FadeFrom::Current,
                fade_in: false
            }),
            Effect::QueueRedraw,
            Effect::CloseSession
        ]
    );
    assert!(state.dictation.is_none());
    // The source stays: the last utterance is still being transcribed.
    assert_eq!(state.dictation_transcripts, Some(5));

    effects.clear();
    state.toggle_dictation(OPEN, &nothing(), &mut effects);
    assert_eq!(effects, [Effect::RemoveSource(5), Effect::OpenSession]);
    assert_eq!(state.dictation_transcripts, None);
}

#[test]
fn stopping_sends_the_last_words() {
    let mut state = started();
    hear(&mut state, &vec![0; ms_to_bytes(WARMUP_MS)], false, OPEN);
    let words = vec![7; ms_to_bytes(120)];
    assert!(hear(&mut state, &words, true, OPEN).is_empty());

    let mut effects = Vec::new();
    state.stop_dictation(OPEN, &text_input(), &mut effects);
    assert_eq!(
        effects[..2],
        [
            Effect::Filling(1),
            Effect::Transcribe(Chunk {
                pcm: words,
                generation: 0,
                final_: true
            })
        ]
    );
    assert_eq!(effects[2..4], [preedit(""), Effect::Done]);
    assert_eq!(effects.last(), Some(&Effect::CloseSession));

    effects.clear();
    state.stop_dictation(OPEN, &text_input(), &mut effects);
    assert!(effects.is_empty());
}

#[test]
fn audio_becomes_chunks_in_order() {
    let mut state = started();
    assert_eq!(state.audible_frames(&vec![0; ms_to_bytes(WARMUP_MS)]).len(), 0);
    hear(&mut state, &vec![0; ms_to_bytes(WARMUP_MS)], false, OPEN);
    let effects = hear(&mut state, &vec![7; ms_to_bytes(2000)], true, OPEN);
    let sent: Vec<(usize, u64, bool)> = effects
        .chunks(2)
        .map(|pair| match pair {
            [Effect::Filling(filling), Effect::Transcribe(chunk)] => {
                assert_eq!(*filling, if chunk.final_ { 1 } else { 0 });
                (chunk.pcm.len(), chunk.generation, chunk.final_)
            }
            other => panic!("unexpected {other:?}"),
        })
        .collect();
    assert_eq!(
        sent,
        [
            (ms_to_bytes(400), 0, false),
            (ms_to_bytes(800), 0, false),
            (ms_to_bytes(1200), 0, false),
            (ms_to_bytes(1600), 0, false),
            (ms_to_bytes(2000), 0, true),
        ]
    );
}

#[test]
fn a_lane_that_is_gone_ends_the_session() {
    let mut state = started();
    hear(&mut state, &vec![0; ms_to_bytes(WARMUP_MS)], false, OPEN);
    // Nothing to send yet, so nobody notices.
    assert!(hear(&mut state, &vec![7; ms_to_bytes(100)], true, GONE).is_empty());
    assert!(state.dictation.is_some());
    let effects = hear(&mut state, &vec![7; ms_to_bytes(400)], true, GONE);
    assert!(state.dictation.is_none());
    // The preview that found its lane gone, and then the last words.
    assert_eq!(
        effects[..3],
        [Effect::Filling(0), Effect::Filling(1), preedit("")]
    );
    assert_eq!(effects.last(), Some(&Effect::CloseSession));
}

#[test]
fn audio_without_a_session_is_ignored() {
    let mut state = State::new();
    assert!(state.has_room(1000));
    assert!(state.audible_frames(&[0; 6400]).is_empty());
    assert!(hear(&mut state, &[0; 6400], true, OPEN).is_empty());
}

#[test]
fn previews_go_to_the_text_input() {
    let mut state = started();
    let effects = receive(&mut state, preview(" h\u{e9}llo ", 0), &text_input());
    assert_eq!(effects, [preedit("h\u{e9}llo"), Effect::Done]);
    assert_eq!(state.dictation.as_ref().unwrap().preview(), "h\u{e9}llo");
    assert_eq!(state.dictation_indicator.preview(), "");

    // The same guess twice is one guess.
    assert!(receive(&mut state, preview("h\u{e9}llo", 0), &text_input()).is_empty());
}

#[test]
fn previews_go_beside_the_clip_otherwise() {
    let mut state = started();
    let effects = receive(&mut state, preview("a guess", 0), &typed_into());
    assert_eq!(effects, [Effect::QueueRedraw]);
    assert_eq!(state.dictation_indicator.preview(), "a guess");

    let effects = receive(&mut state, preview("a better guess", 0), &nothing());
    assert_eq!(effects, [Effect::QueueRedraw]);
    assert_eq!(state.dictation_indicator.preview(), "a better guess");
}

#[test]
fn previews_without_a_session_mean_nothing() {
    let mut state = State::new();
    assert!(receive(&mut state, preview("late", 9), &text_input()).is_empty());
    assert_eq!(state.dictation_indicator.preview(), "");
}

#[test]
fn settled_text_is_committed_with_a_space() {
    let mut state = started();
    receive(&mut state, preview("helo", 0), &typed_into());
    let effects = receive(&mut state, settled(" Hello.\n", 0), &text_input());
    assert_eq!(
        effects,
        [
            Effect::QueueRedraw,
            no_preedit(),
            commit("Hello. "),
            Effect::Done
        ]
    );
    assert_eq!(state.dictation.as_ref().unwrap().preview(), "");
    assert_eq!(state.dictation_indicator.preview(), "");
}

#[test]
fn settled_text_is_typed_where_there_is_no_text_input() {
    let mut state = started();
    let effects = receive(&mut state, settled("aab", 0), &typed_into());
    let mut expected = Vec::new();
    expected.extend(tap(8));
    expected.extend(tap(8));
    expected.extend(tap(9));
    expected.push(Effect::Untypable("b".to_owned()));
    assert_eq!(effects, expected);

    let effects = receive(&mut state, settled("aab", 1), &nothing());
    assert_eq!(effects, [Effect::NoKeyboard]);
    assert!(receive(&mut state, settled("...", 2), &nothing()).is_empty());
}

#[test]
fn settled_silence_clears_the_guess() {
    let mut state = started();
    receive(&mut state, preview("you know", 0), &text_input());
    let effects = receive(&mut state, settled(" Thank you.", 0), &text_input());
    assert_eq!(effects, [preedit(""), Effect::Done]);
}

#[test]
fn settled_text_stands() {
    let mut state = started();
    receive(&mut state, settled("third", 2), &text_input());
    assert!(receive(&mut state, preview("third?", 2), &text_input()).is_empty());
    assert!(receive(&mut state, settled("again", 2), &text_input()).is_empty());
    assert!(receive(&mut state, settled("first", 0), &text_input()).is_empty());
    assert!(!receive(&mut state, preview("fourth", 3), &text_input()).is_empty());
}

#[test]
fn settled_text_counts_after_the_session() {
    let mut state = started();
    receive(&mut state, settled("third", 2), &text_input());
    let mut effects = Vec::new();
    state.stop_dictation(OPEN, &nothing(), &mut effects);
    let effects = receive(&mut state, settled("goodbye", 0), &text_input());
    assert_eq!(effects, [no_preedit(), commit("goodbye "), Effect::Done]);
}

#[test]
fn a_failure_ends_the_session() {
    let mut state = started();
    let failed = Transcript::Failed("whisper server: down".to_owned());
    let effects = receive(&mut state, failed, &nothing());
    assert!(state.dictation.is_none());
    assert_eq!(effects.last(), Some(&Effect::CloseSession));

    let failed = Transcript::Failed("whisper server: down".to_owned());
    assert!(receive(&mut state, failed, &nothing()).is_empty());
}

#[test]
fn text_takes_the_route_that_is_open() {
    let state = State::new();
    let mut effects = Vec::new();
    let words = || "a".to_owned();

    let delivery = state.inject_text(Injection::Preedit(words()), &text_input(), &mut effects);
    assert_eq!(delivery, Delivery::TextInput);
    let delivery = state.inject_text(Injection::Commit(words()), &text_input(), &mut effects);
    assert_eq!(delivery, Delivery::TextInput);
    assert_eq!(
        effects,
        [
            preedit("a"),
            Effect::Done,
            no_preedit(),
            commit("a"),
            Effect::Done
        ]
    );

    effects.clear();
    let delivery = state.inject_text(Injection::Preedit(words()), &typed_into(), &mut effects);
    assert_eq!(delivery, Delivery::Withheld);
    assert!(effects.is_empty());
    let delivery = state.inject_text(Injection::Commit(words()), &typed_into(), &mut effects);
    assert_eq!(delivery, Delivery::Keyboard);
    assert_eq!(effects, tap(8));

    effects.clear();
    let delivery = state.inject_text(Injection::Commit(words()), &nothing(), &mut effects);
    assert_eq!(delivery, Delivery::Keyboard);
    assert_eq!(effects, [Effect::NoKeyboard]);
}

#[test]
fn typing_does_not_look_at_the_text_input() {
    let state = State::new();
    let mut effects = Vec::new();
    state.type_text("a", &text_input(), &mut effects);
    assert_eq!(effects, tap(8));
    effects.clear();
    state.type_text("", &text_input(), &mut effects);
    state.type_text("", &nothing(), &mut effects);
    assert!(effects.is_empty());
    state.type_text("a", &nothing(), &mut effects);
    assert_eq!(effects, [Effect::NoKeyboard]);
}

#[test]
fn settled_text_stands_whatever_comes_between() {
    let mut state = started();
    receive(&mut state, settled("third", 2), &text_input());
    receive(&mut state, preview("fourth", 3), &typed_into());
    hear(&mut state, &vec![0; ms_to_bytes(WARMUP_MS + 100)], true, OPEN);
    receive(&mut state, settled("fifth", 4), &text_input());
    receive(&mut state, preview("sixth", 5), &text_input());
    for generation in 0..=4 {
        assert!(receive(&mut state, preview("late", generation), &text_input()).is_empty());
        assert!(receive(&mut state, settled("late", generation), &text_input()).is_empty());
    }
    assert_eq!(state.dictation.as_ref().unwrap().preview(), "sixth");
}
