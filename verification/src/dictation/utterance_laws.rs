//! What holds of an utterance, by the frames it is made of and the verdicts on them.
use vstd::prelude::*;

use crate::config::dictation::Dictation;
use crate::dictation::chunker::{
    energy_of, frame, law_bytes_per_ms, sample, sum_of_squares, ChunkView, ChunkerView,
};
use crate::dictation::chunker_laws::{
    law_buffer_sizes_do_not_matter, law_generations_are_monotonic, law_push_keeps_wf,
};

verus! {

/// How many frames were judged to be speech.
pub open spec fn count_voiced(verdicts: Seq<bool>) -> int
    decreases verdicts.len(),
{
    if verdicts.len() == 0 {
        0
    } else if verdicts.last() {
        count_voiced(verdicts.drop_last()) + 1
    } else {
        count_voiced(verdicts.drop_last())
    }
}

/// How many frames at the end were judged to be quiet.
pub open spec fn trailing_quiet(verdicts: Seq<bool>) -> int
    decreases verdicts.len(),
{
    if verdicts.len() == 0 || verdicts.last() {
        0
    } else {
        trailing_quiet(verdicts.drop_last()) + 1
    }
}

/// Whether a chunker is in the middle of an utterance that is made of `audio` so
/// far, with a verdict on each frame of it.
pub open spec fn amid(state: ChunkerView, audio: Seq<u8>, verdicts: Seq<bool>) -> bool {
    &&& state.warmup_left == 0
    &&& state.carry.len() == 0
    &&& state.buf == audio
    &&& audio.len() == 640 * verdicts.len()
    &&& state.voiced_ms == 20 * count_voiced(verdicts)
    &&& state.silent_ms == 20 * trailing_quiet(verdicts)
}

/// What a chunker makes of one more frame goes by the audio of the utterance and the
/// verdicts on it. The utterance is over after `chunk_ms` of audio and `silence_ms`
/// of quiet at the end, or at `max_chunk_ms` and `chunk_ms` of audio in any case. All
/// of it is sent then if `min_speech_ms` of it was judged speech, and nothing if
/// less was. Until then all of it so far is previewed if that much of it was, and
/// `partial_ms` is new.
pub proof fn law_an_utterance_goes_by_its_verdicts(
    state: ChunkerView,
    config: Dictation,
    audio: Seq<u8>,
    verdicts: Seq<bool>,
    sound: Seq<u8>,
    voiced: bool,
)
    requires
        amid(state, audio, verdicts),
        sound.len() == 640,
    ensures
        ({
            let (after, sent) = state.push(config, sound, seq![voiced]);
            let all = audio + sound;
            let judged = verdicts.push(voiced);
            let speech = 20 * count_voiced(judged) >= config.min_speech_ms;
            let at_pause = all.len() >= 32 * config.chunk_ms && 20 * trailing_quiet(judged)
                >= config.silence_ms;
            let at_longest = all.len() >= 32 * config.max_chunk_ms && all.len() >= 32
                * config.chunk_ms;
            let due = config.partial_ms > 0 && all.len() - state.previewed >= 32
                * config.partial_ms;
            if at_pause || at_longest {
                &&& amid(after, Seq::empty(), Seq::empty())
                &&& after.previewed == 0
                &&& after.generation == state.generation + 1
                &&& sent == (if speech {
                    seq![ChunkView { pcm: all, generation: state.generation, final_: true }]
                } else {
                    Seq::empty()
                })
            } else {
                &&& amid(after, all, judged)
                &&& after.previewed == (if speech && due {
                    all.len() as int
                } else {
                    state.previewed
                })
                &&& after.generation == state.generation
                &&& sent == (if speech && due {
                    seq![ChunkView { pcm: all, generation: state.generation, final_: false }]
                } else {
                    Seq::empty()
                })
            }
        }),
{
    let judged = verdicts.push(voiced);
    assert(judged.drop_last() =~= verdicts);
    law_bytes_per_ms(config.chunk_ms as int);
    law_bytes_per_ms(config.max_chunk_ms as int);
    law_bytes_per_ms(config.partial_ms as int);
    let whole = state.carry + sound;
    assert(whole =~= sound);
    assert(state.whole_frames(640) == 1);
    assert(state.swallowed(640) == 0);
    let ready = ChunkerView {
        warmup_left: state.warmup_left - 0,
        carry: whole.skip(640),
        ..state
    };
    assert(ready.carry =~= Seq::<u8>::empty());
    assert(state.carry =~= Seq::<u8>::empty());
    assert(ready =~= state);
    assert(whole.skip(0) =~= sound);
    assert(frame(sound, 0) =~= sound);
    reveal_with_fuel(ChunkerView::hear_all, 2);
    assert(seq![voiced].drop_last() =~= Seq::<bool>::empty());
    let (after, sent) = state.push(config, sound, seq![voiced]);
    let heard = state.hear(config, sound, voiced);
    assert(after == heard.0);
    assert(sent =~= heard.1);
}

/// An utterance that is still going on holds all that was heard of it.
proof fn lemma_still_amid(
    state: ChunkerView,
    config: Dictation,
    audio: Seq<u8>,
    verdicts: Seq<bool>,
    pcm: Seq<u8>,
    voiced: Seq<bool>,
)
    requires
        state.wf(config),
        amid(state, audio, verdicts),
        pcm.len() == 640 * voiced.len(),
        state.push(config, pcm, voiced).0.generation == state.generation,
    ensures
        amid(state.push(config, pcm, voiced).0, audio + pcm, verdicts + voiced),
    decreases voiced.len(),
{
    if voiced.len() == 0 {
        reveal_with_fuel(ChunkerView::hear_all, 1);
        assert(audio + pcm =~= audio);
        assert(verdicts + voiced =~= verdicts);
        assert(state.carry + pcm =~= Seq::<u8>::empty());
        assert(state.push(config, pcm, voiced).0 =~= state);
    } else {
        let n = voiced.len() - 1;
        let front = pcm.take(640 * n);
        let last = pcm.skip(640 * n);
        let earlier = voiced.drop_last();
        lemma_last_frame(state, config, audio, verdicts, pcm, voiced);
        let midway = state.push(config, front, earlier).0;
        law_generations_are_monotonic(state, config, front, earlier);
        law_push_keeps_wf(state, config, front, earlier);
        law_generations_are_monotonic(midway, config, last, seq![voiced.last()]);
        lemma_still_amid(state, config, audio, verdicts, front, earlier);
        law_an_utterance_goes_by_its_verdicts(
            midway,
            config,
            audio + front,
            verdicts + earlier,
            last,
            voiced.last(),
        );
        assert((audio + front) + last =~= audio + pcm);
        assert((verdicts + earlier).push(voiced.last()) =~= verdicts + voiced);
    }
}

/// Pushing the last frame after the others is pushing all of them.
proof fn lemma_last_frame(
    state: ChunkerView,
    config: Dictation,
    audio: Seq<u8>,
    verdicts: Seq<bool>,
    pcm: Seq<u8>,
    voiced: Seq<bool>,
)
    requires
        state.wf(config),
        amid(state, audio, verdicts),
        voiced.len() > 0,
        pcm.len() == 640 * voiced.len(),
    ensures
        ({
            let front = pcm.take(640 * (voiced.len() - 1));
            let last = pcm.skip(640 * (voiced.len() - 1));
            let (midway, earlier) = state.push(config, front, voiced.drop_last());
            let (after, later) = midway.push(config, last, seq![voiced.last()]);
            &&& midway.warmup_left == 0
            &&& midway.carry.len() == 0
            &&& midway.audible(640) == 1
            &&& state.audible(front.len() as int) == voiced.len() - 1
            &&& state.push(config, pcm, voiced) == (after, earlier + later)
        }),
{
    let n = voiced.len() - 1;
    let front = pcm.take(640 * n);
    let last = pcm.skip(640 * n);
    assert(state.whole_frames(front.len() as int) == n);
    assert(state.swallowed(front.len() as int) == 0);
    law_push_keeps_count(state, config, front, voiced.drop_last());
    let midway = state.push(config, front, voiced.drop_last()).0;
    assert(midway.whole_frames(640) == 1);
    law_buffer_sizes_do_not_matter(
        state,
        config,
        front,
        voiced.drop_last(),
        last,
        seq![voiced.last()],
    );
    assert(front + last =~= pcm);
    assert(voiced.drop_last() + seq![voiced.last()] =~= voiced);
}

/// Speech decides whether a cut utterance is sent: over any number of frames that
/// end with its cut, its final is among what is sent, with all of its audio, if and
/// only if `min_speech_ms` of its frames were judged speech.
pub proof fn law_speech_decides(
    state: ChunkerView,
    config: Dictation,
    audio: Seq<u8>,
    verdicts: Seq<bool>,
    pcm: Seq<u8>,
    voiced: Seq<bool>,
)
    requires
        state.wf(config),
        amid(state, audio, verdicts),
        voiced.len() > 0,
        pcm.len() == 640 * voiced.len(),
        state.push(config, pcm.take(640 * (voiced.len() - 1)), voiced.drop_last()).0.generation
            == state.generation,
        state.push(config, pcm, voiced).0.generation > state.generation,
    ensures
        ({
            let (after, sent) = state.push(config, pcm, voiced);
            let whole = ChunkView { pcm: audio + pcm, generation: state.generation, final_: true };
            &&& (20 * count_voiced(verdicts + voiced) >= config.min_speech_ms) == sent.contains(
                whole,
            )
            &&& forall|i: int|
                0 <= i < sent.len() && (#[trigger] sent[i]).final_ ==> sent[i] == whole
            &&& amid(after, Seq::empty(), Seq::empty())
        }),
{
    let n = voiced.len() - 1;
    let front = pcm.take(640 * n);
    let last = pcm.skip(640 * n);
    lemma_last_frame(state, config, audio, verdicts, pcm, voiced);
    let (midway, earlier) = state.push(config, front, voiced.drop_last());
    lemma_still_amid(state, config, audio, verdicts, front, voiced.drop_last());
    law_generations_are_monotonic(state, config, front, voiced.drop_last());
    law_an_utterance_goes_by_its_verdicts(
        midway,
        config,
        audio + front,
        verdicts + voiced.drop_last(),
        last,
        voiced.last(),
    );
    assert((audio + front) + last =~= audio + pcm);
    assert((verdicts + voiced.drop_last()).push(voiced.last()) =~= verdicts + voiced);
    let later = midway.push(config, last, seq![voiced.last()]).1;
    let sent = earlier + later;
    let whole = ChunkView { pcm: audio + pcm, generation: state.generation, final_: true };
    assert forall|i: int| 0 <= i < sent.len() && (#[trigger] sent[i]).final_ implies sent[i]
        == whole by {
        if i < earlier.len() {
            assert(earlier[i] == sent[i]);
        } else {
            assert(later[i - earlier.len()] == sent[i]);
        }
    }
    if later.len() > 0 {
        assert(sent[earlier.len() as int] == later[0]);
    }
    if sent.contains(whole) {
        let i = choose|i: int| 0 <= i < sent.len() && sent[i] == whole;
        if i < earlier.len() {
            assert(earlier[i].final_);
        }
    }
}

/// Speech decides at a flush too.
pub proof fn law_speech_decides_at_a_flush(
    state: ChunkerView,
    config: Dictation,
    audio: Seq<u8>,
    verdicts: Seq<bool>,
)
    requires
        amid(state, audio, verdicts),
    ensures
        ({
            let (after, sent) = state.flush(config);
            &&& amid(after, Seq::empty(), Seq::empty())
            &&& after.generation == (if audio.len() > 0 {
                state.generation + 1
            } else {
                state.generation
            })
            &&& sent == (if audio.len() > 0 && 20 * count_voiced(verdicts)
                >= config.min_speech_ms {
                seq![ChunkView { pcm: audio, generation: state.generation, final_: true }]
            } else {
                Seq::empty()
            })
        }),
{
    if audio.len() == 0 {
        assert(verdicts =~= Seq::empty());
        assert(audio =~= Seq::empty());
    }
}

/// A flush ends the utterance that was begun, and leaves alone what does not make a
/// frame yet and what is left of the warmup.
pub proof fn law_what_a_flush_leaves(state: ChunkerView, config: Dictation)
    ensures
        ({
            let (after, sent) = state.flush(config);
            &&& after.carry == state.carry
            &&& after.warmup_left == state.warmup_left
            &&& after.buf.len() == 0
            &&& state.buf.len() == 0 ==> after == state && sent.len() == 0
            &&& state.buf.len() > 0 ==> {
                &&& after.silent_ms == 0
                &&& after.voiced_ms == 0
                &&& after.previewed == 0
                &&& after.generation == state.generation + 1
                &&& sent.len() == (if state.voiced_ms >= config.min_speech_ms {
                    1int
                } else {
                    0int
                })
                &&& sent.len() > 0 ==> sent[0] == (ChunkView {
                    pcm: state.buf,
                    generation: state.generation,
                    final_: true,
                })
            }
        }),
{
}

/// A chunker begins with 200 ms to go unheard and nothing else, and past them it is
/// at the beginning of the first utterance.
pub proof fn law_a_chunker_begins_with_a_warmup(
    config: Dictation,
    warmup: Seq<u8>,
    pcm: Seq<u8>,
    voiced: Seq<bool>,
)
    requires
        warmup.len() == 6400,
    ensures
        ({
            let fresh = ChunkerView::fresh();
            let warm = fresh.push(config, warmup, Seq::empty()).0;
            &&& fresh.audible(6400) == 0
            &&& fresh.generation == 0
            &&& fresh.push(config, warmup, Seq::empty()).1.len() == 0
            &&& amid(warm, Seq::empty(), Seq::empty())
            &&& warm.previewed == 0
            &&& warm.generation == 0
            &&& fresh.audible(6400 + pcm.len() as int) == pcm.len() as int / 640
        }),
{
    let fresh = ChunkerView::fresh();
    assert(fresh.carry + warmup =~= warmup);
    assert(warmup.skip(6400) =~= Seq::<u8>::empty());
    assert(fresh.whole_frames(6400) == 10);
    assert(fresh.swallowed(6400) == 10);
    reveal_with_fuel(ChunkerView::hear_all, 1);
    assert((6400 + pcm.len() as int) / 640 == 10 + pcm.len() as int / 640);
}

/// Every byte is accounted for: whole frames are taken off the front, first for the
/// warmup and then to be heard, and what does not make a frame is kept.
pub proof fn law_push_keeps_count(
    from: ChunkerView,
    config: Dictation,
    pcm: Seq<u8>,
    voiced: Seq<bool>,
)
    requires
        from.wf(config),
        voiced.len() == from.audible(pcm.len() as int),
    ensures
        ({
            let after = from.push(config, pcm, voiced).0;
            let all = from.carry + pcm;
            let whole = all.len() as int / 640;
            &&& after.carry == all.skip(640 * whole)
            &&& after.warmup_left == (if 20 * whole < from.warmup_left {
                from.warmup_left - 20 * whole
            } else {
                0
            })
            &&& 20 * (whole - voiced.len()) == from.warmup_left - after.warmup_left
        }),
{
    let n = pcm.len() as int;
    assert(from.whole_frames(n) == (from.carry + pcm).len() as int / 640);
    lemma_hearing_keeps(
        ChunkerView {
            warmup_left: from.warmup_left - from.swallowed(n) * 20,
            carry: (from.carry + pcm).skip(from.whole_frames(n) * 640),
            ..from
        },
        config,
        (from.carry + pcm).skip(from.swallowed(n) * 640),
        voiced,
    );
}

proof fn lemma_hearing_keeps(
    from: ChunkerView,
    config: Dictation,
    audio: Seq<u8>,
    voiced: Seq<bool>,
)
    ensures
        from.hear_all(config, audio, voiced).0.carry == from.carry,
        from.hear_all(config, audio, voiced).0.warmup_left == from.warmup_left,
    decreases voiced.len(),
{
    if voiced.len() > 0 {
        lemma_hearing_keeps(from, config, audio, voiced.drop_last());
    }
}

/// The frames to judge are the audio that is heard, in order: the `i`-th of them
/// starts 640 bytes behind the one before, after the frames that the warmup takes.
pub proof fn law_frames_are_judged_in_order(from: ChunkerView, config: Dictation, pcm: Seq<u8>, i: int)
    requires
        from.wf(config),
        0 <= i < from.audible(pcm.len() as int),
    ensures
        frame(from.carry + pcm, from.swallowed(pcm.len() as int) + i) == (from.carry
            + pcm).subrange(32 * from.warmup_left + 640 * i, 32 * from.warmup_left + 640 * i + 640),
{
    assert(from.warmup_left == 20 * (from.warmup_left / 20));
    assert(from.swallowed(pcm.len() as int) == from.warmup_left / 20);
}

/// There is room for audio as long as its milliseconds can be counted in 32 bits and
/// its utterances in 64.
pub proof fn law_there_is_room(from: ChunkerView, extra: int)
    requires
        extra >= 0,
    ensures
        from.has_room(extra) == (from.buf.len() + from.carry.len() + extra <= 32 * 0xffff_ffff
            && from.generation + (from.carry.len() + extra) / 640 < 0xffff_ffff_ffff_ffff),
{
    law_bytes_per_ms(u32::MAX as int);
}

/// A sample is the signed 16-bit number that its two bytes spell, low byte first.
pub proof fn law_samples_are_signed(audio: Seq<u8>, i: int)
    requires
        0 <= i,
        2 * i + 1 < audio.len(),
    ensures
        -32768 <= sample(audio, i) < 32768,
        (sample(audio, i) - (audio[2 * i] + 256 * audio[2 * i + 1])) % 65536 == 0,
{
}

/// The energy of two stretches of whole samples is the sum of their energies, that
/// of one sample is its square, and half a sample has none.
pub proof fn law_energy_adds_up(audio: Seq<u8>, more: Seq<u8>)
    requires
        audio.len() % 2 == 0,
    ensures
        energy_of(audio + more) == energy_of(audio) + energy_of(more),
        more.len() <= 1 ==> energy_of(more) == 0,
        more.len() == 2 ==> energy_of(more) == sample(more, 0) * sample(more, 0),
{
    reveal_with_fuel(sum_of_squares, 2);
    let n = audio.len() / 2;
    let m = more.len() / 2;
    assert((audio + more).len() / 2 == n + m);
    lemma_energy_of_both(audio, more, m);
}

proof fn lemma_energy_of_both(audio: Seq<u8>, more: Seq<u8>, m: nat)
    requires
        audio.len() % 2 == 0,
        2 * m <= more.len(),
    ensures
        sum_of_squares(audio + more, audio.len() / 2 + m) == sum_of_squares(
            audio,
            audio.len() / 2,
        ) + sum_of_squares(more, m),
    decreases m,
{
    let n = audio.len() / 2;
    if m == 0 {
        lemma_energy_of_front(audio, more, n);
    } else {
        lemma_energy_of_both(audio, more, (m - 1) as nat);
        assert(sample(audio + more, n + m - 1) == sample(more, m - 1));
    }
}

proof fn lemma_energy_of_front(audio: Seq<u8>, more: Seq<u8>, n: nat)
    requires
        2 * n <= audio.len(),
    ensures
        sum_of_squares(audio + more, n) == sum_of_squares(audio, n),
    decreases n,
{
    if n > 0 {
        lemma_energy_of_front(audio, more, (n - 1) as nat);
        assert(sample(audio + more, n - 1) == sample(audio, n - 1));
    }
}

} // verus!
