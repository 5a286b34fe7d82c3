//! What holds of the chunker as a whole.
use vstd::prelude::*;

use crate::config::dictation::Dictation;
use crate::dictation::chunker::{
    bytes_of, frame, law_bytes_per_ms, ChunkView, ChunkerView, FRAME_BYTES, FRAME_MS, WARMUP_MS,
};

verus! {

/// Whether `voiced` and `audio` fit together: there is a frame for each
/// verdict, and a frame is only judged once the warmup is over.
pub open spec fn judged(from: ChunkerView, audio: Seq<u8>, voiced: Seq<bool>) -> bool {
    &&& audio.len() >= voiced.len() * 640
    &&& voiced.len() > 0 ==> from.warmup_left == 0
}

proof fn lemma_hear(from: ChunkerView, config: Dictation, sound: Seq<u8>, voiced: bool)
    requires
        from.wf(config),
        from.warmup_left == 0,
        sound.len() == FRAME_BYTES,
    ensures
        ({
            let (after, sent) = from.hear(config, sound, voiced);
            &&& after.wf(config)
            &&& after.warmup_left == 0
            &&& after.carry == from.carry
            &&& from.generation <= after.generation <= from.generation + 1
            &&& after.generation == from.generation ==> after.buf == from.buf + sound
            &&& after.generation != from.generation ==> after.buf.len() == 0
            &&& sent.len() <= 1
        }),
{
    let longer = from.with_frame(sound, voiced);
    assert(longer.buf.len() == from.buf.len() + 640);
    law_bytes_per_ms(from.voiced_ms);
    law_bytes_per_ms(from.silent_ms);
    law_bytes_per_ms(longer.voiced_ms);
    law_bytes_per_ms(longer.silent_ms);
    assert(bytes_of(longer.voiced_ms) <= longer.buf.len());
    assert(bytes_of(longer.silent_ms) <= longer.buf.len());
    if longer.cut_due(config) {
        assert(longer.after_cut().wf(config));
    } else {
        assert(longer.wf(config));
    }
}

/// What hearing frames does to a chunker, whatever they hold.
proof fn lemma_hear_all(from: ChunkerView, config: Dictation, audio: Seq<u8>, voiced: Seq<bool>)
    requires
        from.wf(config),
        judged(from, audio, voiced),
    ensures
        ({
            let (after, sent) = from.hear_all(config, audio, voiced);
            &&& after.wf(config)
            &&& after.warmup_left == from.warmup_left
            &&& after.carry == from.carry
            &&& from.generation <= after.generation <= from.generation + voiced.len()
        }),
    decreases voiced.len(),
{
    if voiced.len() > 0 {
        lemma_hear_all(from, config, audio, voiced.drop_last());
        let before = from.hear_all(config, audio, voiced.drop_last()).0;
        lemma_hear(before, config, frame(audio, voiced.len() - 1), voiced.last());
    }
}

/// Only the frames judged matter.
proof fn lemma_same_frames(
    from: ChunkerView,
    config: Dictation,
    a: Seq<u8>,
    b: Seq<u8>,
    voiced: Seq<bool>,
)
    requires
        forall|i: int| 0 <= i < voiced.len() ==> #[trigger] frame(a, i) == frame(b, i),
    ensures
        from.hear_all(config, a, voiced) == from.hear_all(config, b, voiced),
    decreases voiced.len(),
{
    if voiced.len() > 0 {
        lemma_same_frames(from, config, a, b, voiced.drop_last());
        assert(frame(a, voiced.len() - 1) == frame(b, voiced.len() - 1));
    }
}

/// Hearing does not look at what is carried over.
proof fn lemma_carry_is_apart(
    from: ChunkerView,
    carry: Seq<u8>,
    config: Dictation,
    audio: Seq<u8>,
    voiced: Seq<bool>,
)
    ensures
        ({
            let (after, sent) = from.hear_all(config, audio, voiced);
            (ChunkerView { carry, ..from }).hear_all(config, audio, voiced) == (
                ChunkerView { carry, ..after },
                sent,
            )
        }),
    decreases voiced.len(),
{
    if voiced.len() > 0 {
        lemma_carry_is_apart(from, carry, config, audio, voiced.drop_last());
    }
}

/// Hearing frames in two goes.
proof fn lemma_two_goes(
    from: ChunkerView,
    config: Dictation,
    audio: Seq<u8>,
    first: Seq<bool>,
    second: Seq<bool>,
)
    requires
        audio.len() >= (first.len() + second.len()) * 640,
    ensures
        ({
            let (midway, sent) = from.hear_all(config, audio, first);
            let (after, sent_later) = midway.hear_all(
                config,
                audio.skip(first.len() as int * 640),
                second,
            );
            from.hear_all(config, audio, first + second) == (after, sent + sent_later)
        }),
    decreases second.len(),
{
    let rest = audio.skip(first.len() as int * 640);
    let (midway, sent) = from.hear_all(config, audio, first);
    if second.len() == 0 {
        assert(first + second =~= first);
        assert(sent + Seq::<ChunkView>::empty() =~= sent);
    } else {
        lemma_two_goes(from, config, audio, first, second.drop_last());
        assert((first + second).drop_last() =~= first + second.drop_last());
        let k = second.len() - 1;
        assert(frame(rest, k) =~= frame(audio, first.len() + k));
        let (before, sent_before) = midway.hear_all(config, rest, second.drop_last());
        let (after, chunks) = before.hear(config, frame(rest, k), second.last());
        assert(sent + (sent_before + chunks) =~= (sent + sent_before) + chunks);
    }
}

/// A push leaves the chunker well-formed.
pub proof fn law_push_keeps_wf(
    from: ChunkerView,
    config: Dictation,
    pcm: Seq<u8>,
    voiced: Seq<bool>,
)
    requires
        from.wf(config),
        voiced.len() == from.audible(pcm.len() as int),
    ensures
        from.push(config, pcm, voiced).0.wf(config),
{
    lemma_push_hears(from, config, pcm, voiced);
}

/// The chunker just before it hears the frames that `pcm` completes.
pub open spec fn listening(from: ChunkerView, pcm: Seq<u8>) -> ChunkerView {
    let n = pcm.len() as int;
    ChunkerView {
        warmup_left: from.warmup_left - from.swallowed(n) * FRAME_MS,
        carry: (from.carry + pcm).skip(from.whole_frames(n) * FRAME_BYTES),
        ..from
    }
}

/// The audio that a push makes heard, whole frames and what is left over.
pub open spec fn heard(from: ChunkerView, pcm: Seq<u8>) -> Seq<u8> {
    (from.carry + pcm).skip(from.swallowed(pcm.len() as int) * FRAME_BYTES)
}

proof fn lemma_push_hears(from: ChunkerView, config: Dictation, pcm: Seq<u8>, voiced: Seq<bool>)
    requires
        from.wf(config),
        voiced.len() == from.audible(pcm.len() as int),
    ensures
        listening(from, pcm).wf(config),
        judged(listening(from, pcm), heard(from, pcm), voiced),
        from.push(config, pcm, voiced) == listening(from, pcm).hear_all(
            config,
            heard(from, pcm),
            voiced,
        ),
        from.push(config, pcm, voiced).0.wf(config),
{
    let n = pcm.len() as int;
    let whole = from.whole_frames(n);
    assert(0 <= from.swallowed(n) <= whole);
    assert(whole * 640 <= (from.carry + pcm).len());
    lemma_hear_all(listening(from, pcm), config, heard(from, pcm), voiced);
}

/// How the stream is cut into buffers makes no difference: pushing `a` and then
/// `b` is pushing both at once.
pub proof fn law_buffer_sizes_do_not_matter(
    from: ChunkerView,
    config: Dictation,
    a: Seq<u8>,
    voiced_a: Seq<bool>,
    b: Seq<u8>,
    voiced_b: Seq<bool>,
)
    requires
        from.wf(config),
        voiced_a.len() == from.audible(a.len() as int),
        voiced_b.len() == from.push(config, a, voiced_a).0.audible(b.len() as int),
    ensures
        ({
            let (midway, sent) = from.push(config, a, voiced_a);
            let (after, sent_later) = midway.push(config, b, voiced_b);
            &&& from.audible((a + b).len() as int) == voiced_a.len() + voiced_b.len()
            &&& from.push(config, a + b, voiced_a + voiced_b) == (after, sent + sent_later)
        }),
{
    let (midway, sent) = from.push(config, a, voiced_a);
    let (after, sent_later) = midway.push(config, b, voiced_b);
    lemma_push_hears(from, config, a, voiced_a);
    lemma_push_hears(midway, config, b, voiced_b);
    let n1 = a.len() as int;
    let n2 = b.len() as int;
    let n = (a + b).len() as int;
    let whole1 = from.whole_frames(n1);
    let whole2 = midway.whole_frames(n2);
    let sw1 = from.swallowed(n1);
    let sw2 = midway.swallowed(n2);
    lemma_hear_all(listening(from, a), config, heard(from, a), voiced_a);
    assert(midway.carry == (from.carry + a).skip(whole1 * 640));
    assert(midway.warmup_left == from.warmup_left - sw1 * 20);
    assert(from.whole_frames(n) == whole1 + whole2);
    assert(from.swallowed(n) == sw1 + sw2);
    assert(sw2 > 0 ==> voiced_a.len() == 0);

    let all = from.carry + (a + b);
    let audio = all.skip((sw1 + sw2) * 640);
    let start = listening(from, a + b);
    lemma_two_goes(start, config, audio, voiced_a, voiced_b);

    // The first go hears what the first push heard.
    assert forall|i: int| 0 <= i < voiced_a.len() implies #[trigger] frame(audio, i) == frame(
        heard(from, a),
        i,
    ) by {
        assert(frame(audio, i) =~= frame(heard(from, a), i));
    }
    lemma_same_frames(start, config, audio, heard(from, a), voiced_a);
    if voiced_a.len() > 0 {
        assert(start =~= ChunkerView { carry: start.carry, ..listening(from, a) });
        lemma_carry_is_apart(listening(from, a), start.carry, config, heard(from, a), voiced_a);
    }
    // The second go hears what the second push heard.

    assert(audio.skip(voiced_a.len() as int * 640) =~= heard(midway, b));
    assert(start.carry =~= (midway.carry + b).skip(whole2 * 640));
    assert(start.hear_all(config, audio, voiced_a).0 =~= listening(midway, b));
}

/// The warmup goes unheard: nothing that comes of it is ever sent, and what
/// follows is cut as if it had come first.
pub proof fn law_warmup_is_unheard(
    config: Dictation,
    warmup: Seq<u8>,
    pcm: Seq<u8>,
    voiced: Seq<bool>,
)
    requires
        warmup.len() == bytes_of(WARMUP_MS as int),
    ensures
        ({
            let warm = ChunkerView { warmup_left: 0, ..ChunkerView::fresh() };
            ChunkerView::fresh().push(config, warmup + pcm, voiced) == warm.push(
                config,
                pcm,
                voiced,
            )
        }),
{
    law_bytes_per_ms(WARMUP_MS as int);
    let fresh = ChunkerView::fresh();
    let warm = ChunkerView { warmup_left: 0, ..fresh };
    let n = (warmup + pcm).len() as int;
    let m = pcm.len() as int;
    assert(fresh.whole_frames(n) == warm.whole_frames(m) + 10);
    assert(fresh.swallowed(n) == 10);
    assert(warm.swallowed(m) == 0);
    assert(heard(fresh, warmup + pcm) =~= heard(warm, pcm));
    assert(listening(fresh, warmup + pcm) =~= listening(warm, pcm));
}

/// Chunks come in the order of their utterances, and once an utterance has been
/// cut nothing of it follows.
pub open spec fn in_spoken_order(sent: Seq<ChunkView>) -> bool {
    forall|i: int, j: int|
        #![trigger sent[i], sent[j]]
        0 <= i < j < sent.len() ==> {
            &&& sent[i].generation <= sent[j].generation
            &&& sent[i].final_ ==> sent[i].generation < sent[j].generation
        }
}

/// Every chunk belongs to an utterance numbered from `first` to `filling`, and
/// a cut one to an utterance before `filling`.
pub open spec fn numbered(sent: Seq<ChunkView>, first: int, filling: int) -> bool {
    forall|i: int|
        #![trigger sent[i]]
        0 <= i < sent.len() ==> {
            &&& first <= sent[i].generation <= filling
            &&& sent[i].final_ ==> sent[i].generation < filling
        }
}

/// Of two chunks of one utterance the later one is longer and starts with the
/// earlier one.
pub open spec fn growing(sent: Seq<ChunkView>) -> bool {
    forall|i: int, j: int|
        #![trigger sent[i], sent[j]]
        0 <= i < j < sent.len() && sent[i].generation == sent[j].generation ==> {
            &&& sent[i].pcm.len() < sent[j].pcm.len()
            &&& sent[i].pcm.is_prefix_of(sent[j].pcm)
        }
}

proof fn lemma_order(from: ChunkerView, config: Dictation, audio: Seq<u8>, voiced: Seq<bool>)
    requires
        from.wf(config),
        judged(from, audio, voiced),
    ensures
        ({
            let (after, sent) = from.hear_all(config, audio, voiced);
            &&& in_spoken_order(sent)
            &&& numbered(sent, from.generation, after.generation)
            &&& growing(sent)
            &&& forall|i: int|
                #![trigger sent[i]]
                0 <= i < sent.len() && sent[i].generation == after.generation
                    ==> sent[i].pcm.is_prefix_of(after.buf)
        }),
    decreases voiced.len(),
{
    if voiced.len() > 0 {
        lemma_order(from, config, audio, voiced.drop_last());
        lemma_hear_all(from, config, audio, voiced.drop_last());
        let (before, sent) = from.hear_all(config, audio, voiced.drop_last());
        let sound = frame(audio, voiced.len() - 1);
        lemma_hear(before, config, sound, voiced.last());
        let longer = before.with_frame(sound, voiced.last());
        assert(longer.buf.len() == before.buf.len() + 640);
        let (after, chunks) = before.hear(config, sound, voiced.last());
        let all = sent + chunks;
        assert forall|i: int| 0 <= i < sent.len() implies #[trigger] all[i] == sent[i] by {}
        assert forall|i: int|
            #![trigger sent[i]]
            0 <= i < sent.len() && sent[i].generation
                == before.generation implies sent[i].pcm.is_prefix_of(longer.buf)
            && sent[i].pcm.len() < longer.buf.len() by {
            assert(sent[i].pcm.is_prefix_of(before.buf));
        }
        if chunks.len() > 0 {
            assert(all[sent.len() as int] == longer.chunk(longer.cut_due(config)));
        }
        assert forall|i: int, j: int|
            #![trigger all[i], all[j]]
            0 <= i < j < all.len() implies {
            &&& all[i].generation <= all[j].generation
            &&& all[i].final_ ==> all[i].generation < all[j].generation
        } by {
            assert(all[i] == sent[i]);
            if j < sent.len() {
                assert(all[j] == sent[j]);
            }
        }
        assert forall|i: int, j: int|
            #![trigger all[i], all[j]]
            0 <= i < j < all.len() && all[i].generation == all[j].generation implies {
            &&& all[i].pcm.len() < all[j].pcm.len()
            &&& all[i].pcm.is_prefix_of(all[j].pcm)
        } by {
            assert(all[i] == sent[i]);
            if j < sent.len() {
                assert(all[j] == sent[j]);
            }
        }
    }
}

/// Generations are monotonic: chunks come in spoken order, a cut utterance is
/// behind the one being filled, and a preview can be told from the final that
/// supersedes it.
pub proof fn law_generations_are_monotonic(
    from: ChunkerView,
    config: Dictation,
    pcm: Seq<u8>,
    voiced: Seq<bool>,
)
    requires
        from.wf(config),
        voiced.len() == from.audible(pcm.len() as int),
    ensures
        ({
            let (after, sent) = from.push(config, pcm, voiced);
            &&& from.generation <= after.generation
            &&& in_spoken_order(sent)
            &&& numbered(sent, from.generation, after.generation)
        }),
{
    lemma_push_hears(from, config, pcm, voiced);
    lemma_order(listening(from, pcm), config, heard(from, pcm), voiced);
    lemma_hear_all(listening(from, pcm), config, heard(from, pcm), voiced);
}

/// An utterance takes a frame at least: a push begins no more of them than it
/// makes frames heard.
pub proof fn law_one_cut_per_frame(
    from: ChunkerView,
    config: Dictation,
    pcm: Seq<u8>,
    voiced: Seq<bool>,
)
    requires
        from.wf(config),
        voiced.len() == from.audible(pcm.len() as int),
    ensures
        from.push(config, pcm, voiced).0.generation <= from.generation + voiced.len(),
{
    lemma_push_hears(from, config, pcm, voiced);
    lemma_hear_all(listening(from, pcm), config, heard(from, pcm), voiced);
}

/// Previews grow: each carries the whole utterance so far, and the final carries
/// on where they left off.
pub proof fn law_previews_grow(
    from: ChunkerView,
    config: Dictation,
    pcm: Seq<u8>,
    voiced: Seq<bool>,
)
    requires
        from.wf(config),
        voiced.len() == from.audible(pcm.len() as int),
    ensures
        growing(from.push(config, pcm, voiced).1),
{
    lemma_push_hears(from, config, pcm, voiced);
    lemma_order(listening(from, pcm), config, heard(from, pcm), voiced);
}

/// Whether the previews keep up with the speaker: where they are on, and the
/// utterance is speech, less than `partial_ms` of it has not been previewed.
pub open spec fn kept_up(state: ChunkerView, config: Dictation) -> bool {
    ||| config.partial_ms == 0
    ||| !state.is_speech(config)
    ||| state.buf.len() - state.previewed < bytes_of(config.partial_ms as int)
}

proof fn lemma_kept_up(from: ChunkerView, config: Dictation, audio: Seq<u8>, voiced: Seq<bool>)
    requires
        kept_up(from, config),
    ensures
        kept_up(from.hear_all(config, audio, voiced).0, config),
    decreases voiced.len(),
{
    if voiced.len() > 0 {
        lemma_kept_up(from, config, audio, voiced.drop_last());
        law_bytes_per_ms(config.partial_ms as int);
    }
}

/// Previews keep up with the speaker, from the first frame on.
pub proof fn law_previews_keep_up(
    from: ChunkerView,
    config: Dictation,
    pcm: Seq<u8>,
    voiced: Seq<bool>,
)
    requires
        kept_up(from, config),
    ensures
        kept_up(from.push(config, pcm, voiced).0, config),
        kept_up(from.flush(config).0, config),
        kept_up(ChunkerView::fresh(), config),
{
    law_bytes_per_ms(config.partial_ms as int);
    let audio = from.carry + pcm;
    let n = pcm.len() as int;
    let ready = ChunkerView {
        warmup_left: from.warmup_left - from.swallowed(n) * FRAME_MS,
        carry: audio.skip(from.whole_frames(n) * FRAME_BYTES),
        ..from
    };
    lemma_kept_up(ready, config, audio.skip(from.swallowed(n) * FRAME_BYTES), voiced);
}

/// Whether previews keep their distance: each is at least `partial_ms` long, and
/// holds at least that much more than the preview of its utterance before it.
pub open spec fn apart(sent: Seq<ChunkView>, config: Dictation) -> bool {
    &&& forall|i: int|
        #![trigger sent[i]]
        0 <= i < sent.len() && !sent[i].final_ ==> sent[i].pcm.len() >= bytes_of(
            config.partial_ms as int,
        )
    &&& forall|i: int, j: int|
        #![trigger sent[i], sent[j]]
        0 <= i < j < sent.len() && !sent[i].final_ && !sent[j].final_ && sent[i].generation
            == sent[j].generation ==> sent[j].pcm.len() - sent[i].pcm.len() >= bytes_of(
            config.partial_ms as int,
        )
}

/// Whether previews of the utterance numbered `generation` hold at least
/// `partial_ms` more than `previewed`.
pub open spec fn beyond(
    sent: Seq<ChunkView>,
    config: Dictation,
    generation: int,
    previewed: int,
) -> bool {
    forall|i: int|
        #![trigger sent[i]]
        0 <= i < sent.len() && !sent[i].final_ && sent[i].generation == generation
            ==> sent[i].pcm.len() - previewed >= bytes_of(config.partial_ms as int)
}

proof fn lemma_apart(from: ChunkerView, config: Dictation, audio: Seq<u8>, voiced: Seq<bool>)
    requires
        from.wf(config),
        judged(from, audio, voiced),
    ensures
        ({
            let (after, sent) = from.hear_all(config, audio, voiced);
            &&& apart(sent, config)
            &&& beyond(sent, config, from.generation, from.previewed)
            &&& after.generation == from.generation ==> after.previewed >= from.previewed
            &&& forall|i: int|
                #![trigger sent[i]]
                0 <= i < sent.len() && !sent[i].final_ && sent[i].generation == after.generation
                    ==> sent[i].pcm.len() <= after.previewed
        }),
    decreases voiced.len(),
{
    if voiced.len() > 0 {
        lemma_apart(from, config, audio, voiced.drop_last());
        lemma_order(from, config, audio, voiced.drop_last());
        lemma_hear_all(from, config, audio, voiced.drop_last());
        let (before, sent) = from.hear_all(config, audio, voiced.drop_last());
        let sound = frame(audio, voiced.len() - 1);
        lemma_hear(before, config, sound, voiced.last());
        let longer = before.with_frame(sound, voiced.last());
        let (after, chunks) = before.hear(config, sound, voiced.last());
        let all = sent + chunks;
        assert forall|i: int| 0 <= i < sent.len() implies #[trigger] all[i] == sent[i] by {}
        if chunks.len() > 0 {
            assert(all[sent.len() as int] == longer.chunk(longer.cut_due(config)));
        }
    }
}

/// Previews are `partial_ms` apart: no more requests are made than that asks for,
/// within a push and from one push to the next.
pub proof fn law_previews_are_apart(
    from: ChunkerView,
    config: Dictation,
    pcm: Seq<u8>,
    voiced: Seq<bool>,
)
    requires
        from.wf(config),
        voiced.len() == from.audible(pcm.len() as int),
    ensures
        ({
            let (after, sent) = from.push(config, pcm, voiced);
            &&& apart(sent, config)
            &&& beyond(sent, config, from.generation, from.previewed)
            &&& forall|i: int|
                #![trigger sent[i]]
                0 <= i < sent.len() && !sent[i].final_ && sent[i].generation == after.generation
                    ==> sent[i].pcm.len() <= after.previewed
        }),
{
    lemma_push_hears(from, config, pcm, voiced);
    lemma_apart(listening(from, pcm), config, heard(from, pcm), voiced);
}

/// Whether no chunk is a preview.
pub open spec fn without_previews(sent: Seq<ChunkView>) -> bool {
    forall|i: int| 0 <= i < sent.len() ==> (#[trigger] sent[i]).final_
}

proof fn lemma_no_previews(from: ChunkerView, config: Dictation, audio: Seq<u8>, voiced: Seq<bool>)
    requires
        config.partial_ms == 0,
    ensures
        without_previews(from.hear_all(config, audio, voiced).1),
    decreases voiced.len(),
{
    if voiced.len() > 0 {
        lemma_no_previews(from, config, audio, voiced.drop_last());
        let (before, sent) = from.hear_all(config, audio, voiced.drop_last());
        let chunks = before.hear(config, frame(audio, voiced.len() - 1), voiced.last()).1;
        assert forall|i: int| 0 <= i < (sent + chunks).len() implies (#[trigger] (sent
            + chunks)[i]).final_ by {
            if i < sent.len() {
                assert(sent[i].final_);
            }
        }
    }
}

/// With `partial_ms` at 0 there are no previews.
pub proof fn law_zero_partial_ms_disables_previews(
    from: ChunkerView,
    config: Dictation,
    pcm: Seq<u8>,
    voiced: Seq<bool>,
)
    requires
        config.partial_ms == 0,
    ensures
        without_previews(from.push(config, pcm, voiced).1),
{
    lemma_no_previews(listening(from, pcm), config, heard(from, pcm), voiced);
}

proof fn lemma_lengths(from: ChunkerView, config: Dictation, audio: Seq<u8>, voiced: Seq<bool>)
    requires
        from.wf(config),
        judged(from, audio, voiced),
    ensures
        sized(from.hear_all(config, audio, voiced).1, config),
    decreases voiced.len(),
{
    if voiced.len() > 0 {
        lemma_lengths(from, config, audio, voiced.drop_last());
        lemma_hear_all(from, config, audio, voiced.drop_last());
        let (before, sent) = from.hear_all(config, audio, voiced.drop_last());
        let sound = frame(audio, voiced.len() - 1);
        let longer = before.with_frame(sound, voiced.last());
        assert(longer.buf.len() == before.buf.len() + 640);
        law_bytes_per_ms(config.chunk_ms as int);
        law_bytes_per_ms(config.max_chunk_ms as int);
        let (after, chunks) = before.hear(config, sound, voiced.last());
        let all = sent + chunks;
        assert forall|i: int| 0 <= i < all.len() implies right_size(#[trigger] all[i], config) by {
            if i < sent.len() {
                assert(all[i] == sent[i]);
            } else {
                assert(all[i] == longer.chunk(longer.cut_due(config)));
            }
        }
    }
}

/// Whether a chunk is made of whole frames, one at least. A cut utterance holds at
/// least `chunk_ms` of audio, and its last frame is the first that reached the
/// longest an utterance may be, if it did; a preview is shorter than that.
pub open spec fn right_size(chunk: ChunkView, config: Dictation) -> bool {
    let n = chunk.pcm.len() as int;
    &&& n > 0
    &&& n % FRAME_BYTES as int == 0
    &&& chunk.final_ ==> {
        &&& n >= bytes_of(config.chunk_ms as int)
        &&& n == FRAME_BYTES || n - FRAME_BYTES < ChunkerView::longest(config)
    }
    &&& !chunk.final_ ==> n < ChunkerView::longest(config)
}

/// Whether every chunk is.
pub open spec fn sized(sent: Seq<ChunkView>, config: Dictation) -> bool {
    forall|i: int| 0 <= i < sent.len() ==> right_size(#[trigger] sent[i], config)
}

/// While audio comes in, utterances are cut neither too short nor too long.
pub proof fn law_utterances_are_sized(
    from: ChunkerView,
    config: Dictation,
    pcm: Seq<u8>,
    voiced: Seq<bool>,
)
    requires
        from.wf(config),
        voiced.len() == from.audible(pcm.len() as int),
    ensures
        sized(from.push(config, pcm, voiced).1, config),
{
    lemma_push_hears(from, config, pcm, voiced);
    lemma_lengths(listening(from, pcm), config, heard(from, pcm), voiced);
}

proof fn lemma_uncut(from: ChunkerView, config: Dictation, audio: Seq<u8>, voiced: Seq<bool>)
    requires
        from.wf(config),
        judged(from, audio, voiced),
        from.hear_all(config, audio, voiced).0.generation == from.generation,
    ensures
        from.hear_all(config, audio, voiced).0.buf.len() == from.buf.len() + 640 * voiced.len(),
    decreases voiced.len(),
{
    if voiced.len() > 0 {
        lemma_hear_all(from, config, audio, voiced.drop_last());
        let before = from.hear_all(config, audio, voiced.drop_last()).0;
        lemma_hear(before, config, frame(audio, voiced.len() - 1), voiced.last());
        lemma_uncut(from, config, audio, voiced.drop_last());
    }
}

/// Someone who never pauses is cut all the same: once the audible frames bring
/// the utterance to its longest, it has been cut, whatever the verdicts.
pub proof fn law_the_longest_utterance_is_cut(
    from: ChunkerView,
    config: Dictation,
    pcm: Seq<u8>,
    voiced: Seq<bool>,
)
    requires
        from.wf(config),
        voiced.len() == from.audible(pcm.len() as int),
        voiced.len() > 0,
        from.buf.len() + voiced.len() * FRAME_BYTES >= ChunkerView::longest(config),
    ensures
        from.push(config, pcm, voiced).0.generation > from.generation,
{
    lemma_push_hears(from, config, pcm, voiced);
    lemma_hear_all(listening(from, pcm), config, heard(from, pcm), voiced);
    if from.push(config, pcm, voiced).0.generation == from.generation {
        lemma_uncut(listening(from, pcm), config, heard(from, pcm), voiced);
    }
}

proof fn lemma_quiet(from: ChunkerView, config: Dictation, audio: Seq<u8>, voiced: Seq<bool>)
    requires
        from.wf(config),
        judged(from, audio, voiced),
        forall|i: int| 0 <= i < voiced.len() ==> !#[trigger] voiced[i],
        from.hear_all(config, audio, voiced).0.generation == from.generation,
    ensures
        from.hear_all(config, audio, voiced).0.silent_ms == from.silent_ms + FRAME_MS
            * voiced.len(),
        voiced.len() > 0 ==> !from.hear_all(config, audio, voiced).0.cut_due(config),
    decreases voiced.len(),
{
    if voiced.len() > 0 {
        assert(!voiced[voiced.len() - 1]);
        lemma_hear_all(from, config, audio, voiced.drop_last());
        let before = from.hear_all(config, audio, voiced.drop_last()).0;
        lemma_hear(before, config, frame(audio, voiced.len() - 1), voiced.last());
        lemma_quiet(from, config, audio, voiced.drop_last());
    }
}

/// A pause after enough audio cuts: once quiet frames bring the utterance to
/// `chunk_ms` and the quiet to `silence_ms`, it has been cut.
pub proof fn law_a_pause_after_enough_audio_cuts(
    from: ChunkerView,
    config: Dictation,
    pcm: Seq<u8>,
    voiced: Seq<bool>,
)
    requires
        from.wf(config),
        voiced.len() == from.audible(pcm.len() as int),
        voiced.len() > 0,
        forall|i: int| 0 <= i < voiced.len() ==> !#[trigger] voiced[i],
        from.buf.len() + voiced.len() * FRAME_BYTES >= bytes_of(config.chunk_ms as int),
        from.silent_ms + voiced.len() * FRAME_MS >= config.silence_ms,
    ensures
        from.push(config, pcm, voiced).0.generation > from.generation,
{
    lemma_push_hears(from, config, pcm, voiced);
    lemma_hear_all(listening(from, pcm), config, heard(from, pcm), voiced);
    if from.push(config, pcm, voiced).0.generation == from.generation {
        lemma_uncut(listening(from, pcm), config, heard(from, pcm), voiced);
        lemma_quiet(listening(from, pcm), config, heard(from, pcm), voiced);
    }
}

proof fn lemma_talking(from: ChunkerView, config: Dictation, audio: Seq<u8>, voiced: Seq<bool>)
    requires
        from.wf(config),
        judged(from, audio, voiced),
        config.silence_ms > 0,
        forall|i: int| 0 <= i < voiced.len() ==> #[trigger] voiced[i],
        from.buf.len() + voiced.len() * 640 < ChunkerView::longest(config),
    ensures
        from.hear_all(config, audio, voiced).0.generation == from.generation,
    decreases voiced.len(),
{
    if voiced.len() > 0 {
        assert(voiced[voiced.len() - 1]);
        lemma_talking(from, config, audio, voiced.drop_last());
        lemma_uncut(from, config, audio, voiced.drop_last());
        let before = from.hear_all(config, audio, voiced.drop_last()).0;
        let sound = frame(audio, voiced.len() - 1);
        assert(before.with_frame(sound, voiced.last()).buf.len() == before.buf.len() + 640);
    }
}

/// Nobody is cut while still talking: voiced frames that keep the utterance
/// under its longest do not end it.
pub proof fn law_no_cut_while_still_talking(
    from: ChunkerView,
    config: Dictation,
    pcm: Seq<u8>,
    voiced: Seq<bool>,
)
    requires
        from.wf(config),
        voiced.len() == from.audible(pcm.len() as int),
        config.silence_ms > 0,
        forall|i: int| 0 <= i < voiced.len() ==> #[trigger] voiced[i],
        from.buf.len() + voiced.len() * FRAME_BYTES < ChunkerView::longest(config),
    ensures
        from.push(config, pcm, voiced).0.generation == from.generation,
{
    lemma_push_hears(from, config, pcm, voiced);
    lemma_talking(listening(from, pcm), config, heard(from, pcm), voiced);
}

proof fn lemma_room_tone(from: ChunkerView, config: Dictation, audio: Seq<u8>, voiced: Seq<bool>)
    requires
        config.min_speech_ms > 0,
        from.voiced_ms == 0,
        forall|i: int| 0 <= i < voiced.len() ==> !#[trigger] voiced[i],
    ensures
        from.hear_all(config, audio, voiced).0.voiced_ms == 0,
        from.hear_all(config, audio, voiced).1.len() == 0,
    decreases voiced.len(),
{
    if voiced.len() > 0 {
        assert(!voiced[voiced.len() - 1]);
        lemma_room_tone(from, config, audio, voiced.drop_last());
    }
}

/// Room tone is not worth a request: with no speech in it and some speech asked
/// for, an utterance sends nothing, not even when it is flushed.
pub proof fn law_room_tone_sends_nothing(
    from: ChunkerView,
    config: Dictation,
    pcm: Seq<u8>,
    voiced: Seq<bool>,
)
    requires
        config.min_speech_ms > 0,
        from.voiced_ms == 0,
        forall|i: int| 0 <= i < voiced.len() ==> !#[trigger] voiced[i],
    ensures
        ({
            let (after, sent) = from.push(config, pcm, voiced);
            &&& after.voiced_ms == 0
            &&& sent.len() == 0
            &&& after.flush(config).1.len() == 0
        }),
{
    lemma_room_tone(listening(from, pcm), config, heard(from, pcm), voiced);
}

/// Whether `piece` is a contiguous stretch of `whole`.
pub open spec fn stretch_of(piece: Seq<u8>, whole: Seq<u8>) -> bool {
    exists|at: int|
        0 <= at && at + piece.len() <= whole.len() && piece == #[trigger] whole.subrange(
            at,
            at + piece.len(),
        )
}

/// The audio of the cut utterances, one after the other.
pub open spec fn settled(sent: Seq<ChunkView>) -> Seq<u8>
    decreases sent.len(),
{
    if sent.len() == 0 {
        Seq::empty()
    } else if sent.last().final_ {
        settled(sent.drop_last()) + sent.last().pcm
    } else {
        settled(sent.drop_last())
    }
}

proof fn lemma_stretches(from: ChunkerView, config: Dictation, audio: Seq<u8>, voiced: Seq<bool>)
    requires
        from.wf(config),
        judged(from, audio, voiced),
    ensures
        ({
            let (after, sent) = from.hear_all(config, audio, voiced);
            let whole = from.buf + audio.take(voiced.len() as int * 640);
            &&& after.buf.is_suffix_of(whole)
            &&& forall|i: int| 0 <= i < sent.len() ==> stretch_of((#[trigger] sent[i]).pcm, whole)
            &&& config.min_speech_ms == 0 ==> settled(sent) + after.buf == whole
        }),
    decreases voiced.len(),
{
    let (after, sent) = from.hear_all(config, audio, voiced);
    let whole = from.buf + audio.take(voiced.len() as int * 640);
    if voiced.len() == 0 {
        assert(whole =~= from.buf);
        assert(settled(sent) + after.buf =~= whole);
    } else {
        lemma_stretches(from, config, audio, voiced.drop_last());
        lemma_hear_all(from, config, audio, voiced.drop_last());
        let (before, sent_before) = from.hear_all(config, audio, voiced.drop_last());
        let sound = frame(audio, voiced.len() - 1);
        let longer = before.with_frame(sound, voiced.last());
        let chunks = before.hear(config, sound, voiced.last()).1;
        let whole_before = from.buf + audio.take((voiced.len() - 1) * 640);
        assert(whole =~= whole_before + sound);
        assert(longer.buf =~= whole.skip(whole.len() - longer.buf.len()));
        assert forall|i: int| 0 <= i < sent.len() implies stretch_of(
            (#[trigger] sent[i]).pcm,
            whole,
        ) by {
            if i < sent_before.len() {
                assert(sent[i] == sent_before[i]);
                let piece = sent_before[i].pcm;
                let at = choose|at: int|
                    0 <= at && at + piece.len() <= whole_before.len() && piece
                        == #[trigger] whole_before.subrange(at, at + piece.len());
                assert(piece =~= whole.subrange(at, at + piece.len()));
            } else {
                assert(sent[i].pcm == longer.buf);
                let at = whole.len() - longer.buf.len();
                assert(longer.buf =~= whole.subrange(at, at + longer.buf.len()));
            }
        }
        if config.min_speech_ms == 0 {
            if chunks.len() == 0 {
                assert(sent =~= sent_before);
            } else {
                assert(sent.drop_last() =~= sent_before);
                assert(sent.last() == chunks[0]);
            }
            assert(settled(sent) + after.buf =~= whole);
        }
    }
}

/// No audio is made up: every chunk is a contiguous stretch of what was held
/// and heard, and what is still held is the end of it.
pub proof fn law_chunks_are_stretches_of_the_audio(
    from: ChunkerView,
    config: Dictation,
    pcm: Seq<u8>,
    voiced: Seq<bool>,
)
    requires
        from.wf(config),
        voiced.len() == from.audible(pcm.len() as int),
    ensures
        ({
            let (after, sent) = from.push(config, pcm, voiced);
            let whole = from.buf + heard(from, pcm).take(voiced.len() as int * 640);
            &&& after.buf.is_suffix_of(whole)
            &&& forall|i: int| 0 <= i < sent.len() ==> stretch_of((#[trigger] sent[i]).pcm, whole)
        }),
{
    lemma_push_hears(from, config, pcm, voiced);
    lemma_stretches(listening(from, pcm), config, heard(from, pcm), voiced);
}

/// No audio is lost where no speech is asked for: the cut utterances one after
/// the other, and then what is still held, are what was held and heard.
pub proof fn law_nothing_is_lost(
    from: ChunkerView,
    config: Dictation,
    pcm: Seq<u8>,
    voiced: Seq<bool>,
)
    requires
        from.wf(config),
        voiced.len() == from.audible(pcm.len() as int),
        config.min_speech_ms == 0,
    ensures
        ({
            let (after, sent) = from.push(config, pcm, voiced);
            settled(sent) + after.buf == from.buf + heard(from, pcm).take(
                voiced.len() as int * 640,
            )
        }),
{
    lemma_push_hears(from, config, pcm, voiced);
    lemma_stretches(listening(from, pcm), config, heard(from, pcm), voiced);
}

/// A flush keeps the last words and then has no more of them: where the
/// utterance is speech it sends all of it as a final, in any case it leaves
/// nothing held, and a second flush changes nothing.
pub proof fn law_flush(from: ChunkerView, config: Dictation)
    requires
        from.wf(config),
    ensures
        ({
            let (after, sent) = from.flush(config);
            &&& after.wf(config)
            &&& after.buf.len() == 0
            &&& after.carry == from.carry
            &&& from.buf.len() > 0 && from.is_speech(config) ==> sent == seq![from.chunk(true)]
            &&& from.buf.len() > 0 ==> after.generation == from.generation + 1
            &&& after.flush(config) == (after, Seq::<ChunkView>::empty())
        }),
{
}

} // verus!
