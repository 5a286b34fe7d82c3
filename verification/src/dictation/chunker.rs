//! Cutting a live microphone stream into utterances worth transcribing.
//!
//! Two things come out of here. A *final* chunk is a cut utterance whose text
//! is committed. A *preview* is the buffer so far, re-decoded while the speaker
//! is still talking, so words reach the screen roughly `partial_ms` behind the
//! mouth instead of a whole chunk behind.
//!
//! Whether a frame is speech or room noise is judged outside, by a gate that
//! computes in floating point: [`Chunker::audible_frames`] hands out the frames
//! to judge and [`Chunker::push`] takes the verdicts, one for each of them.
use vstd::prelude::*;
use vstd::string::StringSliceAdditionalSpecFns;

use crate::config::dictation::Dictation;

verus! {

/// Audio is captured as 16 kHz mono s16le, which is what whisper.cpp wants, so
/// nothing resamples on either end.
pub const SAMPLE_RATE: u32 = 16000;

pub const BYTES_PER_SAMPLE: usize = 2;

/// Length of one analysis frame.
pub const FRAME_MS: u32 = 20;

/// Bytes of one analysis frame: what `ms_to_bytes(FRAME_MS)` comes to.
pub const FRAME_BYTES: usize = 640;

/// Audio discarded at startup: opening a capture device produces a burst of
/// transients loud enough to read as speech.
pub const WARMUP_MS: u32 = 200;

/// How many bytes `ms` milliseconds of audio take.
pub open spec fn bytes_of(ms: int) -> int {
    (SAMPLE_RATE as int / 1000) * ms * BYTES_PER_SAMPLE
}

/// A millisecond of audio takes 32 bytes.
pub proof fn law_bytes_per_ms(ms: int)
    ensures
        bytes_of(ms) == 32 * ms,
{
    assert((SAMPLE_RATE as int / 1000) * ms == 16 * ms);
}

/// How many bytes `ms` milliseconds of audio take.
pub fn ms_to_bytes(ms: u32) -> (bytes: usize)
    requires
        bytes_of(ms as int) <= usize::MAX,
    ensures
        bytes == bytes_of(ms as int),
{
    (SAMPLE_RATE as usize / 1000) * ms as usize * BYTES_PER_SAMPLE
}

/// Same count as [`ms_to_bytes`], in a type that holds it for every `ms`.
fn wide_ms_to_bytes(ms: u32) -> (bytes: u64)
    ensures
        bytes == bytes_of(ms as int),
{
    let per_ms: u64 = SAMPLE_RATE as u64 / 1000 * BYTES_PER_SAMPLE as u64;
    assert(per_ms == 32);
    per_ms * ms as u64
}

/// A piece of audio the chunker decided is worth sending.
#[derive(Debug, Clone, PartialEq, Eq)]
pub struct Chunk {
    pub pcm: Vec<u8>,
    /// Which utterance this belongs to. Monotonic, so a preview whose
    /// generation has already been cut can be recognised as stale and dropped.
    pub generation: u64,
    /// Whether this is the settled utterance rather than a preview of one
    /// still being spoken.
    pub final_: bool,
}

/// What a [`Chunk`] says.
#[verifier::ext_equal]
pub struct ChunkView {
    pub pcm: Seq<u8>,
    pub generation: int,
    pub final_: bool,
}

impl View for Chunk {
    type V = ChunkView;

    open spec fn view(&self) -> ChunkView {
        ChunkView { pcm: self.pcm@, generation: self.generation as int, final_: self.final_ }
    }
}

/// What each chunk of a list says.
pub open spec fn views(chunks: Seq<Chunk>) -> Seq<ChunkView> {
    Seq::new(chunks.len(), |i: int| chunks[i]@)
}

/// The `i`-th frame of `audio`.
pub open spec fn frame(audio: Seq<u8>, i: int) -> Seq<u8> {
    audio.subrange(i * FRAME_BYTES, (i + 1) * FRAME_BYTES)
}

/// Where the chunker stands between two frames.
#[verifier::ext_equal]
pub struct ChunkerView {
    /// Audio still to be discarded, in milliseconds.
    pub warmup_left: int,
    /// Bytes that do not form a whole frame yet.
    pub carry: Seq<u8>,
    /// The utterance so far.
    pub buf: Seq<u8>,
    /// How long the speaker has been quiet.
    pub silent_ms: int,
    /// How much of the utterance is voiced.
    pub voiced_ms: int,
    /// How much of the utterance the last preview carried, in bytes.
    pub previewed: int,
    /// The utterance being filled.
    pub generation: int,
}

impl ChunkerView {
    /// Before any audio.
    pub open spec fn fresh() -> Self {
        ChunkerView {
            warmup_left: WARMUP_MS as int,
            carry: Seq::empty(),
            buf: Seq::empty(),
            silent_ms: 0,
            voiced_ms: 0,
            previewed: 0,
            generation: 0,
        }
    }

    /// Where an utterance is cut whether or not the speaker pauses, in bytes.
    pub open spec fn longest(config: Dictation) -> int {
        if config.max_chunk_ms >= config.chunk_ms {
            bytes_of(config.max_chunk_ms as int)
        } else {
            bytes_of(config.chunk_ms as int)
        }
    }

    /// What holds of a chunker between two calls.
    pub open spec fn wf(self, config: Dictation) -> bool {
        // The warmup is discarded a frame at a time.
        &&& 0 <= self.warmup_left <= WARMUP_MS
        &&& self.warmup_left % FRAME_MS as int == 0
        &&& self.warmup_left > 0 ==> self.buf.len() == 0
        // What is carried over does not make up a frame.
        &&& self.carry.len() < FRAME_BYTES
        // The utterance is made of whole frames, and is cut by its longest.
        &&& self.buf.len() % FRAME_BYTES as nat == 0
        &&& self.buf.len() == 0 || self.buf.len() < Self::longest(config)
        // The counters count frames of the utterance.
        &&& self.silent_ms >= 0
        &&& self.voiced_ms >= 0
        &&& bytes_of(self.silent_ms) <= self.buf.len()
        &&& bytes_of(self.voiced_ms) <= self.buf.len()
        &&& 0 <= self.previewed <= self.buf.len()
        &&& 0 <= self.generation
    }

    /// Whether the counters can take `extra` more bytes of audio: an utterance
    /// is measured in 32 bits' worth of milliseconds, and utterances are
    /// numbered in 64 bits.
    pub open spec fn has_room(self, extra: int) -> bool {
        &&& self.buf.len() + self.carry.len() + extra <= bytes_of(u32::MAX as int)
        &&& self.generation + self.whole_frames(extra) < u64::MAX
    }

    /// How many whole frames there are once `extra` more bytes have come in.
    pub open spec fn whole_frames(self, extra: int) -> int {
        (self.carry.len() + extra) / FRAME_BYTES as int
    }

    /// How many of those frames the warmup swallows.
    pub open spec fn swallowed(self, extra: int) -> int {
        let left = self.warmup_left / FRAME_MS as int;
        if self.whole_frames(extra) < left {
            self.whole_frames(extra)
        } else {
            left
        }
    }

    /// How many of those frames are heard.
    pub open spec fn audible(self, extra: int) -> int {
        self.whole_frames(extra) - self.swallowed(extra)
    }

    /// With one more frame in the utterance.
    pub open spec fn with_frame(self, sound: Seq<u8>, voiced: bool) -> Self {
        ChunkerView {
            buf: self.buf + sound,
            silent_ms: if voiced {
                0
            } else {
                self.silent_ms + FRAME_MS
            },
            voiced_ms: if voiced {
                self.voiced_ms + FRAME_MS
            } else {
                self.voiced_ms
            },
            ..self
        }
    }

    /// Whether the utterance ends here: enough audio and then a pause, or as
    /// much audio as an utterance may hold.
    pub open spec fn cut_due(self, config: Dictation) -> bool {
        ||| self.buf.len() >= bytes_of(config.chunk_ms as int) && self.silent_ms
            >= config.silence_ms
        ||| self.buf.len() >= Self::longest(config)
    }

    /// Whether enough of the utterance is voiced for it to be speech.
    pub open spec fn is_speech(self, config: Dictation) -> bool {
        self.voiced_ms >= config.min_speech_ms
    }

    /// Whether an utterance that goes on is worth a preview: previews are on,
    /// it is speech, and enough is new since the last preview.
    pub open spec fn preview_due(self, config: Dictation) -> bool {
        &&& config.partial_ms != 0
        &&& self.is_speech(config)
        &&& self.buf.len() - self.previewed >= bytes_of(config.partial_ms as int)
    }

    /// The utterance so far, as a chunk.
    pub open spec fn chunk(self, final_: bool) -> ChunkView {
        ChunkView { pcm: self.buf, generation: self.generation, final_ }
    }

    /// With the utterance over and the next one begun.
    pub open spec fn after_cut(self) -> Self {
        ChunkerView {
            buf: Seq::empty(),
            silent_ms: 0,
            voiced_ms: 0,
            previewed: 0,
            generation: self.generation + 1,
            ..self
        }
    }

    /// What a cut sends: the utterance where it is speech, otherwise nothing.
    pub open spec fn cut_chunks(self, config: Dictation) -> Seq<ChunkView> {
        if self.is_speech(config) {
            seq![self.chunk(true)]
        } else {
            Seq::empty()
        }
    }

    /// After one audible frame, and what it made the chunker send.
    pub open spec fn hear(self, config: Dictation, sound: Seq<u8>, voiced: bool) -> (
        Self,
        Seq<ChunkView>,
    ) {
        let longer = self.with_frame(sound, voiced);
        if longer.cut_due(config) {
            (longer.after_cut(), longer.cut_chunks(config))
        } else if longer.preview_due(config) {
            (
                ChunkerView { previewed: longer.buf.len() as int, ..longer },
                seq![longer.chunk(false)],
            )
        } else {
            (longer, Seq::empty())
        }
    }

    /// After the leading frames of `audio`, one for each verdict, and what they
    /// made the chunker send.
    pub open spec fn hear_all(self, config: Dictation, audio: Seq<u8>, voiced: Seq<bool>) -> (
        Self,
        Seq<ChunkView>,
    )
        decreases voiced.len(),
    {
        if voiced.len() == 0 {
            (self, Seq::empty())
        } else {
            let (before, sent) = self.hear_all(config, audio, voiced.drop_last());
            let (after, chunks) = before.hear(
                config,
                frame(audio, voiced.len() - 1),
                voiced.last(),
            );
            (after, sent + chunks)
        }
    }

    /// After `pcm`, and what it made the chunker send. `voiced` holds a verdict
    /// for each audible frame that `pcm` completes.
    pub open spec fn push(self, config: Dictation, pcm: Seq<u8>, voiced: Seq<bool>) -> (
        Self,
        Seq<ChunkView>,
    ) {
        let audio = self.carry + pcm;
        let n = pcm.len() as int;
        let listening = ChunkerView {
            warmup_left: self.warmup_left - self.swallowed(n) * FRAME_MS,
            carry: audio.skip(self.whole_frames(n) * FRAME_BYTES),
            ..self
        };
        listening.hear_all(config, audio.skip(self.swallowed(n) * FRAME_BYTES), voiced)
    }

    /// After the last utterance has been cut short, and what that sent.
    pub open spec fn flush(self, config: Dictation) -> (Self, Seq<ChunkView>) {
        if self.buf.len() == 0 {
            (self, Seq::empty())
        } else {
            (self.after_cut(), self.cut_chunks(config))
        }
    }
}

/// Splits raw PCM into utterance-sized pieces.
///
/// A chunk is cut once it holds at least `chunk_ms` of audio *and* the speaker
/// has gone quiet for `silence_ms`, or unconditionally at `max_chunk_ms` for
/// someone who never pauses. Cutting on silence rather than on a fixed clock
/// keeps words from being sliced in half mid-syllable.
#[derive(Debug)]
pub struct Chunker {
    config: Dictation,
    /// Bytes not yet forming a whole analysis frame: buffers come in arbitrary
    /// sizes.
    carry: Vec<u8>,
    buf: Vec<u8>,
    warmup_left: u32,
    silent_ms: u32,
    voiced_ms: u32,
    previewed: usize,
    generation: u64,
}

impl View for Chunker {
    type V = ChunkerView;

    closed spec fn view(&self) -> ChunkerView {
        ChunkerView {
            warmup_left: self.warmup_left as int,
            carry: self.carry@,
            buf: self.buf@,
            silent_ms: self.silent_ms as int,
            voiced_ms: self.voiced_ms as int,
            previewed: self.previewed as int,
            generation: self.generation as int,
        }
    }
}

impl Chunker {
    /// The settings that the chunker was made with.
    pub closed spec fn settings(&self) -> Dictation {
        self.config
    }

    /// What holds of a chunker between two calls.
    pub open spec fn wf(&self) -> bool {
        self@.wf(self.settings())
    }

    pub fn new(config: Dictation) -> (chunker: Self)
        ensures
            chunker.wf(),
            chunker.settings() == config,
            chunker@ == ChunkerView::fresh(),
    {
        Chunker {
            config,
            carry: Vec::new(),
            buf: Vec::new(),
            warmup_left: WARMUP_MS,
            silent_ms: 0,
            voiced_ms: 0,
            previewed: 0,
            generation: 0,
        }
    }

    /// The utterance being filled right now. Anything older has been cut.
    pub fn generation(&self) -> (generation: u64)
        ensures
            generation == self@.generation,
    {
        self.generation
    }

    /// Whether the counters can take `extra` more bytes of audio.
    pub fn has_room(&self, extra: usize) -> (room: bool)
        ensures
            room == self@.has_room(extra as int),
    {
        let limit: u64 = wide_ms_to_bytes(u32::MAX);
        let held: u128 = self.carry.len() as u128 + extra as u128;
        let whole: u128 = held / FRAME_BYTES as u128;
        self.buf.len() as u128 + held <= limit as u128 && u64::MAX as u128
            > self.generation as u128 + whole
    }

    /// The frames to judge before `pcm` is pushed: those it completes, without
    /// the ones that the warmup swallows.
    pub fn audible_frames(&self, pcm: &[u8]) -> (frames: Vec<Vec<u8>>)
        requires
            self.wf(),
        ensures
            frames@.len() == self@.audible(pcm@.len() as int),
            forall|i: int|
                0 <= i < frames@.len() ==> (#[trigger] frames@[i])@ == frame(
                    self@.carry + pcm@,
                    self@.swallowed(pcm@.len() as int) + i,
                ),
    {
        let mut audio: Vec<u8> = vstd::slice::slice_to_vec(self.carry.as_slice());
        audio.extend_from_slice(pcm);
        assert(audio@ =~= self@.carry + pcm@);
        let whole: usize = audio.len() / FRAME_BYTES;
        let left: usize = (self.warmup_left / FRAME_MS) as usize;
        let swallowed: usize = if whole < left {
            whole
        } else {
            left
        };

        let mut frames: Vec<Vec<u8>> = Vec::new();
        let mut at: usize = swallowed;
        while at < whole
            invariant
                swallowed <= at <= whole,
                whole * 640 <= audio@.len(),
                frames@.len() == at - swallowed,
                forall|i: int|
                    0 <= i < frames@.len() ==> (#[trigger] frames@[i])@ == frame(
                        audio@,
                        swallowed + i,
                    ),
            decreases whole - at,
        {
            assert(640 * at + 640 <= 640 * whole <= audio.len());
            let sound = vstd::slice::slice_subrange(
                audio.as_slice(),
                at * FRAME_BYTES,
                (at + 1) * FRAME_BYTES,
            );
            frames.push(vstd::slice::slice_to_vec(sound));
            at = at + 1;
        }
        frames
    }

    /// Feed captured audio in, take chunks worth sending out. `voiced` says of
    /// each frame of [`Chunker::audible_frames`] whether it is speech.
    pub fn push(&mut self, pcm: &[u8], voiced: &[bool], out: &mut Vec<Chunk>)
        requires
            old(self).wf(),
            old(self)@.has_room(pcm@.len() as int),
            voiced@.len() == old(self)@.audible(pcm@.len() as int),
        ensures
            final(self).wf(),
            final(self).settings() == old(self).settings(),
            (final(self)@, views(final(out)@)) == ({
                let (after, sent) = old(self)@.push(old(self).settings(), pcm@, voiced@);
                (after, views(old(out)@) + sent)
            }),
    {
        let mut audio: Vec<u8> = Vec::new();
        std::mem::swap(&mut audio, &mut self.carry);
        audio.extend_from_slice(pcm);
        let ghost start = old(self)@;
        let ghost n = pcm@.len() as int;
        let ghost all = start.carry + pcm@;
        assert(audio@ =~= all);

        let whole: usize = audio.len() / FRAME_BYTES;
        self.carry = audio.split_off(whole * FRAME_BYTES);
        let ghost swallowed = start.swallowed(n);
        assert(self.carry@ =~= all.skip(whole * FRAME_BYTES));

        // The warmup goes unheard.
        let mut at: usize = 0;
        while self.warmup_left > 0 && at < whole
            invariant
                0 <= at <= swallowed,
                start.wf(self.config),
                whole == start.whole_frames(n),
                swallowed == start.swallowed(n),
                self@ == (ChunkerView {
                    warmup_left: start.warmup_left - at * FRAME_MS,
                    carry: all.skip(whole * FRAME_BYTES),
                    ..start
                }),
                self.config == old(self).config,
            decreases whole - at,
        {
            self.warmup_left = self.warmup_left.saturating_sub(FRAME_MS);
            at = at + 1;
            assert(self@ =~= ChunkerView {
                warmup_left: start.warmup_left - at * FRAME_MS,
                carry: all.skip(whole * FRAME_BYTES),
                ..start
            });
        }
        let ghost listening = self@;
        let ghost audible = all.skip(swallowed * FRAME_BYTES);

        let mut heard: usize = 0;
        while at < whole
            invariant
                at == swallowed + heard,
                at <= whole,
                whole == start.whole_frames(n),
                voiced@.len() == whole - swallowed,
                whole * 640 <= all.len(),
                audio@ == all.take(whole * 640),
                all.len() == start.carry.len() + n,
                audible == all.skip(swallowed * 640),
                0 <= swallowed,
                self.wf(),
                self.config == old(self).config,
                at < whole ==> self@.warmup_left == 0,
                self@.buf.len() <= start.buf.len() + heard * 640,
                self@.generation <= start.generation + heard,
                start.has_room(n),
                (self@, views(out@)) == ({
                    let (after, sent) = listening.hear_all(
                        self.config,
                        audible,
                        voiced@.take(heard as int),
                    );
                    (after, views(old(out)@) + sent)
                }),
            decreases whole - at,
        {
            assert(640 * at + 640 <= 640 * whole == audio.len());
            let sound = vstd::slice::slice_subrange(
                audio.as_slice(),
                at * FRAME_BYTES,
                (at + 1) * FRAME_BYTES,
            );
            assert(sound@ =~= frame(audible, heard as int));
            self.push_frame(sound, voiced[heard], out);
            at = at + 1;
            heard = heard + 1;
            assert(voiced@.take(heard as int).drop_last() =~= voiced@.take(heard - 1));
        }
        assert(voiced@.take(heard as int) =~= voiced@);
    }

    /// Cut whatever is buffered, for when dictation is being stopped and the
    /// last words would otherwise be lost.
    pub fn flush(&mut self, out: &mut Vec<Chunk>)
        requires
            old(self).wf(),
            old(self)@.generation < u64::MAX,
        ensures
            final(self).wf(),
            final(self).settings() == old(self).settings(),
            (final(self)@, views(final(out)@)) == ({
                let (after, sent) = old(self)@.flush(old(self).settings());
                (after, views(old(out)@) + sent)
            }),
    {
        if self.buf.len() > 0 {
            self.emit(out);
        } else {
            assert(views(out@) =~= views(old(out)@) + Seq::<ChunkView>::empty());
        }
    }

    fn push_frame(&mut self, sound: &[u8], voiced: bool, out: &mut Vec<Chunk>)
        requires
            old(self).wf(),
            old(self)@.warmup_left == 0,
            sound@.len() == FRAME_BYTES,
            old(self)@.buf.len() + FRAME_BYTES <= bytes_of(u32::MAX as int),
            old(self)@.generation < u64::MAX,
        ensures
            final(self).wf(),
            final(self).settings() == old(self).settings(),
            (final(self)@, views(final(out)@)) == ({
                let (after, sent) = old(self)@.hear(old(self).settings(), sound@, voiced);
                (after, views(old(out)@) + sent)
            }),
    {
        self.buf.extend_from_slice(sound);
        assert(self.buf@ =~= old(self).buf@ + sound@);

        if voiced {
            self.silent_ms = 0;
            self.voiced_ms = self.voiced_ms + FRAME_MS;
        } else {
            self.silent_ms = self.silent_ms + FRAME_MS;
        }
        let ghost longer = old(self)@.with_frame(sound@, voiced);
        assert(self@ =~= longer);

        let held: u64 = self.buf.len() as u64;
        let min_bytes: u64 = wide_ms_to_bytes(self.config.chunk_ms);
        let forced_bytes: u64 = wide_ms_to_bytes(self.config.max_chunk_ms);
        let max_bytes: u64 = if forced_bytes < min_bytes {
            min_bytes
        } else {
            forced_bytes
        };

        let at_pause = held >= min_bytes && self.silent_ms >= self.config.silence_ms;
        if at_pause || held >= max_bytes {
            self.emit(out);
            return;
        }
        // Preview what has been said so far. The whole buffer is re-decoded
        // rather than just the newest slice: whisper needs the full utterance
        // to get the words right, so the preview grows and corrects itself in
        // place instead of arriving as disconnected fragments.

        assert(views(out@) =~= views(old(out)@) + Seq::<ChunkView>::empty());
        if self.config.partial_ms == 0 || self.voiced_ms < self.config.min_speech_ms {
            return;
        }
        if (self.buf.len() - self.previewed) as u64 >= wide_ms_to_bytes(self.config.partial_ms) {
            self.previewed = self.buf.len();
            let pcm = vstd::slice::slice_to_vec(self.buf.as_slice());
            out.push(Chunk { pcm, generation: self.generation, final_: false });
            assert(views(out@) =~= views(old(out)@) + seq![longer.chunk(false)]);
        }
    }

    fn emit(&mut self, out: &mut Vec<Chunk>)
        requires
            old(self)@.generation < u64::MAX,
        ensures
            final(self).settings() == old(self).settings(),
            final(self)@ == old(self)@.after_cut(),
            views(final(out)@) == views(old(out)@) + old(self)@.cut_chunks(old(self).settings()),
    {
        let mut pcm: Vec<u8> = Vec::new();
        std::mem::swap(&mut pcm, &mut self.buf);
        // A lone transient - a click, a chair, a keystroke - is not speech.
        // Require a real run of voiced audio before spending a request on a
        // chunk, or the server hallucinates words over the noise.
        if self.voiced_ms >= self.config.min_speech_ms {
            out.push(Chunk { pcm, generation: self.generation, final_: true });
        }
        assert(views(out@) =~= views(old(out)@) + old(self)@.cut_chunks(old(self).settings()));

        // Advance the generation even when the chunk was dropped: either way
        // this utterance is over and any preview of it is now stale.
        self.generation = self.generation + 1;
        self.silent_ms = 0;
        self.voiced_ms = 0;
        self.previewed = 0;
        assert(self@ =~= old(self)@.after_cut());
    }
}

/// The `i`-th sample of s16le audio.
pub open spec fn sample(audio: Seq<u8>, i: int) -> int {
    let low = audio[i * BYTES_PER_SAMPLE] as int;
    let high = audio[i * BYTES_PER_SAMPLE + 1] as int;
    if high < 128 {
        high * 256 + low
    } else {
        high * 256 + low - 65536
    }
}

/// The sum of the squares of the first `n` samples of s16le audio.
pub open spec fn sum_of_squares(audio: Seq<u8>, n: nat) -> int
    decreases n,
{
    if n == 0 {
        0
    } else {
        sum_of_squares(audio, (n - 1) as nat) + sample(audio, n - 1) * sample(audio, n - 1)
    }
}

/// The energy of a stretch of s16le audio: the sum of the squares of its samples,
/// without a trailing odd byte.
pub open spec fn energy_of(audio: Seq<u8>) -> int {
    sum_of_squares(audio, audio.len() / BYTES_PER_SAMPLE as nat)
}

/// The energy of a stretch of s16le audio: the sum of the squares of its
/// samples. Its loudness is the root of the mean of these squares; a trailing
/// odd byte is no sample.
pub fn energy(audio: &[u8]) -> (sum: u128)
    ensures
        sum == sum_of_squares(audio@, audio@.len() / BYTES_PER_SAMPLE as nat),
        sum == energy_of(audio@),
{
    let mut sum: u128 = 0;
    let samples: usize = audio.len() / BYTES_PER_SAMPLE;
    let mut i: usize = 0;
    while i < samples
        invariant
            i <= samples,
            samples == audio@.len() / BYTES_PER_SAMPLE as nat,
            sum == sum_of_squares(audio@, i as nat),
            sum <= i * 0x4000_0000,
        decreases samples - i,
    {
        assert(2 * i + 1 < audio.len());
        let low: i32 = audio[i * BYTES_PER_SAMPLE] as i32;
        let high: i32 = audio[i * BYTES_PER_SAMPLE + 1] as i32;
        let value: i32 = if high < 128 {
            high * 256 + low
        } else {
            high * 256 + low - 65536
        };
        assert(value == sample(audio@, i as int));
        assert(0 <= value * value <= 0x4000_0000) by (nonlinear_arith)
            requires
                -32768 <= value <= 32767,
        ;
        sum = sum + (value * value) as u128;
        i = i + 1;
    }
    sum
}

/// The bytes of a number of `width` bytes, least significant first.
pub open spec fn le_bytes(value: int, width: nat) -> Seq<u8>
    decreases width,
{
    if width == 0 {
        Seq::empty()
    } else {
        seq![(value % 256) as u8] + le_bytes(value / 256, (width - 1) as nat)
    }
}

/// The 44-byte RIFF header for a mono 16 kHz s16le payload of `data_len` bytes.
pub open spec fn riff_header(data_len: int) -> Seq<u8> {
    "RIFF".spec_bytes() + le_bytes(36 + data_len, 4) + "WAVEfmt ".spec_bytes()
    // Size of the format block.
     + le_bytes(16, 4)
    // PCM, one channel.
     + le_bytes(1, 2) + le_bytes(1, 2)
    // Samples and bytes per second.
     + le_bytes(SAMPLE_RATE as int, 4) + le_bytes(SAMPLE_RATE * BYTES_PER_SAMPLE, 4)
    // Bytes and bits per sample.
     + le_bytes(BYTES_PER_SAMPLE as int, 2) + le_bytes(8 * BYTES_PER_SAMPLE, 2)
        + "data".spec_bytes() + le_bytes(data_len, 4)
}

fn put_u16(bytes: &mut Vec<u8>, value: u16)
    ensures
        final(bytes)@ == old(bytes)@ + le_bytes(value as int, 2),
{
    reveal_with_fuel(le_bytes, 3);
    bytes.push((value % 256) as u8);
    bytes.push((value / 256) as u8);
    assert(bytes@ =~= old(bytes)@ + le_bytes(value as int, 2));
}

fn put_u32(bytes: &mut Vec<u8>, value: u32)
    ensures
        final(bytes)@ == old(bytes)@ + le_bytes(value as int, 4),
{
    reveal_with_fuel(le_bytes, 5);
    bytes.push((value % 256) as u8);
    bytes.push((value / 256 % 256) as u8);
    bytes.push((value / 256 / 256 % 256) as u8);
    bytes.push((value / 256 / 256 / 256) as u8);
    assert(bytes@ =~= old(bytes)@ + le_bytes(value as int, 4));
}

/// Append the bytes of a text.
pub(crate) fn put_str(bytes: &mut Vec<u8>, text: &str)
    ensures
        final(bytes)@ == old(bytes)@ + text.spec_bytes(),
{
    bytes.extend_from_slice(text.as_bytes());
    assert(bytes@ =~= old(bytes)@ + text.spec_bytes());
}

/// Only the low bytes of a number count.
proof fn lemma_low_bytes(value: int, turns: int)
    requires
        0 <= value,
        0 <= turns,
    ensures
        le_bytes(value + turns * 0x1_0000_0000, 4) == le_bytes(value, 4),
{
    reveal_with_fuel(le_bytes, 5);
    let more = value + turns * 0x1_0000_0000;
    assert(more % 256 == value % 256);
    assert(more / 256 == value / 256 + turns * 0x100_0000);
    assert(more / 256 / 256 == value / 256 / 256 + turns * 0x1_0000);
    assert(more / 256 / 256 / 256 == value / 256 / 256 / 256 + turns * 0x100);
}

/// The 44-byte RIFF header for a mono 16 kHz s16le payload. A RIFF file counts
/// in 32 bits, so of a longer payload the header holds the low bits.
pub fn wav_header(data_len: usize) -> (header: Vec<u8>)
    requires
        36 + data_len as int % 0x1_0000_0000 <= u32::MAX,
    ensures
        header@ == riff_header(data_len as int),
{
    let data_size: u32 = (data_len as u64 % 0x1_0000_0000) as u32;
    proof {
        let turns = data_len as int / 0x1_0000_0000;
        lemma_low_bytes(data_size as int, turns);
        lemma_low_bytes(36 + data_size, turns);
    }
    let byte_rate: u32 = SAMPLE_RATE * BYTES_PER_SAMPLE as u32;
    let mut header: Vec<u8> = Vec::with_capacity(44);
    put_str(&mut header, "RIFF");
    put_u32(&mut header, 36 + data_size);
    put_str(&mut header, "WAVEfmt ");
    put_u32(&mut header, 16);
    put_u16(&mut header, 1);
    put_u16(&mut header, 1);
    put_u32(&mut header, SAMPLE_RATE);
    put_u32(&mut header, byte_rate);
    put_u16(&mut header, BYTES_PER_SAMPLE as u16);
    put_u16(&mut header, 8 * BYTES_PER_SAMPLE as u16);
    put_str(&mut header, "data");
    put_u32(&mut header, data_size);
    assert(header@ =~= riff_header(data_len as int));
    header
}

} // verus!
