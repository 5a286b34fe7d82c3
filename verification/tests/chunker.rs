use niri_dictation::config::dictation::Dictation;
use niri_dictation::dictation::chunker::{
    energy, ms_to_bytes, wav_header, Chunk, Chunker, BYTES_PER_SAMPLE, FRAME_BYTES, FRAME_MS,
    SAMPLE_RATE, WARMUP_MS,
};

/// Decides whether a frame is speech or room noise, with a threshold that floats
/// at three times the measured noise floor.
struct SilenceGate {
    floor: f64,
    min: f64,
    seen: bool,
}

impl SilenceGate {
    fn voiced(&mut self, level: f64) -> bool {
        if !self.seen || level < self.floor {
            self.floor = level;
            self.seen = true;
        } else {
            self.floor += (level - self.floor) * 0.0005;
        }
        level > (self.floor * 3.).max(self.min)
    }
}

fn rms(frame: &[u8]) -> f64 {
    let n = frame.len() / BYTES_PER_SAMPLE;
    (energy(frame) as f64 / n as f64).sqrt()
}

/// A chunker and what judges its frames.
struct Listener {
    chunker: Chunker,
    gate: SilenceGate,
}

impl Listener {
    fn new(config: Dictation) -> Self {
        let min = f64::from(config.min_speech_rms);
        Self {
            chunker: Chunker::new(config),
            gate: SilenceGate {
                floor: 0.,
                min,
                seen: false,
            },
        }
    }

    fn push(&mut self, pcm: &[u8], out: &mut Vec<Chunk>) {
        assert!(self.chunker.has_room(pcm.len()));
        let voiced: Vec<bool> = self
            .chunker
            .audible_frames(pcm)
            .iter()
            .map(|frame| self.gate.voiced(rms(frame)))
            .collect();
        self.chunker.push(pcm, &voiced, out);
    }

    fn generation(&self) -> u64 {
        self.chunker.generation()
    }
}

fn config() -> Dictation {
    Dictation {
        chunk_ms: 1000,
        max_chunk_ms: 2000,
        silence_ms: 200,
        min_speech_ms: 100,
        min_speech_rms: 120,
        partial_ms: 400,
        ..Dictation::default()
    }
}

/// Loud enough to clear the noise floor.
fn speech(ms: u32) -> Vec<u8> {
    let samples = (SAMPLE_RATE as usize / 1000) * ms as usize;
    (0..samples)
        .flat_map(|i| {
            let v = if i % 2 == 0 { 8000i16 } else { -8000i16 };
            v.to_le_bytes()
        })
        .collect()
}

fn silence(ms: u32) -> Vec<u8> {
    vec![0; ms_to_bytes(ms)]
}

/// Get past the warmup discard *and* hear some room tone.
fn warmed(chunker: &mut Listener) {
    let mut out = Vec::new();
    chunker.push(&silence(WARMUP_MS + 200), &mut out);
    out.clear();
}

#[test]
fn cuts_at_a_pause_after_enough_audio() {
    let mut chunker = Listener::new(config());
    warmed(&mut chunker);

    let mut out = Vec::new();
    chunker.push(&speech(1200), &mut out);
    assert!(
        !out.iter().any(|c| c.final_),
        "should not cut while still talking"
    );

    out.clear();
    chunker.push(&silence(300), &mut out);

    let finals: Vec<_> = out.iter().filter(|c| c.final_).collect();
    assert_eq!(
        finals.len(),
        1,
        "a pause after enough audio should cut once"
    );
}

#[test]
fn forces_a_cut_for_someone_who_never_pauses() {
    let mut chunker = Listener::new(config());
    warmed(&mut chunker);

    let mut out = Vec::new();
    chunker.push(&speech(5000), &mut out);

    let finals = out.iter().filter(|c| c.final_).count();
    assert!(finals >= 2, "max_chunk_ms should force cuts, got {finals}");
}

#[test]
fn drops_a_chunk_with_no_speech_in_it() {
    let mut chunker = Listener::new(config());
    warmed(&mut chunker);

    let mut out = Vec::new();
    chunker.push(&silence(3000), &mut out);

    assert!(
        out.is_empty(),
        "room tone is not worth a request, got {} chunks",
        out.len()
    );
}

#[test]
fn previews_while_the_utterance_is_still_open() {
    let mut chunker = Listener::new(config());
    warmed(&mut chunker);

    let mut out = Vec::new();
    chunker.push(&speech(900), &mut out);

    let previews: Vec<_> = out.iter().filter(|c| !c.final_).collect();
    assert!(!previews.is_empty(), "expected a preview before the cut");
    // Each preview carries the whole utterance so far, so they grow.
    for pair in previews.windows(2) {
        assert!(
            pair[1].pcm.len() > pair[0].pcm.len(),
            "previews should grow, not fragment"
        );
    }
}

/// A preview and the final that supersedes it must be distinguishable, or
/// stale text lands on top of real text.
#[test]
fn generation_advances_on_every_cut() {
    let mut chunker = Listener::new(config());
    warmed(&mut chunker);

    let mut out = Vec::new();
    chunker.push(&speech(1200), &mut out);
    chunker.push(&silence(300), &mut out);

    let first = chunker.generation();
    assert!(out.iter().any(|c| c.final_ && c.generation < first));

    out.clear();
    chunker.push(&speech(1200), &mut out);
    chunker.push(&silence(300), &mut out);
    assert!(chunker.generation() > first, "generation must be monotonic");
}

#[test]
fn partial_ms_zero_disables_previews() {
    let mut chunker = Listener::new(Dictation {
        partial_ms: 0,
        ..config()
    });
    warmed(&mut chunker);

    let mut out = Vec::new();
    chunker.push(&speech(1800), &mut out);

    assert!(out.iter().all(|c| c.final_), "previews should be off");
}

#[test]
fn wav_header_describes_the_payload() {
    let h = wav_header(32000);
    assert_eq!(&h[0..4], b"RIFF");
    assert_eq!(&h[8..12], b"WAVE");
    assert_eq!(h.len(), 44);
    assert_eq!(u32::from_le_bytes([h[40], h[41], h[42], h[43]]), 32000);
    // 16 kHz, mono, 16-bit.
    assert_eq!(
        u32::from_le_bytes([h[24], h[25], h[26], h[27]]),
        SAMPLE_RATE
    );
    assert_eq!(u16::from_le_bytes([h[22], h[23]]), 1);
}

#[test]
fn wav_header_is_exact() {
    assert_eq!(
        wav_header(0x0102),
        b"RIFF\x26\x01\x00\x00WAVEfmt \x10\x00\x00\x00\x01\x00\x01\x00\
          \x80\x3e\x00\x00\x00\x7d\x00\x00\x02\x00\x10\x00data\x02\x01\x00\x00"
    );
}

#[test]
fn wav_header_keeps_the_low_bits_of_a_long_payload() {
    if usize::BITS > 32 {
        let h = wav_header(0x1_0000_0005);
        assert_eq!(u32::from_le_bytes([h[4], h[5], h[6], h[7]]), 41);
        assert_eq!(u32::from_le_bytes([h[40], h[41], h[42], h[43]]), 5);
    }
}

#[test]
fn a_millisecond_takes_32_bytes() {
    assert_eq!(ms_to_bytes(0), 0);
    assert_eq!(ms_to_bytes(1), 32);
    assert_eq!(ms_to_bytes(FRAME_MS), FRAME_BYTES);
    assert_eq!(ms_to_bytes(3000), 96000);
}

#[test]
fn energy_sums_the_squares_of_the_samples() {
    assert_eq!(energy(&[]), 0);
    assert_eq!(energy(&[7]), 0);
    // 1, -1, and half a sample.
    assert_eq!(energy(&[1, 0, 0xff, 0xff, 9]), 2);
    assert_eq!(energy(&[0x00, 0x80]), 32768 * 32768);
    assert_eq!(energy(&[0xff, 0x7f, 0x2c, 0x01]), 32767 * 32767 + 300 * 300);
    assert_eq!(rms(&speech(20)), 8000.);
}

/// All frames of a buffer with the same verdict.
fn push_all(chunker: &mut Chunker, pcm: &[u8], voiced: bool, out: &mut Vec<Chunk>) {
    let verdicts = vec![voiced; chunker.audible_frames(pcm).len()];
    chunker.push(pcm, &verdicts, out);
}

fn past_the_warmup(config: Dictation) -> Chunker {
    let mut chunker = Chunker::new(config);
    let mut out = Vec::new();
    push_all(&mut chunker, &silence(WARMUP_MS), true, &mut out);
    assert!(out.is_empty());
    chunker
}

#[test]
fn the_warmup_is_not_heard() {
    let mut chunker = Chunker::new(config());
    assert!(chunker.audible_frames(&speech(WARMUP_MS)).is_empty());
    assert_eq!(chunker.audible_frames(&speech(WARMUP_MS + 40)).len(), 2);
    let mut out = Vec::new();
    push_all(&mut chunker, &speech(WARMUP_MS), true, &mut out);
    chunker.flush(&mut out);
    assert!(out.is_empty());
    assert_eq!(chunker.generation(), 0);
}

#[test]
fn buffer_sizes_do_not_matter() {
    let audio: Vec<u8> = (0..ms_to_bytes(2500)).map(|i| (i % 251) as u8).collect();

    let mut whole = Chunker::new(config());
    let mut at_once = Vec::new();
    push_all(&mut whole, &audio, true, &mut at_once);

    let mut piecemeal = Chunker::new(config());
    let mut in_pieces = Vec::new();
    for piece in audio.chunks(77) {
        push_all(&mut piecemeal, piece, true, &mut in_pieces);
    }

    assert_eq!(at_once, in_pieces);
    assert_eq!(whole.generation(), piecemeal.generation());
    assert!(at_once.iter().any(|c| c.final_));
}

#[test]
fn frames_are_handed_out_in_order() {
    let mut chunker = past_the_warmup(config());
    let mut out = Vec::new();
    push_all(&mut chunker, &[1; 10], true, &mut out);
    let mut pcm = vec![2; FRAME_BYTES - 10];
    pcm.extend_from_slice(&[3; FRAME_BYTES]);
    pcm.push(4);
    let frames = chunker.audible_frames(&pcm);
    assert_eq!(frames.len(), 2);
    assert_eq!(frames[0][..10], [1; 10]);
    assert_eq!(frames[0][10..], pcm[..FRAME_BYTES - 10]);
    assert_eq!(frames[1], vec![3; FRAME_BYTES]);
}

#[test]
fn previews_come_every_partial_ms() {
    let mut chunker = past_the_warmup(config());
    let mut out = Vec::new();
    push_all(&mut chunker, &speech(980), true, &mut out);
    let lengths: Vec<usize> = out.iter().map(|c| c.pcm.len()).collect();
    assert_eq!(lengths, [ms_to_bytes(400), ms_to_bytes(800)]);
    assert!(out.iter().all(|c| !c.final_ && c.generation == 0));
}

#[test]
fn the_longest_utterance_is_cut_at_its_length() {
    let mut chunker = past_the_warmup(Dictation {
        partial_ms: 0,
        ..config()
    });
    let mut out = Vec::new();
    push_all(&mut chunker, &speech(4500), true, &mut out);
    assert_eq!(out.len(), 2);
    assert_eq!(out[0].pcm.len(), ms_to_bytes(2000));
    assert_eq!(out[1].pcm.len(), ms_to_bytes(2000));
    assert_eq!((out[0].generation, out[1].generation), (0, 1));
    assert_eq!(chunker.generation(), 2);
}

#[test]
fn max_chunk_ms_is_never_below_chunk_ms() {
    let mut chunker = past_the_warmup(Dictation {
        max_chunk_ms: 10,
        partial_ms: 0,
        ..config()
    });
    let mut out = Vec::new();
    push_all(&mut chunker, &speech(1000), true, &mut out);
    assert_eq!(out.len(), 1);
    assert_eq!(out[0].pcm.len(), ms_to_bytes(1000));
}

#[test]
fn a_pause_cuts_once_it_is_long_enough() {
    let mut chunker = past_the_warmup(Dictation {
        partial_ms: 0,
        ..config()
    });
    let mut out = Vec::new();
    push_all(&mut chunker, &speech(1000), true, &mut out);
    push_all(&mut chunker, &silence(180), false, &mut out);
    assert!(out.is_empty());
    push_all(&mut chunker, &silence(20), false, &mut out);
    assert_eq!(out.len(), 1);
    assert_eq!(out[0].pcm.len(), ms_to_bytes(1200));
    assert!(out[0].final_);
}

#[test]
fn a_click_is_not_speech() {
    let mut chunker = past_the_warmup(config());
    let mut out = Vec::new();
    push_all(&mut chunker, &speech(80), true, &mut out);
    push_all(&mut chunker, &silence(1500), false, &mut out);
    assert!(out.is_empty());
    // The utterance is over all the same.
    assert_eq!(chunker.generation(), 1);
}

#[test]
fn a_flush_keeps_the_last_words() {
    let mut chunker = past_the_warmup(config());
    let mut out = Vec::new();
    push_all(&mut chunker, &speech(100), true, &mut out);
    assert!(out.is_empty());
    chunker.flush(&mut out);
    assert_eq!(
        out,
        [Chunk {
            pcm: speech(100),
            generation: 0,
            final_: true
        }]
    );
    chunker.flush(&mut out);
    assert_eq!(out.len(), 1);
    assert_eq!(chunker.generation(), 1);
}

#[test]
fn nothing_is_lost_between_cuts() {
    let mut chunker = past_the_warmup(Dictation {
        min_speech_ms: 0,
        partial_ms: 0,
        ..config()
    });
    let audio: Vec<u8> = (0..ms_to_bytes(7000)).map(|i| (i % 253) as u8).collect();
    let mut out = Vec::new();
    push_all(&mut chunker, &audio, false, &mut out);
    chunker.flush(&mut out);
    assert!(out.len() > 3);
    let joined: Vec<u8> = out.into_iter().flat_map(|c| c.pcm).collect();
    assert_eq!(joined, audio);
}

#[test]
fn room_runs_out_far_away() {
    let chunker = Chunker::new(config());
    assert!(chunker.has_room(ms_to_bytes(60_000)));
    assert!(!chunker.has_room(usize::MAX));
}
