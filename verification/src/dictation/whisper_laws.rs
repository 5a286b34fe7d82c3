//! What holds of transcripts and of the lanes that fetch them.
use vstd::prelude::*;

use crate::dictation::chunker::ChunkView;
use crate::dictation::effect::EffectView;
use crate::dictation::whisper::{
    alphabetic, carries_on, cleaned, fetched, filling_after, hallucination, lettered, lowercase,
    message, queued, said, said_lines, worth_previewing, Lanes, TranscriptView,
};
use crate::text::{lines_of, spaced, trimmed, trimmed_end, trimmed_start, white_space};

verus! {

/// The utterance being filled never goes back.
pub proof fn law_filling_never_goes_back(filling: int, chunk: ChunkView)
    ensures
        filling_after(filling, chunk) >= filling,
        filling_after(filling, chunk) >= chunk.generation,
{
}

/// Once a settled utterance is on its way, no preview of it or of an earlier one
/// is worth a request, however much is queued after it.
pub proof fn law_a_settled_utterance_needs_no_preview(
    filling: int,
    settled: ChunkView,
    later: int,
    preview: ChunkView,
)
    requires
        settled.final_,
        later >= filling_after(filling, settled),
        preview.generation <= settled.generation,
    ensures
        !worth_previewing(preview, later),
{
}

/// The previews of the utterance being filled are worth a request.
pub proof fn law_an_open_utterance_is_previewed(filling: int, preview: ChunkView)
    requires
        !preview.final_,
        preview.generation >= filling,
    ensures
        worth_previewing(preview, filling_after(filling, preview)),
{
}

/// Words are not lost in silence: the outcome of a settled utterance is reported,
/// its text or the failure, and a failed preview says nothing.
pub proof fn law_settled_utterances_are_answered(
    chunk: ChunkView,
    result: Result<Seq<char>, Seq<char>>,
)
    ensures
        chunk.final_ ==> message(chunk, result) is Some,
        !chunk.final_ ==> (message(chunk, result) is Some) == (result is Ok),
        message(chunk, result) matches Some(TranscriptView::Final { generation, .. })
            ==> chunk.final_ && generation == chunk.generation,
        message(chunk, result) matches Some(TranscriptView::Preview { generation, .. })
            ==> !chunk.final_ && generation == chunk.generation,
{
}

/// What came of one request of a lane: what the server answered, and whether what
/// the lane said about it arrived.
pub struct Answer {
    pub result: Result<Seq<char>, Seq<char>>,
    pub arrived: bool,
}

/// Whether a lane goes on after a chunk.
pub open spec fn went_on(chunk: ChunkView, answer: Answer) -> bool {
    carries_on(chunk, answer.result, answer.arrived)
}

/// What a lane says that takes chunks one after the other, each with its answer,
/// for as long as it goes on.
pub open spec fn lane_says(chunks: Seq<ChunkView>, answers: Seq<Answer>) -> Seq<TranscriptView>
    decreases chunks.len(),
{
    if chunks.len() == 0 {
        Seq::empty()
    } else {
        let said = match message(chunks[0], answers[0].result) {
            Some(transcript) => seq![transcript],
            None => Seq::empty(),
        };
        if went_on(chunks[0], answers[0]) {
            said + lane_says(chunks.drop_first(), answers.drop_first())
        } else {
            said
        }
    }
}

/// Settled text is never dropped, doubled or reordered: the lane of the settled
/// utterances answers each once, in the order in which they were sent and with its
/// own text and number, up to and with the first that fails or that nobody
/// listens to.
pub proof fn law_finals_are_answered_once_and_in_order(
    chunks: Seq<ChunkView>,
    answers: Seq<Answer>,
)
    requires
        chunks.len() == answers.len(),
        forall|i: int| 0 <= i < chunks.len() ==> (#[trigger] chunks[i]).final_,
    ensures
        ({
            let said = lane_says(chunks, answers);
            let n = said.len() as int;
            &&& n <= chunks.len()
            &&& forall|i: int|
                0 <= i < n ==> #[trigger] said[i] == (match answers[i].result {
                    Ok(text) => TranscriptView::Final { text, generation: chunks[i].generation },
                    Err(err) => TranscriptView::Failed(err),
                })
            &&& forall|i: int|
                0 <= i < n - 1 ==> (#[trigger] answers[i]).result is Ok && answers[i].arrived
            &&& n < chunks.len() ==> n > 0 && (answers[n - 1].result is Err || !answers[n
                - 1].arrived)
        }),
    decreases chunks.len(),
{
    if chunks.len() > 0 {
        let said = lane_says(chunks, answers);
        assert(chunks[0].final_);
        if went_on(chunks[0], answers[0]) {
            let later = chunks.drop_first();
            let rest = answers.drop_first();
            assert forall|i: int| 0 <= i < later.len() implies (#[trigger] later[i]).final_ by {
                assert(later[i] == chunks[i + 1]);
            }
            law_finals_are_answered_once_and_in_order(later, rest);
            let tail = lane_says(later, rest);
            assert forall|i: int| 0 <= i < said.len() implies #[trigger] said[i] == (match answers[
            i].result {
                Ok(text) => TranscriptView::Final { text, generation: chunks[i].generation },
                Err(err) => TranscriptView::Failed(err),
            }) by {
                if i > 0 {
                    assert(said[i] == tail[i - 1]);
                    assert(rest[i - 1] == answers[i] && later[i - 1] == chunks[i]);
                }
            }
            assert forall|i: int| 0 <= i < said.len() - 1 implies (
            #[trigger] answers[i]).result is Ok && answers[i].arrived by {
                if i > 0 {
                    assert(rest[i - 1] == answers[i]);
                }
            }
            if tail.len() < later.len() {
                assert(rest[tail.len() - 1] == answers[tail.len() as int]);
            }
        }
    }
}

/// What one wake-up of the preview lane finds: the previews queued by then, and
/// the utterance that is being filled.
pub struct Batch {
    pub queue: Seq<ChunkView>,
    pub filling: int,
}

/// The previews that the preview lane transcribes, batch by batch, for as long as
/// it goes on.
pub open spec fn previews_fetched(batches: Seq<Batch>, answers: Seq<Answer>) -> Seq<ChunkView>
    decreases batches.len(),
{
    if batches.len() == 0 {
        Seq::empty()
    } else {
        let later = previews_fetched(batches.drop_first(), answers.drop_first());
        match fetched(batches[0].queue, batches[0].filling) {
            None => later,
            Some(chunk) => if went_on(chunk, answers[0]) {
                seq![chunk] + later
            } else {
                seq![chunk]
            },
        }
    }
}

/// The previews worth a request, one for each batch that has one.
pub open spec fn picked(batches: Seq<Batch>) -> Seq<ChunkView>
    decreases batches.len(),
{
    if batches.len() == 0 {
        Seq::empty()
    } else {
        match fetched(batches[0].queue, batches[0].filling) {
            None => picked(batches.drop_first()),
            Some(chunk) => seq![chunk] + picked(batches.drop_first()),
        }
    }
}

/// The batch that the `k`-th preview worth a request comes from.
pub open spec fn batch_of(batches: Seq<Batch>, k: int) -> int
    decreases batches.len(),
{
    if batches.len() == 0 {
        0
    } else if fetched(batches[0].queue, batches[0].filling) is None {
        1 + batch_of(batches.drop_first(), k)
    } else if k == 0 {
        0
    } else {
        1 + batch_of(batches.drop_first(), k - 1)
    }
}

/// Of the previews queued together only the last is worth a request, and none is
/// whose utterance has been cut. They come in the order of their batches.
pub proof fn law_only_the_latest_preview_counts(batches: Seq<Batch>, k: int)
    requires
        0 <= k < picked(batches).len(),
    ensures
        ({
            let i = batch_of(batches, k);
            let preview = picked(batches)[k];
            &&& 0 <= i < batches.len()
            &&& batches[i].queue.len() > 0
            &&& preview == batches[i].queue.last()
            &&& preview.generation >= batches[i].filling
            &&& k > 0 ==> batch_of(batches, k - 1) < i
        }),
    decreases batches.len(),
{
    if batches.len() > 0 {
        let later = batches.drop_first();
        if fetched(batches[0].queue, batches[0].filling) is None {
            law_only_the_latest_preview_counts(later, k);
            assert(later[batch_of(later, k)] == batches[batch_of(batches, k)]);
        } else if k > 0 {
            law_only_the_latest_preview_counts(later, k - 1);
            assert(later[batch_of(later, k - 1)] == batches[batch_of(batches, k)]);
            assert(picked(batches)[k] == picked(later)[k - 1]);
        }
    }
}

/// The preview lane transcribes the previews that are worth a request, in order,
/// and passes none over for as long as somebody listens: no failure ends it.
pub proof fn law_previews_are_transcribed_in_order(batches: Seq<Batch>, answers: Seq<Answer>)
    requires
        batches.len() == answers.len(),
        forall|i: int|
            0 <= i < batches.len() && (#[trigger] batches[i]).queue.len() > 0
                ==> !batches[i].queue.last().final_,
    ensures
        previews_fetched(batches, answers).is_prefix_of(picked(batches)),
        (forall|i: int|
            0 <= i < batches.len() ==> (#[trigger] answers[i]).arrived
                || answers[i].result is Err) ==> previews_fetched(batches, answers) == picked(
            batches,
        ),
    decreases batches.len(),
{
    if batches.len() > 0 {
        let later = batches.drop_first();
        let rest = answers.drop_first();
        assert forall|i: int| 0 <= i < later.len() && (
        #[trigger] later[i]).queue.len() > 0 implies !later[i].queue.last().final_ by {
            assert(later[i] == batches[i + 1]);
        }
        law_previews_are_transcribed_in_order(later, rest);
        assert(batches[0].queue.len() > 0 ==> !batches[0].queue.last().final_);
        let taken = previews_fetched(batches, answers);
        assert(taken.is_prefix_of(picked(batches))) by {
            let tail = previews_fetched(later, rest);
            assert(tail =~= picked(later).take(tail.len() as int));
            assert(taken =~= picked(batches).take(taken.len() as int));
        }
        if forall|i: int|
            0 <= i < batches.len() ==> (#[trigger] answers[i]).arrived || answers[i].result is Err {
            assert forall|i: int| 0 <= i < later.len() implies (#[trigger] rest[i]).arrived
                || rest[i].result is Err by {
                assert(rest[i] == answers[i + 1]);
            }
            assert(answers[0].arrived || answers[0].result is Err);
        }
    }
}

/// A settled utterance in flight does not hold previews back: a preview of the
/// next one is queued and worth a request, whatever becomes of the other lane.
pub proof fn law_a_final_does_not_hold_previews_back(
    filling: int,
    settled: ChunkView,
    preview: ChunkView,
    lanes: Lanes,
)
    requires
        settled.final_,
        !preview.final_,
        lanes.previews,
        preview.generation > settled.generation,
        preview.generation >= filling,
    ensures
        ({
            let after = filling_after(filling, settled);
            let reached = filling_after(after, preview);
            &&& queued(preview, lanes, after) == seq![
                EffectView::Filling(reached),
                EffectView::Transcribe(preview),
            ]
            &&& worth_previewing(preview, reached)
        }),
{
}

/// The lines of two texts, one after the other.
proof fn lemma_lines_of_both(text: Seq<char>, more: Seq<char>)
    ensures
        lines_of(text.push('\n') + more) == lines_of(text) + lines_of(more),
    decreases more.len(),
{
    let both = text.push('\n') + more;
    if more.len() == 0 {
        assert(both.drop_last() =~= text);
        assert(lines_of(both) =~= lines_of(text) + lines_of(more));
    } else {
        let fewer = more.drop_last();
        assert(both.drop_last() =~= text.push('\n') + fewer);
        lemma_lines_of_both(text, fewer);
        lemma_some_line(fewer);
        assert(lines_of(both) =~= lines_of(text) + lines_of(more));
    }
}

proof fn lemma_spaced_of_both(lines: Seq<Seq<char>>, more: Seq<Seq<char>>)
    requires
        lines.len() > 0,
        more.len() > 0,
    ensures
        spaced(lines + more) == spaced(lines) + " "@ + spaced(more),
    decreases more.len(),
{
    let both = lines + more;
    if more.len() == 1 {
        assert(both.drop_last() =~= lines);
    } else {
        assert(both.drop_last() =~= lines + more.drop_last());
        lemma_spaced_of_both(lines, more.drop_last());
        assert(spaced(both) =~= spaced(lines) + " "@ + spaced(more));
    }
}

/// Lines are cleaned each for itself: of two texts with a line end between them,
/// what was said is what was said of each, with a space between where both said
/// something.
pub proof fn law_lines_are_cleaned_each_for_itself(text: Seq<char>, more: Seq<char>)
    ensures
        cleaned(text.push('\n') + more) == (if cleaned(text).len() == 0 {
            cleaned(more)
        } else if cleaned(more).len() == 0 {
            cleaned(text)
        } else {
            cleaned(text) + " "@ + cleaned(more)
        }),
{
    let trim = |line: Seq<char>| trimmed(line);
    let is_said = |line: Seq<char>| said(line);
    lemma_lines_of_both(text, more);
    let (a, b) = (lines_of(text), lines_of(more));
    assert((a + b).map_values(trim) =~= a.map_values(trim) + b.map_values(trim));
    Seq::filter_distributes_over_add(a.map_values(trim), b.map_values(trim), is_said);
    law_what_was_said_is_one_line(text);
    law_what_was_said_is_one_line(more);
    let (first, second) = (said_lines(a), said_lines(b));
    assert(said_lines(a + b) == first + second);
    if first.len() == 0 {
        assert(first + second =~= second);
    } else if second.len() == 0 {
        assert(first + second =~= first);
    } else {
        lemma_spaced_of_both(first, second);
    }
}

proof fn lemma_trimmed_start(text: Seq<char>)
    ensures
        exists|a: int| 0 <= a <= text.len() && trimmed_start(text) == #[trigger] text.skip(a),
        trimmed_start(text).len() > 0 ==> !white_space(trimmed_start(text).first()),
    decreases text.len(),
{
    if text.len() > 0 && white_space(text.first()) {
        let rest = text.drop_first();
        lemma_trimmed_start(rest);
        let a = choose|a: int|
            0 <= a <= rest.len() && trimmed_start(rest) == #[trigger] rest.skip(a);
        assert(text.skip(a + 1) =~= rest.skip(a));
    } else {
        assert(text.skip(0) =~= text);
    }
}

proof fn lemma_trimmed_end(text: Seq<char>)
    ensures
        exists|b: int| 0 <= b <= text.len() && trimmed_end(text) == #[trigger] text.take(b),
        trimmed_end(text).len() > 0 ==> !white_space(trimmed_end(text).last()),
    decreases text.len(),
{
    if text.len() > 0 && white_space(text.last()) {
        let rest = text.drop_last();
        lemma_trimmed_end(rest);
        let b = choose|b: int|
            0 <= b <= rest.len() && trimmed_end(rest) == #[trigger] rest.take(b);
        assert(text.take(b) =~= rest.take(b));
    } else {
        assert(text.take(text.len() as int) =~= text);
    }
}

/// Trimming keeps a stretch of the text, without white space at either end.
pub proof fn law_trimming_keeps_a_stretch(text: Seq<char>)
    ensures
        exists|a: int, b: int|
            0 <= a <= b <= text.len() && trimmed(text) == #[trigger] text.subrange(a, b),
        trimmed(text).len() > 0 ==> !white_space(trimmed(text).first()) && !white_space(
            trimmed(text).last(),
        ),
        trimmed(trimmed(text)) == trimmed(text),
{
    lemma_trimmed_start(text);
    let start = trimmed_start(text);
    let a = choose|a: int| 0 <= a <= text.len() && start == #[trigger] text.skip(a);
    lemma_trimmed_end(start);
    let b = choose|b: int| 0 <= b <= start.len() && trimmed_end(start) == #[trigger] start.take(b);
    assert(text.subrange(a, a + b) =~= start.take(b));
    if trimmed(text).len() > 0 {
        assert(trimmed(text).first() == start.first());
    }
}

proof fn lemma_lines_have_no_line_feed(text: Seq<char>, i: int, j: int)
    requires
        0 <= i < lines_of(text).len(),
        0 <= j < lines_of(text)[i].len(),
    ensures
        lines_of(text)[i][j] != '\n',
    decreases text.len(),
{
    if text.len() > 0 {
        let earlier = lines_of(text.drop_last());
        lemma_some_line(text.drop_last());
        if text.last() == '\n' {
            if i < earlier.len() {
                lemma_lines_have_no_line_feed(text.drop_last(), i, j);
            }
        } else if i < earlier.len() - 1 || j < earlier.last().len() {
            lemma_lines_have_no_line_feed(text.drop_last(), i, j);
        }
    }
}

proof fn lemma_some_line(text: Seq<char>)
    ensures
        lines_of(text).len() > 0,
    decreases text.len(),
{
    if text.len() > 0 {
        lemma_some_line(text.drop_last());
    }
}

proof fn lemma_one_line(text: Seq<char>)
    requires
        !text.contains('\n'),
    ensures
        lines_of(text) == seq![text],
    decreases text.len(),
{
    if text.len() > 0 {
        let earlier = text.drop_last();
        assert forall|i: int| 0 <= i < earlier.len() implies earlier[i] != '\n' by {
            assert(text[i] == earlier[i]);
            assert(text.contains(text[i]));
        }
        lemma_one_line(earlier);
        assert(text.contains(text.last()));
        assert(earlier.push(text.last()) =~= text);
        assert(lines_of(text) =~= seq![text]);
    } else {
        assert(text =~= Seq::empty());
        assert(lines_of(text) =~= seq![text]);
    }
}

/// What holds of each line that was said.
proof fn lemma_said_line(text: Seq<char>, i: int)
    requires
        0 <= i < said_lines(lines_of(text)).len(),
    ensures
        said(said_lines(lines_of(text))[i]),
        !said_lines(lines_of(text))[i].contains('\n'),
        trimmed(said_lines(lines_of(text))[i]) == said_lines(lines_of(text))[i],
        !white_space(said_lines(lines_of(text))[i].first()),
        !white_space(said_lines(lines_of(text))[i].last()),
{
    let lines = lines_of(text);
    let inner = lines.map_values(|line: Seq<char>| trimmed(line));
    let is_said = |line: Seq<char>| said(line);
    let line = said_lines(lines)[i];
    inner.lemma_filter_pred(is_said, i);
    assert(inner.contains(line)) by {
        lemma_filtered_was_there(inner, is_said, i);
    }
    let k = choose|k: int| 0 <= k < inner.len() && inner[k] == line;
    law_trimming_keeps_a_stretch(lines[k]);
    let (a, b) = choose|a: int, b: int|
        0 <= a <= b <= lines[k].len() && trimmed(lines[k]) == #[trigger] lines[k].subrange(a, b);
    assert forall|j: int| 0 <= j < line.len() implies line[j] != '\n' by {
        assert(line[j] == lines[k][a + j]);
        lemma_lines_have_no_line_feed(text, k, a + j);
    }
}

proof fn lemma_filtered_was_there<A>(all: Seq<A>, wanted: spec_fn(A) -> bool, i: int)
    requires
        0 <= i < all.filter(wanted).len(),
    ensures
        all.contains(all.filter(wanted)[i]),
    decreases all.len(),
{
    reveal(Seq::filter);
    if all.len() > 0 {
        let earlier = all.drop_last();
        if i < earlier.filter(wanted).len() {
            lemma_filtered_was_there(earlier, wanted, i);
            let k = choose|k: int| 0 <= k < earlier.len() && earlier[k] == earlier.filter(wanted)[i];
            assert(all[k] == all.filter(wanted)[i]);
        } else {
            assert(all[all.len() - 1] == all.filter(wanted)[i]);
        }
    }
}

/// What holds of lines with spaces between them.
proof fn lemma_spaced(lines: Seq<Seq<char>>)
    requires
        lines.len() > 0,
        forall|i: int| 0 <= i < lines.len() ==> (#[trigger] lines[i]).len() > 0,
    ensures
        spaced(lines).len() > 0,
        spaced(lines).first() == lines[0].first(),
        spaced(lines).last() == lines.last().last(),
        (forall|i: int| 0 <= i < lines.len() ==> !(#[trigger] lines[i]).contains('\n'))
            ==> !spaced(lines).contains('\n'),
        lettered(lines[0]) ==> lettered(spaced(lines)),
    decreases lines.len(),
{
    reveal_strlit(" ");
    if lines.len() > 1 {
        let earlier = lines.drop_last();
        assert forall|i: int| 0 <= i < earlier.len() implies (#[trigger] earlier[i]).len() > 0 by {
            assert(earlier[i] == lines[i]);
        }
        lemma_spaced(earlier);
        let all = spaced(lines);
        let n = spaced(earlier).len();
        assert(lines[lines.len() - 1].len() > 0);
        assert(all.last() == lines.last()[lines.last().len() - 1]);
        if forall|i: int| 0 <= i < lines.len() ==> !(#[trigger] lines[i]).contains('\n') {
            assert forall|i: int| 0 <= i < earlier.len() implies !(#[trigger] earlier[i]).contains(
                '\n',
            ) by {
                assert(earlier[i] == lines[i]);
            }
            assert forall|j: int| 0 <= j < all.len() implies all[j] != '\n' by {
                if j < n {
                    assert(all[j] == spaced(earlier)[j]);
                    assert(spaced(earlier).contains(spaced(earlier)[j]));
                } else if j > n {
                    let last = lines[lines.len() - 1];
                    assert(all[j] == last[j - n - 1]);
                    assert(last.contains(last[j - n - 1]));
                }
            }
        }
        if lettered(lines[0]) {
            let j = choose|j: int|
                0 <= j < spaced(earlier).len() && alphabetic(#[trigger] spaced(earlier)[j]);
            assert(all[j] == spaced(earlier)[j]);
        }
    } else {
        assert(lines.last() == lines[0]);
    }
}

/// What was said is one line, without white space around it, and there is a letter
/// in it. Where nothing was said, it is empty.
pub proof fn law_what_was_said_is_one_line(text: Seq<char>)
    ensures
        !cleaned(text).contains('\n'),
        trimmed(cleaned(text)) == cleaned(text),
        cleaned(text).len() == 0 || lettered(cleaned(text)),
        cleaned(text).len() == 0 <==> said_lines(lines_of(text)).len() == 0,
{
    let lines = said_lines(lines_of(text));
    if lines.len() > 0 {
        assert forall|i: int| 0 <= i < lines.len() implies (#[trigger] lines[i]).len() > 0
            && !lines[i].contains('\n') by {
            lemma_said_line(text, i);
        }
        lemma_said_line(text, 0);
        lemma_said_line(text, lines.len() - 1);
        lemma_spaced(lines);
    }
}

/// Cleaning what has been cleaned changes nothing, unless the lines together
/// spell one of the phrases that nobody says.
pub proof fn law_cleaning_again(text: Seq<char>)
    ensures
        cleaned(cleaned(text)) == (if hallucination(lowercase(cleaned(text))) {
            Seq::empty()
        } else {
            cleaned(text)
        }),
{
    let once = cleaned(text);
    law_what_was_said_is_one_line(text);
    lemma_one_line(once);
    let is_said = |line: Seq<char>| said(line);
    let inner = seq![once].map_values(|line: Seq<char>| trimmed(line));
    assert(inner =~= seq![once]);
    assert(Seq::<Seq<char>>::empty().push(once) =~= seq![once]);
    Seq::<Seq<char>>::empty().lemma_filter_push(once, is_said);
    reveal(Seq::filter);
    assert(Seq::<Seq<char>>::empty().filter(is_said) =~= Seq::empty());
    if said(once) {
        assert(said_lines(lines_of(once)) =~= seq![once]);
    } else {
        assert(said_lines(lines_of(once)) =~= Seq::empty());
        if once.len() == 0 {
            assert(once =~= Seq::empty());
        }
    }
}

} // verus!
