//! What goes to the server and how its answers are read, spelled out.
use vstd::prelude::*;
use vstd::string::StringSliceAdditionalSpecFns;

use crate::dictation::chunker::{riff_header, ChunkView, BYTES_PER_SAMPLE, SAMPLE_RATE};
use crate::dictation::wav_laws::{law_the_header_describes_the_payload, le_value};
use crate::dictation::whisper::{
    carries_on, fetched, file_part, json_document, meaning, message, outcome, part, part_start,
    reply_view, response, server_failure, upload, Reply, Report, Transcript, TranscriptView,
    BOUNDARY,
};
use crate::text::trimmed;

verus! {

/// The line that starts a part of an upload.
proof fn lemma_start_line()
    ensures
        part_start() == "------niri-dictation-boundary\r\n".spec_bytes(),
        "\r\n------niri-dictation-boundary--\r\n".spec_bytes() == "\r\n".spec_bytes()
            + "--".spec_bytes() + BOUNDARY.spec_bytes() + "--\r\n".spec_bytes(),
{
    reveal_strlit("--");
    reveal_strlit("----niri-dictation-boundary");
    reveal_strlit("\r\n");
    reveal_strlit("--\r\n");
    reveal_strlit("------niri-dictation-boundary\r\n");
    reveal_strlit("\r\n------niri-dictation-boundary--\r\n");
    vstd::string::is_ascii_spec_bytes("--");
    vstd::string::is_ascii_spec_bytes("----niri-dictation-boundary");
    vstd::string::is_ascii_spec_bytes("\r\n");
    vstd::string::is_ascii_spec_bytes("--\r\n");
    vstd::string::is_ascii_spec_bytes("------niri-dictation-boundary\r\n");
    vstd::string::is_ascii_spec_bytes("\r\n------niri-dictation-boundary--\r\n");
    assert(part_start() =~= "------niri-dictation-boundary\r\n".spec_bytes());
    assert("\r\n------niri-dictation-boundary--\r\n".spec_bytes() =~= "\r\n".spec_bytes()
        + "--".spec_bytes() + BOUNDARY.spec_bytes() + "--\r\n".spec_bytes());
}

proof fn lemma_temperature_line()
    ensures
        "Content-Disposition: form-data; name=\"temperature\"\r\n\r\n".spec_bytes()
            == "Content-Disposition: form-data; name=\"".spec_bytes() + "temperature".spec_bytes()
            + "\"\r\n\r\n".spec_bytes(),
{
    reveal_strlit("Content-Disposition: form-data; name=\"temperature\"\r\n\r\n");
    reveal_strlit("Content-Disposition: form-data; name=\"");
    reveal_strlit("temperature");
    reveal_strlit("\"\r\n\r\n");
    vstd::string::is_ascii_spec_bytes(
        "Content-Disposition: form-data; name=\"temperature\"\r\n\r\n",
    );
    vstd::string::is_ascii_spec_bytes("Content-Disposition: form-data; name=\"");
    vstd::string::is_ascii_spec_bytes("temperature");
    vstd::string::is_ascii_spec_bytes("\"\r\n\r\n");
    assert("Content-Disposition: form-data; name=\"temperature\"\r\n\r\n".spec_bytes()
        =~= "Content-Disposition: form-data; name=\"".spec_bytes() + "temperature".spec_bytes()
        + "\"\r\n\r\n".spec_bytes());
}

proof fn lemma_format_line()
    ensures
        "Content-Disposition: form-data; name=\"response_format\"\r\n\r\n".spec_bytes()
            == "Content-Disposition: form-data; name=\"".spec_bytes()
            + "response_format".spec_bytes() + "\"\r\n\r\n".spec_bytes(),
{
    reveal_strlit("Content-Disposition: form-data; name=\"response_format\"\r\n\r\n");
    reveal_strlit("Content-Disposition: form-data; name=\"");
    reveal_strlit("response_format");
    reveal_strlit("\"\r\n\r\n");
    vstd::string::is_ascii_spec_bytes(
        "Content-Disposition: form-data; name=\"response_format\"\r\n\r\n",
    );
    vstd::string::is_ascii_spec_bytes("Content-Disposition: form-data; name=\"");
    vstd::string::is_ascii_spec_bytes("response_format");
    vstd::string::is_ascii_spec_bytes("\"\r\n\r\n");
    assert("Content-Disposition: form-data; name=\"response_format\"\r\n\r\n".spec_bytes()
        =~= "Content-Disposition: form-data; name=\"".spec_bytes() + "response_format".spec_bytes()
        + "\"\r\n\r\n".spec_bytes());
}

proof fn lemma_language_line()
    ensures
        "Content-Disposition: form-data; name=\"language\"\r\n\r\n".spec_bytes()
            == "Content-Disposition: form-data; name=\"".spec_bytes() + "language".spec_bytes()
            + "\"\r\n\r\n".spec_bytes(),
{
    reveal_strlit("Content-Disposition: form-data; name=\"language\"\r\n\r\n");
    reveal_strlit("Content-Disposition: form-data; name=\"");
    reveal_strlit("language");
    reveal_strlit("\"\r\n\r\n");
    vstd::string::is_ascii_spec_bytes("Content-Disposition: form-data; name=\"language\"\r\n\r\n");
    vstd::string::is_ascii_spec_bytes("Content-Disposition: form-data; name=\"");
    vstd::string::is_ascii_spec_bytes("language");
    vstd::string::is_ascii_spec_bytes("\"\r\n\r\n");
    assert("Content-Disposition: form-data; name=\"language\"\r\n\r\n".spec_bytes()
        =~= "Content-Disposition: form-data; name=\"".spec_bytes() + "language".spec_bytes()
        + "\"\r\n\r\n".spec_bytes());
}

proof fn lemma_value_lines()
    ensures
        "0.0\r\n".spec_bytes() == "0.0".spec_bytes() + "\r\n".spec_bytes(),
        "json\r\n".spec_bytes() == "json".spec_bytes() + "\r\n".spec_bytes(),
{
    reveal_strlit("0.0\r\n");
    reveal_strlit("0.0");
    reveal_strlit("json\r\n");
    reveal_strlit("json");
    reveal_strlit("\r\n");
    vstd::string::is_ascii_spec_bytes("0.0\r\n");
    vstd::string::is_ascii_spec_bytes("0.0");
    vstd::string::is_ascii_spec_bytes("json\r\n");
    vstd::string::is_ascii_spec_bytes("json");
    vstd::string::is_ascii_spec_bytes("\r\n");
    assert("0.0\r\n".spec_bytes() =~= "0.0".spec_bytes() + "\r\n".spec_bytes());
    assert("json\r\n".spec_bytes() =~= "json".spec_bytes() + "\r\n".spec_bytes());
}

/// An upload, line by line.
pub proof fn law_an_upload_line_by_line(language: &str, pcm: Seq<u8>)
    ensures
        upload(language, pcm) == "------niri-dictation-boundary\r\n".spec_bytes()
            + "Content-Disposition: form-data; name=\"temperature\"\r\n\r\n".spec_bytes()
            + "0.0\r\n".spec_bytes() + "------niri-dictation-boundary\r\n".spec_bytes()
            + "Content-Disposition: form-data; name=\"response_format\"\r\n\r\n".spec_bytes()
            + "json\r\n".spec_bytes() + "------niri-dictation-boundary\r\n".spec_bytes()
            + "Content-Disposition: form-data; name=\"language\"\r\n\r\n".spec_bytes()
            + language.spec_bytes() + "\r\n".spec_bytes()
            + "------niri-dictation-boundary\r\n".spec_bytes()
            + "Content-Disposition: form-data; name=\"file\"; filename=\"chunk.wav\"\r\n".spec_bytes()
            + "Content-Type: audio/wav\r\n\r\n".spec_bytes() + riff_header(pcm.len() as int) + pcm
            + "\r\n------niri-dictation-boundary--\r\n".spec_bytes(),
        BOUNDARY@ == "----niri-dictation-boundary"@,
{
    lemma_start_line();
    lemma_temperature_line();
    lemma_format_line();
    lemma_language_line();
    lemma_value_lines();
    let start = "------niri-dictation-boundary\r\n".spec_bytes();
    let break_ = "\r\n".spec_bytes();
    let name = "Content-Disposition: form-data; name=\"".spec_bytes();
    let quoted = "\"\r\n\r\n".spec_bytes();
    let temperature = "Content-Disposition: form-data; name=\"temperature\"\r\n\r\n".spec_bytes();
    let format = "Content-Disposition: form-data; name=\"response_format\"\r\n\r\n".spec_bytes();
    let spoken = "Content-Disposition: form-data; name=\"language\"\r\n\r\n".spec_bytes();
    let file =
        "Content-Disposition: form-data; name=\"file\"; filename=\"chunk.wav\"\r\n".spec_bytes();
    let kind = "Content-Type: audio/wav\r\n\r\n".spec_bytes();
    let header = riff_header(pcm.len() as int);
    lemma_part(start, name, "temperature".spec_bytes(), quoted, "0.0".spec_bytes(), break_);
    lemma_part(start, name, "response_format".spec_bytes(), quoted, "json".spec_bytes(), break_);
    lemma_part(start, name, "language".spec_bytes(), quoted, language.spec_bytes(), break_);
    let first = start + temperature + "0.0\r\n".spec_bytes();
    assert(part("temperature", "0.0") == first);
    let second = first + start + format + "json\r\n".spec_bytes();
    lemma_behind(first, start, format, "json\r\n".spec_bytes());
    assert(first + part("response_format", "json") == second);
    let third = second + start + spoken + language.spec_bytes() + break_;
    lemma_behind(second, start, spoken, language.spec_bytes() + break_);
    lemma_associative(second + start + spoken, language.spec_bytes(), break_);
    assert(second + part("language", language) == third);
    let fourth = third + start + file + kind + header + pcm;
    let dashes = "--".spec_bytes();
    let close = "--\r\n".spec_bytes();
    lemma_behind(third, start, file, kind);
    lemma_behind(third, start + file + kind, header, pcm);
    lemma_associative(third, start + file + kind + header + pcm, break_);
    assert(third + file_part(pcm) == fourth + break_);
    lemma_behind(fourth, break_, dashes, BOUNDARY.spec_bytes());
    lemma_associative(fourth, break_ + dashes + BOUNDARY.spec_bytes(), close);
    assert(upload(language, pcm) == fourth + (break_ + dashes + BOUNDARY.spec_bytes() + close));
}

proof fn lemma_associative(a: Seq<u8>, b: Seq<u8>, c: Seq<u8>)
    ensures
        a + (b + c) == a + b + c,
{
    assert(a + (b + c) =~= a + b + c);
}

proof fn lemma_behind(a: Seq<u8>, b: Seq<u8>, c: Seq<u8>, d: Seq<u8>)
    ensures
        a + (b + c + d) == a + b + c + d,
{
    assert(a + (b + c + d) =~= a + b + c + d);
}

/// A part of an upload, with the lines taken together.
proof fn lemma_part(
    start: Seq<u8>,
    before: Seq<u8>,
    name: Seq<u8>,
    after: Seq<u8>,
    value: Seq<u8>,
    end: Seq<u8>,
)
    ensures
        start + before + name + after + value + end == start + (before + name + after) + (value
            + end),
{
    assert(start + before + name + after + value + end =~= start + (before + name + after) + (value
        + end));
}

/// All the audio is sent, behind a header that announces just as much of it, and
/// nothing is behind it but the line that closes the upload.
pub proof fn law_all_the_audio_is_sent(language: &str, pcm: Seq<u8>)
    ensures
        ({
            let body = upload(language, pcm);
            let close = "\r\n------niri-dictation-boundary--\r\n".spec_bytes();
            let to = body.len() - close.len();
            let from = to - pcm.len();
            &&& 44 <= from
            &&& body.skip(to) == close
            &&& body.subrange(from, to) == pcm
            &&& body.subrange(from - 44, from) == riff_header(pcm.len() as int)
            &&& le_value(body.subrange(from - 4, from)) == pcm.len() % 0x1_0000_0000
            &&& pcm.len() < 0x1_0000_0000 ==> le_value(body.subrange(from - 4, from)) == to - from
            &&& le_value(body.subrange(from - 40, from - 36)) == (36 + pcm.len()) % 0x1_0000_0000
        }),
{
    let front = lemma_upload_ends(language, pcm);
    lemma_behind_the_front(upload(language, pcm), front, pcm);
}

/// An upload ends in the header, the audio and the line that closes it.
proof fn lemma_upload_ends(language: &str, pcm: Seq<u8>) -> (front: Seq<u8>)
    ensures
        upload(language, pcm) == front + riff_header(pcm.len() as int) + pcm
            + "\r\n------niri-dictation-boundary--\r\n".spec_bytes(),
{
    law_an_upload_line_by_line(language, pcm);
    let start = "------niri-dictation-boundary\r\n".spec_bytes();
    start + "Content-Disposition: form-data; name=\"temperature\"\r\n\r\n".spec_bytes()
        + "0.0\r\n".spec_bytes() + start
        + "Content-Disposition: form-data; name=\"response_format\"\r\n\r\n".spec_bytes()
        + "json\r\n".spec_bytes() + start
        + "Content-Disposition: form-data; name=\"language\"\r\n\r\n".spec_bytes()
        + language.spec_bytes() + "\r\n".spec_bytes() + start
        + "Content-Disposition: form-data; name=\"file\"; filename=\"chunk.wav\"\r\n".spec_bytes()
        + "Content-Type: audio/wav\r\n\r\n".spec_bytes()
}

proof fn lemma_behind_the_front(body: Seq<u8>, front: Seq<u8>, pcm: Seq<u8>)
    requires
        body == front + riff_header(pcm.len() as int) + pcm
            + "\r\n------niri-dictation-boundary--\r\n".spec_bytes(),
    ensures
        ({
            let close = "\r\n------niri-dictation-boundary--\r\n".spec_bytes();
            let to = body.len() - close.len();
            let from = to - pcm.len();
            &&& 44 <= from
            &&& body.skip(to) == close
            &&& body.subrange(from, to) == pcm
            &&& body.subrange(from - 44, from) == riff_header(pcm.len() as int)
            &&& le_value(body.subrange(from - 4, from)) == pcm.len() % 0x1_0000_0000
            &&& pcm.len() < 0x1_0000_0000 ==> le_value(body.subrange(from - 4, from)) == to - from
            &&& le_value(body.subrange(from - 40, from - 36)) == (36 + pcm.len()) % 0x1_0000_0000
        }),
{
    law_the_header_describes_the_payload(pcm.len() as int);
    let header = riff_header(pcm.len() as int);
    let close = "\r\n------niri-dictation-boundary--\r\n".spec_bytes();
    let to = body.len() - close.len();
    let from = to - pcm.len();
    lemma_pieces(front, header, pcm, close);
    assert(body.subrange(from - 4, from) == header.subrange(40, 44));
    assert(body.subrange(from - 40, from - 36) == header.subrange(4, 8));
}

proof fn lemma_pieces(front: Seq<u8>, header: Seq<u8>, pcm: Seq<u8>, close: Seq<u8>)
    requires
        header.len() == 44,
    ensures
        ({
            let body = front + header + pcm + close;
            let to = body.len() - close.len();
            let from = to - pcm.len();
            &&& from == front.len() + 44
            &&& body.skip(to) == close
            &&& body.subrange(from, to) == pcm
            &&& body.subrange(from - 44, from) == header
            &&& body.subrange(from - 4, from) == header.subrange(40, 44)
            &&& body.subrange(from - 40, from - 36) == header.subrange(4, 8)
        }),
{
    let body = front + header + pcm + close;
    let to = body.len() - close.len();
    let from = to - pcm.len();
    assert(body.skip(to) =~= close);
    assert(body.subrange(from, to) =~= pcm);
    assert(body.subrange(from - 44, from) =~= header);
    assert(body.subrange(from - 4, from) =~= header.subrange(40, 44));
    assert(body.subrange(from - 40, from - 36) =~= header.subrange(4, 8));
}

/// The header is that of audio as the model wants it: sixteen thousand samples a
/// second of two bytes each.
pub proof fn law_the_header_is_for_speech(data_len: int)
    requires
        0 <= data_len,
    ensures
        le_value(riff_header(data_len).subrange(24, 28)) == 16_000,
        le_value(riff_header(data_len).subrange(28, 32)) == 32_000,
        le_value(riff_header(data_len).subrange(32, 34)) == 2,
        le_value(riff_header(data_len).subrange(34, 36)) == 16,
        SAMPLE_RATE == 16_000,
        BYTES_PER_SAMPLE == 2,
{
    law_the_header_describes_the_payload(data_len);
}

/// How a response is read: one without success is a failure in the words of its
/// status, one that is no JSON a failure that shows it, and otherwise the string under
/// `error` is a failure before the string under `text` is the transcript.
pub proof fn law_how_a_response_is_read(status: u16, status_line: Seq<char>, body: Seq<char>)
    ensures
        response(status, status_line, body) == (if status < 200 || status >= 300 {
            Err(("whisper server: "@ + status_line + ": "@) + trimmed(body))
        } else {
            match json_document(body) {
                None => Err("whisper server: bad response: "@ + trimmed(body)),
                Some(members) => if members.contains_key("error"@) && members["error"@] is Some {
                    Err("whisper server: "@ + members["error"@]->0)
                } else if members.contains_key("text"@) && members["text"@] is Some {
                    Ok(members["text"@]->0)
                } else {
                    Err("whisper server: no text in response: "@ + trimmed(body))
                },
            }
        }),
{
    lemma_failures(trimmed(body));
    assert("whisper server: "@ + (status_line + ": "@ + trimmed(body)) =~= ("whisper server: "@
        + status_line + ": "@) + trimmed(body));
}

proof fn lemma_failures(body: Seq<char>)
    ensures
        server_failure("bad response: "@ + body) == "whisper server: bad response: "@ + body,
        server_failure("no text in response: "@ + body)
            == "whisper server: no text in response: "@ + body,
{
    reveal_strlit("whisper server: ");
    reveal_strlit("bad response: ");
    reveal_strlit("no text in response: ");
    reveal_strlit("whisper server: bad response: ");
    reveal_strlit("whisper server: no text in response: ");
    assert(server_failure("bad response: "@ + body) =~= "whisper server: bad response: "@ + body);
    assert(server_failure("no text in response: "@ + body)
        =~= "whisper server: no text in response: "@ + body);
}

/// What the members of a response come to: without any it could not be read, an error
/// comes before a text, and a text comes out as it is.
pub proof fn law_what_the_members_come_to(
    body: Seq<char>,
    error: Option<Seq<char>>,
    text: Option<Seq<char>>,
)
    ensures
        meaning(body, None) == Err::<Seq<char>, Seq<char>>(
            "whisper server: bad response: "@ + trimmed(body),
        ),
        error matches Some(what) ==> meaning(body, Some((error, text))) == Err::<
            Seq<char>,
            Seq<char>,
        >("whisper server: "@ + what),
        error is None ==> (text matches Some(words) ==> meaning(body, Some((error, text)))
            == Ok::<Seq<char>, Seq<char>>(words)),
        error is None && text is None ==> meaning(body, Some((error, text))) == Err::<
            Seq<char>,
            Seq<char>,
        >("whisper server: no text in response: "@ + trimmed(body)),
{
    lemma_failures(trimmed(body));
}

/// A failure on the way is shown as the server's.
pub proof fn law_a_failure_names_the_server(what: Seq<char>)
    ensures
        server_failure(what) == "whisper server: "@ + what,
{
}

/// Results and replies are taken at their word.
pub proof fn law_results_are_taken_at_their_word(text: String, other: String)
    ensures
        outcome(Ok(text)) == Ok::<Seq<char>, Seq<char>>(text@),
        outcome(Err(text)) == Err::<Seq<char>, Seq<char>>(text@),
        reply_view(None) is None,
        reply_view(Some(Reply { error: Some(text), text: Some(other) })) == Some(
            (Some(text@), Some(other@)),
        ),
        reply_view(Some(Reply { error: Some(text), text: None })) == Some(
            (Some(text@), None::<Seq<char>>),
        ),
        reply_view(Some(Reply { error: None, text: Some(text) })) == Some(
            (None::<Seq<char>>, Some(text@)),
        ),
        reply_view(Some(Reply { error: None, text: None })) == Some(
            (None::<Seq<char>>, None::<Seq<char>>),
        ),
{
}

/// Transcripts are taken at their word.
pub proof fn law_transcripts_are_taken_at_their_word(text: String, generation: u64)
    ensures
        (Transcript::Preview { text, generation })@ == (TranscriptView::Preview {
            text: text@,
            generation: generation as int,
        }),
        (Transcript::Final { text, generation })@ == (TranscriptView::Final {
            text: text@,
            generation: generation as int,
        }),
        Transcript::Failed(text)@ == TranscriptView::Failed(text@),
{
}

/// What a lane says of a request and whether it goes on: the text with the number of
/// the utterance, settled or not as the chunk was; of a failure the words where the
/// utterance was settled, which also ends the lane, and nothing where it was not.
pub proof fn law_what_a_lane_says(
    chunk: ChunkView,
    result: Result<Seq<char>, Seq<char>>,
    arrived: bool,
)
    ensures
        match result {
            Ok(text) => {
                &&& message(chunk, result) == Some(
                    if chunk.final_ {
                        TranscriptView::Final { text, generation: chunk.generation }
                    } else {
                        TranscriptView::Preview { text, generation: chunk.generation }
                    },
                )
                &&& carries_on(chunk, result, arrived) == arrived
            },
            Err(err) => {
                &&& chunk.final_ ==> message(chunk, result) == Some(TranscriptView::Failed(err))
                &&& !chunk.final_ ==> message(chunk, result) is None
                &&& carries_on(chunk, result, arrived) == !chunk.final_
            },
        },
{
}

/// Of the previews queued together the last is transcribed, just if its utterance is
/// not over.
pub proof fn law_the_last_preview_is_fetched(queue: Seq<ChunkView>, filling: int)
    ensures
        queue.len() == 0 ==> fetched(queue, filling) is None,
        queue.len() > 0 && queue[queue.len() - 1].generation < filling ==> fetched(
            queue,
            filling,
        ) is None,
        queue.len() > 0 && queue[queue.len() - 1].generation >= filling ==> fetched(queue, filling)
            == Some(queue[queue.len() - 1]),
{
}

/// A lane goes on unless it gives up or has something to say that does not arrive.
pub proof fn law_when_a_lane_goes_on(report: Report, arrived: bool)
    ensures
        report.gives_up ==> !report.going(arrived),
        !report.gives_up && report.message is None ==> report.going(arrived),
        !report.gives_up && report.message is Some ==> report.going(arrived) == arrived,
{
}

} // verus!
