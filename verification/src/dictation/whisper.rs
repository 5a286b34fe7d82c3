//! Talking to the whisper.cpp server: what is asked of it, what its answers
//! mean, and which of the words it answers with were said.
use vstd::prelude::*;
use vstd::string::{StringExecFns, StringSliceAdditionalSpecFns};

use crate::dictation::chunker::{put_str, riff_header, views, wav_header, Chunk, ChunkView};
use crate::dictation::effect::{ask, asked, Effect, EffectView};
use crate::text::{
    contents, join_spaced, lines_of, same, spaced, split_lines, trim, trimmed,
};

verus! {

/// What [`char::is_alphabetic`] answers for a character: whether it has
/// Unicode's `Alphabetic` property.
pub uninterp spec fn alphabetic(c: char) -> bool;

/// [`char::is_alphabetic`]: whether the character has Unicode's `Alphabetic`
/// property. Which characters those are is left to the name.
pub assume_specification[ char::is_alphabetic ](c: char) -> (yes: bool)
    ensures
        yes == alphabetic(c),
;

/// What [`str::to_lowercase`] makes of a text.
pub uninterp spec fn lowercase(text: Seq<char>) -> Seq<char>;

/// [`str::to_lowercase`]: the lowercase equivalent of the text, as Unicode
/// defines it. What that is for a given text is left to the name.
pub assume_specification[ str::to_lowercase ](text: &str) -> (lowered: String)
    ensures
        lowered@ == lowercase(text@),
;

/// Text the model emits when handed near-silence, which would otherwise land
/// in the transcript as if it had been spoken.
pub open spec fn hallucination(lowered: Seq<char>) -> bool {
    ||| lowered == "thank you."@
    ||| lowered == "thank you"@
    ||| lowered == "thanks for watching."@
    ||| lowered == "thanks for watching"@
    ||| lowered == "okay."@
    ||| lowered == "you"@
    ||| lowered == "[blank_audio]"@
    ||| lowered == "(blank_audio)"@
    ||| lowered == "."@
}

/// Whether a line has a letter in it.
pub open spec fn lettered(line: Seq<char>) -> bool {
    exists|i: int| 0 <= i < line.len() && alphabetic(#[trigger] line[i])
}

/// Whether a trimmed line was said: it is not empty, it is no stock phrase
/// whatever its case, and it has a letter in it. No letters means no words:
/// "0.", "...", and similar.
pub open spec fn said(line: Seq<char>) -> bool {
    line.len() > 0 && !hallucination(lowercase(line)) && lettered(line)
}

/// The lines of a text that were said, trimmed.
pub open spec fn said_lines(lines: Seq<Seq<char>>) -> Seq<Seq<char>> {
    lines.map_values(|line: Seq<char>| trimmed(line)).filter(|line: Seq<char>| said(line))
}

/// What of a server response was said: its lines without white space around
/// them, without those that were not said, with a space between two of them.
pub open spec fn cleaned(text: Seq<char>) -> Seq<char> {
    spaced(said_lines(lines_of(text)))
}

fn is_hallucination(lowered: &str) -> (yes: bool)
    ensures
        yes == hallucination(lowered@),
{
    same(lowered, "thank you.") || same(lowered, "thank you") || same(
        lowered,
        "thanks for watching.",
    ) || same(lowered, "thanks for watching") || same(lowered, "okay.") || same(lowered, "you")
        || same(lowered, "[blank_audio]") || same(lowered, "(blank_audio)") || same(lowered, ".")
}

/// Whether a trimmed line was said, given what it is in lowercase and whether
/// there is a letter in it.
pub fn was_said(line: &str, lowered: &str, has_letter: bool) -> (yes: bool)
    ensures
        yes == (line@.len() > 0 && !hallucination(lowered@) && has_letter),
{
    !line.is_empty() && !is_hallucination(lowered) && has_letter
}

fn has_letter(line: &str) -> (yes: bool)
    ensures
        yes == lettered(line@),
{
    for c in it: line.chars()
        invariant
            it.seq() == line@,
            forall|i: int| 0 <= i < it.index() ==> !alphabetic(#[trigger] line@[i]),
    {
        if c.is_alphabetic() {
            assert(alphabetic(line@[it.index() as int]));
            return true;
        }
    }
    false
}

/// Clean one server response into text worth showing, or nothing.
///
/// Whisper answers near-silence with stray punctuation, bare digits, or a
/// stock pleasantry. None of that was said, so none of it should be typed.
pub fn clean(text: &str) -> (out: String)
    ensures
        out@ == cleaned(text@),
{
    let lines: Vec<String> = split_lines(text);
    let ghost all = lines_of(text@).map_values(|line: Seq<char>| trimmed(line));
    let ghost is_said = |line: Seq<char>| said(line);
    let mut kept: Vec<String> = Vec::new();
    let mut i: usize = 0;
    assert(all.take(0) =~= Seq::empty());
    assert(contents(kept@) =~= all.take(0).filter(is_said));
    while i < lines.len()
        invariant
            i <= lines@.len(),
            contents(lines@) == lines_of(text@),
            all == lines_of(text@).map_values(|line: Seq<char>| trimmed(line)),
            is_said == (|line: Seq<char>| said(line)),
            contents(kept@) == all.take(i as int).filter(is_said),
        decreases lines@.len() - i,
    {
        assert(contents(lines@)[i as int] == lines@[i as int]@);
        let line = trim(lines[i].as_str());
        assert(line@ == all[i as int]);
        let ghost before = kept@;
        proof {
            assert(all.take(i + 1) =~= all.take(i as int).push(all[i as int]));
            all.take(i as int).lemma_filter_push(all[i as int], is_said);
        }
        if was_said(line, line.to_lowercase().as_str(), has_letter(line)) {
            kept.push(line.to_owned());
            assert(contents(kept@) =~= contents(before).push(line@));
        }
        i = i + 1;
    }
    assert(all.take(i as int) =~= all);
    join_spaced(&kept)
}

/// Something the transcriber has to say, delivered back to the event loop.
#[derive(Debug, Clone, PartialEq, Eq)]
pub enum Transcript {
    /// Text for an utterance still being spoken.
    Preview { text: String, generation: u64 },
    /// Text for a settled utterance.
    Final { text: String, generation: u64 },
    /// The server could not be reached. Dictation stops.
    Failed(String),
}

/// What a [`Transcript`] says.
pub enum TranscriptView {
    Preview { text: Seq<char>, generation: int },
    Final { text: Seq<char>, generation: int },
    Failed(Seq<char>),
}

impl View for Transcript {
    type V = TranscriptView;

    open spec fn view(&self) -> TranscriptView {
        match *self {
            Transcript::Preview { text, generation } => TranscriptView::Preview {
                text: text@,
                generation: generation as int,
            },
            Transcript::Final { text, generation } => TranscriptView::Final {
                text: text@,
                generation: generation as int,
            },
            Transcript::Failed(err) => TranscriptView::Failed(err@),
        }
    }
}

/// Which transcription lanes still take chunks.
#[derive(Debug, Clone, Copy, PartialEq, Eq, Structural)]
pub struct Lanes {
    pub finals: bool,
    pub previews: bool,
}

impl Lanes {
    /// Whether the lane that handles a chunk still takes it.
    pub open spec fn takes(self, chunk: ChunkView) -> bool {
        if chunk.final_ {
            self.finals
        } else {
            self.previews
        }
    }
}

/// The way to the transcription lanes.
///
/// Finals and previews get a lane each. Sharing one looks tidier but serialises
/// them: a preview cannot even be *sent* while a settled utterance is in
/// flight, so every preview arriving in that window is discarded as stale and
/// the text visibly stops keeping up with the speaker.
#[derive(Debug)]
pub struct Transcriber {
    /// The utterance currently being filled. The preview lane reads this to
    /// skip previews of an utterance that has already been cut.
    filling: u64,
}

impl View for Transcriber {
    type V = int;

    /// The utterance currently being filled.
    closed spec fn view(&self) -> int {
        self.filling as int
    }
}

/// The utterance that a chunk shows to be filling: the one it belongs to, and if
/// that one is over, the next.
pub open spec fn reached_by(chunk: ChunkView) -> int {
    if chunk.final_ {
        chunk.generation + 1
    } else {
        chunk.generation
    }
}

/// The utterance being filled once a chunk is on its way: at least the one that
/// the chunk shows to be.
pub open spec fn filling_after(filling: int, chunk: ChunkView) -> int {
    if reached_by(chunk) > filling {
        reached_by(chunk)
    } else {
        filling
    }
}

/// What queueing a chunk while an utterance is being filled asks for. The preview
/// lane learns which one is being filled even where the chunk's own lane is gone.
pub open spec fn queued(chunk: ChunkView, lanes: Lanes, filling: int) -> Seq<EffectView> {
    let told = EffectView::Filling(filling_after(filling, chunk));
    if lanes.takes(chunk) {
        seq![told, EffectView::Transcribe(chunk)]
    } else {
        seq![told]
    }
}

impl Transcriber {
    pub fn new() -> (transcriber: Self)
        ensures
            transcriber@ == 0,
    {
        Transcriber { filling: 0 }
    }

    /// The utterance currently being filled.
    pub fn filling(&self) -> (generation: u64)
        ensures
            generation == self@,
    {
        self.filling
    }

    /// Queue a chunk. Returns false once the lane that handles it is gone.
    pub fn send(&mut self, chunk: Chunk, lanes: Lanes, effects: &mut Vec<Effect>) -> (sent: bool)
        requires
            chunk.final_ ==> chunk.generation < u64::MAX,
        ensures
            sent == lanes.takes(chunk@),
            final(self)@ == filling_after(old(self)@, chunk@),
            asked(final(effects)@) == asked(old(effects)@) + queued(chunk@, lanes, old(self)@),
    {
        let reached: u64 = if chunk.final_ {
            // This utterance is over, so previews of it are worthless now.
            chunk.generation + 1
        } else {
            chunk.generation
        };
        if reached > self.filling {
            self.filling = reached;
        }
        ask(effects, Effect::Filling(self.filling));
        let open = if chunk.final_ {
            lanes.finals
        } else {
            lanes.previews
        };
        let ghost view = chunk@;
        if open {
            ask(effects, Effect::Transcribe(chunk));
        }
        assert(asked(effects@) =~= asked(old(effects)@) + queued(view, lanes, old(self)@));
        open
    }
}

/// Whether a preview is worth a request while an utterance is being filled: not
/// once its own has been cut, since its final is already on the way then.
pub open spec fn worth_previewing(preview: ChunkView, filling: int) -> bool {
    preview.generation >= filling
}

/// Which of the previews queued together is transcribed: the last, where it is
/// worth a request.
pub open spec fn fetched(queue: Seq<ChunkView>, filling: int) -> Option<ChunkView> {
    if queue.len() > 0 && worth_previewing(queue.last(), filling) {
        Some(queue.last())
    } else {
        None
    }
}

/// Which of the previews queued on the preview lane to transcribe. Latest wins:
/// anything queued behind a preview describes more of the sentence than it
/// does. And if the utterance of the latest has been cut, its final is already
/// on the way, so none of them is worth it.
pub fn freshest(queue: Vec<Chunk>, filling: u64) -> (chosen: Option<Chunk>)
    ensures
        match chosen {
            Some(chunk) => queue@.len() > 0 && chunk == queue@.last() && fetched(
                views(queue@),
                filling as int,
            ) == Some(chunk@),
            None => fetched(views(queue@), filling as int) is None,
        },
{
    let mut queue: Vec<Chunk> = queue;
    match queue.pop() {
        None => None,
        Some(chunk) => if chunk.generation < filling {
            None
        } else {
            Some(chunk)
        },
    }
}

/// A text or what went wrong.
pub open spec fn outcome(result: Result<String, String>) -> Result<Seq<char>, Seq<char>> {
    match result {
        Ok(text) => Ok(text@),
        Err(err) => Err(err@),
    }
}

/// What a lane does about the outcome of one request.
#[derive(Debug)]
pub struct Report {
    /// What it says.
    pub message: Option<Transcript>,
    /// Whether it gives up, whether or not the message arrives.
    pub gives_up: bool,
}

/// What a lane says about the outcome of one request: the text of the chunk, or
/// for a failed final the failure. A failed preview is not worth stopping over;
/// the next one will very likely succeed and nothing was shown to the user. A
/// failed final means the transcript would silently lose words.
pub open spec fn message(chunk: ChunkView, result: Result<Seq<char>, Seq<char>>) -> Option<
    TranscriptView,
> {
    match result {
        Ok(text) => if chunk.final_ {
            Some(TranscriptView::Final { text, generation: chunk.generation })
        } else {
            Some(TranscriptView::Preview { text, generation: chunk.generation })
        },
        Err(err) => if chunk.final_ {
            Some(TranscriptView::Failed(err))
        } else {
            None
        },
    }
}

/// Whether a lane goes on after one request, given whether what it said of the
/// outcome arrived: a failed final ends it, and so does nobody listening.
pub open spec fn carries_on(
    chunk: ChunkView,
    result: Result<Seq<char>, Seq<char>>,
    arrived: bool,
) -> bool {
    !(chunk.final_ && result is Err) && (message(chunk, result) is None || arrived)
}

/// What a lane does about the outcome of one request.
pub fn transcribe_and_report(chunk: &Chunk, result: Result<String, String>) -> (report: Report)
    ensures
        message(chunk@, outcome(result)) == (match report.message {
            Some(transcript) => Some(transcript@),
            None => None,
        }),
        report.gives_up == (chunk.final_ && result is Err),
        forall|arrived: bool| #[trigger]
            report.going(arrived) == carries_on(chunk@, outcome(result), arrived),
{
    match result {
        Ok(text) => {
            let transcript = if chunk.final_ {
                Transcript::Final { text, generation: chunk.generation }
            } else {
                Transcript::Preview { text, generation: chunk.generation }
            };
            Report { message: Some(transcript), gives_up: false }
        },
        Err(err) => {
            if !chunk.final_ {
                return Report { message: None, gives_up: false };
            }
            // Report it, then stop: losing words from the transcript without
            // saying so is worse than ending the session.
            Report { message: Some(Transcript::Failed(err)), gives_up: true }
        },
    }
}

impl Report {
    /// Whether the lane goes on, given whether its message arrived.
    pub open spec fn going(&self, arrived: bool) -> bool {
        !self.gives_up && (self.message is None || arrived)
    }

    /// Whether the lane goes on, given whether its message arrived: it stops
    /// once it gives up, and once nobody listens.
    pub fn goes_on(&self, arrived: bool) -> (yes: bool)
        ensures
            yes == self.going(arrived),
    {
        !self.gives_up && (self.message.is_none() || arrived)
    }
}

/// What separates the parts of an upload.
pub const BOUNDARY: &'static str = "----niri-dictation-boundary";

/// The line that starts a part.
pub open spec fn part_start() -> Seq<u8> {
    "--".spec_bytes() + BOUNDARY.spec_bytes() + "\r\n".spec_bytes()
}

/// One named value of an upload.
pub open spec fn part(name: &str, value: &str) -> Seq<u8> {
    part_start() + "Content-Disposition: form-data; name=\"".spec_bytes() + name.spec_bytes()
        + "\"\r\n\r\n".spec_bytes() + value.spec_bytes() + "\r\n".spec_bytes()
}

/// The audio of an upload, as a WAV file.
pub open spec fn file_part(pcm: Seq<u8>) -> Seq<u8> {
    part_start()
        + "Content-Disposition: form-data; name=\"file\"; filename=\"chunk.wav\"\r\n".spec_bytes()
        + "Content-Type: audio/wav\r\n\r\n".spec_bytes() + riff_header(pcm.len() as int) + pcm
        + "\r\n".spec_bytes()
}

/// A multipart upload that asks for the transcript of some audio.
pub open spec fn upload(language: &str, pcm: Seq<u8>) -> Seq<u8> {
    part("temperature", "0.0") + part("response_format", "json") + part("language", language)
        + file_part(pcm) + "--".spec_bytes() + BOUNDARY.spec_bytes() + "--\r\n".spec_bytes()
}

fn put_part_start(body: &mut Vec<u8>)
    ensures
        final(body)@ == old(body)@ + part_start(),
{
    put_str(body, "--");
    put_str(body, BOUNDARY);
    put_str(body, "\r\n");
    assert(body@ =~= old(body)@ + part_start());
}

fn put_part(body: &mut Vec<u8>, name: &str, value: &str)
    ensures
        final(body)@ == old(body)@ + part(name, value),
{
    put_part_start(body);
    put_str(body, "Content-Disposition: form-data; name=\"");
    put_str(body, name);
    put_str(body, "\"\r\n\r\n");
    put_str(body, value);
    put_str(body, "\r\n");
    assert(body@ =~= old(body)@ + part(name, value));
}

/// The body of a request: one chunk as a multipart WAV upload.
pub fn request_body(language: &str, pcm: &[u8]) -> (body: Vec<u8>)
    requires
        36 + pcm@.len() as int % 0x1_0000_0000 <= u32::MAX,
    ensures
        body@ == upload(language, pcm@),
{
    let mut body: Vec<u8> = Vec::new();
    put_part(&mut body, "temperature", "0.0");
    put_part(&mut body, "response_format", "json");
    put_part(&mut body, "language", language);

    put_part_start(&mut body);
    put_str(
        &mut body,
        "Content-Disposition: form-data; name=\"file\"; filename=\"chunk.wav\"\r\n",
    );
    put_str(&mut body, "Content-Type: audio/wav\r\n\r\n");
    let mut header: Vec<u8> = wav_header(pcm.len());
    body.append(&mut header);
    body.extend_from_slice(pcm);
    put_str(&mut body, "\r\n");
    put_str(&mut body, "--");
    put_str(&mut body, BOUNDARY);
    put_str(&mut body, "--\r\n");
    assert(body@ =~= upload(language, pcm@));
    body
}

/// What the header of a request says its body is.
pub fn content_type() -> (value: String)
    ensures
        value@ == "multipart/form-data; boundary="@ + BOUNDARY@,
{
    "multipart/form-data; boundary=".to_owned().concat(BOUNDARY)
}

/// A failure as the server's.
pub open spec fn server_failure(what: Seq<char>) -> Seq<char> {
    "whisper server: "@ + what
}

/// A request that failed on the way, with what the transport says of it.
pub fn transport_failure(err: &str) -> (failure: String)
    ensures
        failure@ == server_failure(err@),
{
    "whisper server: ".to_owned().concat(err)
}

/// The string values that a response can hold.
#[derive(Debug)]
pub struct Reply {
    pub error: Option<String>,
    pub text: Option<String>,
}

/// The members of a JSON object that are wanted, of those that are strings.
pub open spec fn string_member(
    members: Map<Seq<char>, Option<Seq<char>>>,
    key: Seq<char>,
) -> Option<Seq<char>> {
    if members.contains_key(key) {
        members[key]
    } else {
        None
    }
}

/// What a response means: an error where it holds one, otherwise its text. A
/// response without either, or none that can be read, is a failure.
pub open spec fn meaning(body: Seq<char>, reply: Option<(Option<Seq<char>>, Option<Seq<char>>)>)
    -> Result<Seq<char>, Seq<char>> {
    match reply {
        None => Err(server_failure("bad response: "@ + trimmed(body))),
        Some((Some(error), _)) => Err(server_failure(error)),
        Some((None, Some(text))) => Ok(text),
        Some((None, None)) => Err(server_failure("no text in response: "@ + trimmed(body))),
    }
}

/// What the members of a response hold, if it could be read.
pub open spec fn reply_view(reply: Option<Reply>) -> Option<
    (Option<Seq<char>>, Option<Seq<char>>),
> {
    match reply {
        None => None,
        Some(reply) => Some(
            (
                match reply.error {
                    Some(error) => Some(error@),
                    None => None,
                },
                match reply.text {
                    Some(text) => Some(text@),
                    None => None,
                },
            ),
        ),
    }
}

/// What a response means, given what its members hold.
pub fn interpret(body: &str, reply: Option<Reply>) -> (result: Result<String, String>)
    ensures
        outcome(result) == meaning(body@, reply_view(reply)),
{
    match reply {
        None => {
            let failure = "whisper server: ".to_owned().concat("bad response: ").concat(trim(body));
            assert(failure@ =~= server_failure("bad response: "@ + trimmed(body@)));
            Err(failure)
        },
        Some(reply) => match reply.error {
            Some(error) => Err("whisper server: ".to_owned().concat(error.as_str())),
            None => match reply.text {
                Some(text) => Ok(text),
                None => {
                    let failure = "whisper server: ".to_owned().concat(
                        "no text in response: ",
                    ).concat(trim(body));
                    assert(failure@ =~= server_failure(
                        "no text in response: "@ + trimmed(body@),
                    ));
                    Err(failure)
                },
            },
        },
    }
}

/// A parsed JSON document.
#[verifier::external_type_specification]
#[verifier::external_body]
pub struct ExValue(serde_json::Value);

/// Why a text is not a JSON document.
#[verifier::external_type_specification]
#[verifier::external_body]
pub struct ExError(serde_json::Error);

/// The members of a JSON value, each with its string where it is one. A value
/// that is no object has none.
pub uninterp spec fn members(value: serde_json::Value) -> Map<Seq<char>, Option<Seq<char>>>;

/// The string that a JSON value is, if it is one.
pub uninterp spec fn string_of(value: serde_json::Value) -> Option<Seq<char>>;

/// What [`serde_json::from_str`] reads a text as: the members of the JSON value
/// that it is, or nothing where it is no JSON document.
pub uninterp spec fn json_document(text: Seq<char>) -> Option<Map<Seq<char>, Option<Seq<char>>>>;

/// [`serde_json::from_str`] into a [`serde_json::Value`]: reads a text as a JSON
/// document, and fails where it is none. What a given text holds is left to the
/// name.
#[verifier::external_body]
fn read_json(text: &str) -> (document: Result<serde_json::Value, serde_json::Error>)
    ensures
        json_document(text@) == (match document {
            Ok(value) => Some(members(value)),
            Err(_) => None,
        }),
{
    serde_json::from_str(text)
}

/// [`serde_json::Value::get`] with a string: the member of that name, or nothing
/// where the value is no object or has no such member.
#[verifier::external_body]
fn member<'a>(value: &'a serde_json::Value, key: &str) -> (found: Option<&'a serde_json::Value>)
    ensures
        match found {
            Some(inner) => members(*value).contains_key(key@) && members(*value)[key@] == string_of(
                *inner,
            ),
            None => !members(*value).contains_key(key@),
        },
{
    value.get(key)
}

/// [`serde_json::Value::as_str`]: the string that the value is, if it is one.
pub assume_specification[ serde_json::Value::as_str ](value: &serde_json::Value) -> (text: Option<
    &str,
>)
    ensures
        match text {
            Some(text) => string_of(*value) == Some(text@),
            None => string_of(*value) is None,
        },
;

fn string_at(value: &serde_json::Value, key: &str) -> (text: Option<String>)
    ensures
        string_member(members(*value), key@) == (match text {
            Some(text) => Some(text@),
            None => None,
        }),
{
    match member(value, key) {
        Some(inner) => match inner.as_str() {
            Some(text) => Some(text.to_owned()),
            None => None,
        },
        None => None,
    }
}

/// What of a response [`meaning`] goes by.
pub open spec fn wanted(document: Option<Map<Seq<char>, Option<Seq<char>>>>) -> Option<
    (Option<Seq<char>>, Option<Seq<char>>),
> {
    match document {
        None => None,
        Some(members) => Some(
            (string_member(members, "error"@), string_member(members, "text"@)),
        ),
    }
}

/// Pull the transcript out of the server's JSON.
pub fn parse_response(body: &str) -> (result: Result<String, String>)
    ensures
        outcome(result) == meaning(body@, wanted(json_document(body@))),
{
    let reply: Option<Reply> = match read_json(body) {
        Ok(value) => Some(
            Reply { error: string_at(&value, "error"), text: string_at(&value, "text") },
        ),
        Err(_) => None,
    };
    interpret(body, reply)
}

/// What a response means, given its status: a status that is no success is a
/// failure, whatever the body.
pub open spec fn response(status: u16, status_line: Seq<char>, body: Seq<char>) -> Result<
    Seq<char>,
    Seq<char>,
> {
    if 200 <= status < 300 {
        meaning(body, wanted(json_document(body)))
    } else {
        Err(server_failure(status_line + ": "@ + trimmed(body)))
    }
}

/// Read the server's response: its status, in numbers and in words, and its
/// body.
pub fn read_response(status: u16, status_line: &str, body: &str) -> (result: Result<String, String>)
    ensures
        outcome(result) == response(status, status_line@, body@),
{
    if 200 <= status && status < 300 {
        parse_response(body)
    } else {
        let failure = "whisper server: ".to_owned().concat(status_line).concat(": ").concat(
            trim(body),
        );
        assert(failure@ =~= server_failure(status_line@ + ": "@ + trimmed(body@)));
        Err(failure)
    }
}

} // verus!
