use niri_dictation::dictation::chunker::{wav_header, Chunk};
use niri_dictation::dictation::effect::Effect;
use niri_dictation::dictation::whisper::{
    clean, content_type, freshest, interpret, parse_response, read_response, request_body,
    transcribe_and_report, transport_failure, was_said, Lanes, Reply, Transcriber, Transcript,
};

#[test]
fn reads_the_text_field() {
    assert_eq!(
        parse_response(r#"{"text": " Hello there.\n"}"#).unwrap(),
        " Hello there.\n"
    );
}

#[test]
fn surfaces_a_server_error() {
    let err = parse_response(r#"{"error": "model not loaded"}"#).unwrap_err();
    assert!(err.contains("model not loaded"), "{err}");
}

#[test]
fn rejects_junk() {
    assert!(parse_response("<html>502</html>").is_err());
}

#[test]
fn drops_what_was_never_said() {
    assert_eq!(clean(" Thank you.\n"), "");
    assert_eq!(clean("[BLANK_AUDIO]"), "");
    assert_eq!(clean("0."), "");
    assert_eq!(clean("...\n"), "");
    assert_eq!(clean("   "), "");
}

#[test]
fn keeps_what_was() {
    assert_eq!(clean(" Hello, this is a test.\n"), "Hello, this is a test.");
    // Several lines become one utterance.
    assert_eq!(clean("first line\nsecond line"), "first line second line");
    // A real sentence containing a stock phrase is not a hallucination.
    assert_eq!(
        clean("thank you for the review"),
        "thank you for the review"
    );
}

#[test]
fn drops_every_stock_phrase_whatever_its_case() {
    for phrase in [
        "thank you.",
        "THANK YOU",
        "Thanks for watching.",
        "thanks for WATCHING",
        "Okay.",
        "You",
        "[Blank_Audio]",
        "(BLANK_AUDIO)",
        ".",
    ] {
        assert_eq!(clean(phrase), "", "{phrase}");
    }
    assert_eq!(clean("okay"), "okay");
}

#[test]
fn drops_lines_and_keeps_their_neighbours() {
    assert_eq!(
        clean("one\r\n\n  Thank you.  \n 42 \r\n\u{a0}two\u{3000}\n"),
        "one two"
    );
    assert_eq!(clean(""), "");
    assert_eq!(clean("\n\n"), "");
}

#[test]
fn letters_of_any_script_are_words() {
    assert_eq!(clean("\u{4f60}\u{597d}"), "\u{4f60}\u{597d}");
    assert_eq!(clean("\u{e9}"), "\u{e9}");
    assert_eq!(clean("123 \u{2026}"), "");
}

#[test]
fn cleaning_again_changes_nothing_but_a_phrase_made_of_lines() {
    for text in ["first line\nsecond line", " hello ", "..."] {
        assert_eq!(clean(&clean(text)), clean(text));
    }
    assert_eq!(clean("thanks for\nwatching"), "thanks for watching");
    assert_eq!(clean(&clean("thanks for\nwatching")), "");
}

#[test]
fn a_line_is_judged_by_what_is_known_of_it() {
    assert!(was_said("Hello", "hello", true));
    assert!(!was_said("", "", true));
    assert!(!was_said("You", "you", true));
    assert!(!was_said("12", "12", false));
}

#[test]
fn answers_mean_what_they_hold() {
    let both = r#"{"error": "busy", "text": "hi"}"#;
    assert_eq!(parse_response(both).unwrap_err(), "whisper server: busy");
    // What is no string does not count.
    assert_eq!(
        parse_response(r#"{"error": null, "text": "hi"}"#).unwrap(),
        "hi"
    );
    assert_eq!(
        parse_response(" {\"text\": 3} ").unwrap_err(),
        "whisper server: no text in response: {\"text\": 3}"
    );
    assert_eq!(
        parse_response("[\"text\"]\n").unwrap_err(),
        "whisper server: no text in response: [\"text\"]"
    );
    assert_eq!(
        parse_response(" nonsense\n").unwrap_err(),
        "whisper server: bad response: nonsense"
    );
}

#[test]
fn answers_are_interpreted_by_their_members() {
    let reply = |error: Option<&str>, text: Option<&str>| {
        Some(Reply {
            error: error.map(str::to_owned),
            text: text.map(str::to_owned),
        })
    };
    assert_eq!(interpret("b", reply(None, Some("t"))).unwrap(), "t");
    assert_eq!(
        interpret("b", reply(Some("e"), Some("t"))).unwrap_err(),
        "whisper server: e"
    );
    assert_eq!(
        interpret(" b ", reply(None, None)).unwrap_err(),
        "whisper server: no text in response: b"
    );
    assert_eq!(
        interpret(" b ", None).unwrap_err(),
        "whisper server: bad response: b"
    );
}

#[test]
fn a_bad_status_fails_whatever_the_body() {
    let body = r#"{"text": "hi"}"#;
    assert_eq!(read_response(200, "200 OK", body).unwrap(), "hi");
    assert_eq!(read_response(299, "299", body).unwrap(), "hi");
    assert_eq!(
        read_response(502, "502 Bad Gateway", " oops\n").unwrap_err(),
        "whisper server: 502 Bad Gateway: oops"
    );
    assert!(read_response(199, "199", body).is_err());
    assert!(read_response(300, "300 Multiple Choices", body).is_err());
}

#[test]
fn transport_failures_are_the_servers() {
    assert_eq!(transport_failure("timeout"), "whisper server: timeout");
}

#[test]
fn uploads_a_wav_file() {
    let pcm = [1u8, 2, 3, 4];
    let mut expected: Vec<u8> = Vec::new();
    for (name, value) in [
        ("temperature", "0.0"),
        ("response_format", "json"),
        ("language", "d\u{e9}"),
    ] {
        expected.extend_from_slice(
            format!(
                "------niri-dictation-boundary\r\n\
                 Content-Disposition: form-data; name=\"{name}\"\r\n\r\n{value}\r\n"
            )
            .as_bytes(),
        );
    }
    expected.extend_from_slice(
        b"------niri-dictation-boundary\r\n\
          Content-Disposition: form-data; name=\"file\"; filename=\"chunk.wav\"\r\n\
          Content-Type: audio/wav\r\n\r\n",
    );
    expected.extend_from_slice(&wav_header(4));
    expected.extend_from_slice(&pcm);
    expected.extend_from_slice(b"\r\n------niri-dictation-boundary--\r\n");

    assert_eq!(request_body("d\u{e9}", &pcm), expected);
    assert_eq!(
        content_type(),
        "multipart/form-data; boundary=----niri-dictation-boundary"
    );
}

fn chunk(generation: u64, final_: bool) -> Chunk {
    Chunk {
        pcm: vec![generation as u8],
        generation,
        final_,
    }
}

const OPEN: Lanes = Lanes {
    finals: true,
    previews: true,
};

#[test]
fn a_final_makes_its_previews_stale() {
    let mut transcriber = Transcriber::new();
    let mut effects = Vec::new();
    assert_eq!(transcriber.filling(), 0);

    assert!(transcriber.send(chunk(2, false), OPEN, &mut effects));
    assert_eq!(transcriber.filling(), 2);
    assert!(freshest(vec![chunk(2, false)], transcriber.filling()).is_some());

    assert!(transcriber.send(chunk(2, true), OPEN, &mut effects));
    assert_eq!(transcriber.filling(), 3);
    assert!(freshest(vec![chunk(2, false)], transcriber.filling()).is_none());

    // It never goes back.
    assert!(transcriber.send(chunk(1, true), OPEN, &mut effects));
    assert_eq!(transcriber.filling(), 3);

    assert_eq!(
        effects,
        [
            Effect::Filling(2),
            Effect::Transcribe(chunk(2, false)),
            Effect::Filling(3),
            Effect::Transcribe(chunk(2, true)),
            Effect::Filling(3),
            Effect::Transcribe(chunk(1, true)),
        ]
    );
}

#[test]
fn a_lane_that_is_gone_takes_nothing() {
    let mut transcriber = Transcriber::new();
    let mut effects = Vec::new();
    let finals_only = Lanes {
        finals: true,
        previews: false,
    };
    let previews_only = Lanes {
        finals: false,
        previews: true,
    };
    assert!(!transcriber.send(chunk(1, false), finals_only, &mut effects));
    assert!(!transcriber.send(chunk(1, true), previews_only, &mut effects));
    // The preview lane still learns which utterance is being filled.
    assert_eq!(effects, [Effect::Filling(1), Effect::Filling(2)]);
    assert_eq!(transcriber.filling(), 2);
}

#[test]
fn the_latest_preview_wins() {
    let latest = freshest(vec![chunk(4, false), chunk(5, false)], 5).unwrap();
    assert_eq!(latest, chunk(5, false));
    // The latest decides, even when an earlier one is fresh.
    assert!(freshest(vec![chunk(5, false), chunk(4, false)], 5).is_none());
    assert!(freshest(Vec::new(), 0).is_none());
}

#[test]
fn a_text_is_reported_as_what_it_is_of() {
    let report = transcribe_and_report(&chunk(7, true), Ok("hi".to_owned()));
    assert_eq!(
        report.message,
        Some(Transcript::Final {
            text: "hi".to_owned(),
            generation: 7
        })
    );
    assert!(report.goes_on(true));
    assert!(!report.goes_on(false));

    let report = transcribe_and_report(&chunk(7, false), Ok("hi".to_owned()));
    assert_eq!(
        report.message,
        Some(Transcript::Preview {
            text: "hi".to_owned(),
            generation: 7
        })
    );
}

#[test]
fn only_a_failed_final_is_fatal() {
    let report = transcribe_and_report(&chunk(7, true), Err("down".to_owned()));
    assert_eq!(report.message, Some(Transcript::Failed("down".to_owned())));
    assert!(!report.goes_on(true));

    let report = transcribe_and_report(&chunk(7, false), Err("down".to_owned()));
    assert_eq!(report.message, None);
    assert!(report.goes_on(false));
}

#[test]
fn lines_are_cleaned_each_for_itself() {
    for (text, more, both) in [
        ("one", "two", "one two"),
        ("Thank you.", " two ", "two"),
        ("one", "...", "one"),
        ("you", "", ""),
        ("a\nb", "c\n\nd", "a b c d"),
    ] {
        assert_eq!(clean(&format!("{text}\n{more}")), both);
    }
}

/// What a lane says to chunks with these results, one after the other.
fn lane(turns: Vec<(Chunk, Result<String, String>, bool)>) -> Vec<Transcript> {
    let mut said = Vec::new();
    for (chunk, result, arrives) in turns {
        let report = transcribe_and_report(&chunk, result);
        let going = report.goes_on(arrives);
        said.extend(report.message);
        if !going {
            break;
        }
    }
    said
}

#[test]
fn finals_are_answered_once_and_in_order() {
    let text = |text: &str| Ok(text.to_owned());
    let final_of = |text: &str, generation: u64| Transcript::Final {
        text: text.to_owned(),
        generation,
    };
    let said = lane(vec![
        (chunk(0, true), text("a"), true),
        (chunk(2, true), text("b"), true),
        (chunk(3, true), Err("down".to_owned()), true),
        (chunk(4, true), text("c"), true),
    ]);
    assert_eq!(
        said,
        [
            final_of("a", 0),
            final_of("b", 2),
            Transcript::Failed("down".to_owned())
        ]
    );
    let said = lane(vec![
        (chunk(0, true), text("a"), false),
        (chunk(1, true), text("b"), true),
    ]);
    assert_eq!(said, [final_of("a", 0)]);
}

#[test]
fn a_failed_preview_does_not_end_its_lane() {
    let said = lane(vec![
        (chunk(0, false), Err("down".to_owned()), true),
        (chunk(1, false), Ok("b".to_owned()), true),
    ]);
    assert_eq!(
        said,
        [Transcript::Preview {
            text: "b".to_owned(),
            generation: 1
        }]
    );
}
