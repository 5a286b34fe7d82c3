use knuffel::ast::{Literal, SpannedNode};
use knuffel::span::Span;
use niri_dictation::config::dictation::{Dictation, DictationPart};
use niri_dictation::config::gestures::{
    Action, DndEdgeViewScroll, DndEdgeViewScrollPart, DndEdgeWorkspaceSwitch,
    DndEdgeWorkspaceSwitchPart, FloatOrInt, Gestures, GesturesPart, HotCorners, HotEdge,
    HotEdgeDirection, HotEdges, Real,
};
use niri_dictation::config::MergeWith;

fn text(node: &SpannedNode<Span>) -> Option<String> {
    match &*node.arguments[0].literal {
        Literal::String(text) => Some(text.to_string()),
        _ => panic!("expected a string"),
    }
}

fn number(node: &SpannedNode<Span>) -> Option<u32> {
    match &*node.arguments[0].literal {
        Literal::Int(number) => Some(u32::try_from(number).unwrap()),
        _ => panic!("expected a number"),
    }
}

/// The settings that a configuration makes of the defaults.
fn parse(config: &str) -> Dictation {
    let document = knuffel::parse_ast::<Span>("config.kdl", config).unwrap();
    let mut settings = Dictation::default();
    for section in &document.nodes {
        assert_eq!(&**section.node_name, "dictation");
        let mut part = DictationPart::default();
        for node in section.children() {
            match &**node.node_name {
                "whisper-url" => part.whisper_url = text(node),
                "language" => part.language = text(node),
                "chunk-ms" => part.chunk_ms = number(node),
                "max-chunk-ms" => part.max_chunk_ms = number(node),
                "silence-ms" => part.silence_ms = number(node),
                "min-speech-ms" => part.min_speech_ms = number(node),
                "min-speech-rms" => part.min_speech_rms = number(node),
                "partial-ms" => part.partial_ms = number(node),
                "request-timeout-ms" => part.request_timeout_ms = number(node),
                name => panic!("unexpected node {name}"),
            }
        }
        settings.merge_with(&part);
    }
    settings
}

#[test]
fn parses_a_dictation_section() {
    let dictation = parse(
        r#"
            dictation {
                whisper-url "http://example.invalid:1234/inference"
                chunk-ms 2500
                partial-ms 500
            }
            "#,
    );

    assert_eq!(
        dictation.whisper_url,
        "http://example.invalid:1234/inference"
    );
    assert_eq!(dictation.chunk_ms, 2500);
    assert_eq!(dictation.partial_ms, 500);
    // Anything not named keeps its default.
    assert_eq!(dictation.silence_ms, 400);
    assert_eq!(dictation.language, "en");
}

#[test]
fn defaults_without_a_section() {
    assert_eq!(parse(""), Dictation::default());
}

#[test]
fn the_defaults_are_these() {
    assert_eq!(
        Dictation::default(),
        Dictation {
            whisper_url: "http://127.0.0.1:9876/inference".to_owned(),
            language: "en".to_owned(),
            chunk_ms: 3000,
            max_chunk_ms: 10000,
            silence_ms: 400,
            min_speech_ms: 200,
            min_speech_rms: 120,
            partial_ms: 700,
            request_timeout_ms: 30000,
        }
    );
}

#[test]
fn the_later_section_wins() {
    let dictation = parse(
        r#"
            dictation {
                language "de"
                silence-ms 1
                min-speech-ms 2
            }
            dictation {
                language "fr"
                max-chunk-ms 3
                min-speech-rms 4
                request-timeout-ms 5
            }
            dictation {}
            "#,
    );
    assert_eq!(
        dictation,
        Dictation {
            language: "fr".to_owned(),
            silence_ms: 1,
            min_speech_ms: 2,
            max_chunk_ms: 3,
            min_speech_rms: 4,
            request_timeout_ms: 5,
            ..Dictation::default()
        }
    );
}

#[test]
fn merging_twice_is_merging_once() {
    let part = DictationPart {
        whisper_url: Some("http://example.invalid/".to_owned()),
        chunk_ms: Some(1),
        ..DictationPart::default()
    };
    let mut once = Dictation::default();
    once.merge_with(&part);
    let mut twice = once.duplicate();
    twice.merge_with(&part);
    assert_eq!(once, twice);
    assert_ne!(once, Dictation::default());
}

fn bits_of(value: f64) -> Real {
    Real {
        bits: value.to_bits(),
    }
}

#[test]
fn the_gesture_defaults_are_these() {
    let gestures = Gestures::default();
    assert_eq!(
        gestures.dnd_edge_view_scroll,
        DndEdgeViewScroll {
            trigger_width: bits_of(30.),
            delay_ms: 100,
            max_speed: bits_of(1500.),
        }
    );
    assert_eq!(
        gestures.dnd_edge_workspace_switch,
        DndEdgeWorkspaceSwitch {
            trigger_height: bits_of(50.),
            delay_ms: 100,
            max_speed: bits_of(1500.),
        }
    );
    assert_eq!(
        gestures.hot_corners,
        HotCorners {
            off: false,
            top_left: false,
            top_right: false,
            bottom_left: false,
            bottom_right: false,
        }
    );
    assert!(gestures.hot_edges.is_empty());
}

fn edge(direction: HotEdgeDirection, id: u64) -> HotEdge {
    HotEdge {
        direction,
        output: "DP-1".to_owned(),
        delay_ms: 250,
        action: Action { id },
    }
}

#[test]
fn gesture_sections_are_laid_over() {
    let corners = HotCorners {
        top_left: true,
        ..HotCorners::default()
    };
    let part = GesturesPart {
        dnd_edge_view_scroll: Some(DndEdgeViewScrollPart {
            trigger_width: Some(FloatOrInt { value: bits_of(12.5) }),
            delay_ms: None,
            max_speed: None,
        }),
        dnd_edge_workspace_switch: Some(DndEdgeWorkspaceSwitchPart {
            trigger_height: None,
            delay_ms: Some(7),
            max_speed: Some(FloatOrInt { value: bits_of(9.) }),
        }),
        hot_corners: Some(corners),
        hot_edges: Some(HotEdges(vec![edge(HotEdgeDirection::Left, 1)])),
    };
    let mut gestures = Gestures::default();
    gestures.merge_with(&part);
    let expected = Gestures {
        dnd_edge_view_scroll: DndEdgeViewScroll {
            trigger_width: bits_of(12.5),
            ..DndEdgeViewScroll::default()
        },
        dnd_edge_workspace_switch: DndEdgeWorkspaceSwitch {
            trigger_height: bits_of(50.),
            delay_ms: 7,
            max_speed: bits_of(9.),
        },
        hot_corners: corners,
        hot_edges: vec![edge(HotEdgeDirection::Left, 1)],
    };
    assert_eq!(gestures, expected);

    // Laying it over again, or one that names nothing, changes nothing.
    gestures.merge_with(&part);
    gestures.merge_with(&GesturesPart::default());
    assert_eq!(gestures, expected);

    // Edges are replaced as a whole.
    gestures.merge_with(&GesturesPart {
        hot_edges: Some(HotEdges(vec![
            edge(HotEdgeDirection::Top, 2),
            edge(HotEdgeDirection::Top, 3),
        ])),
        ..GesturesPart::default()
    });
    assert_eq!(
        gestures.hot_edges,
        [
            edge(HotEdgeDirection::Top, 2),
            edge(HotEdgeDirection::Top, 3)
        ]
    );
    gestures.merge_with(&GesturesPart {
        hot_edges: Some(HotEdges::default()),
        ..GesturesPart::default()
    });
    assert!(gestures.hot_edges.is_empty());
}
