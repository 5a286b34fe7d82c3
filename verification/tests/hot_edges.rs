use niri_dictation::config::gestures::{Action, HotEdge, HotEdgeDirection, HotEdges};
use niri_dictation::config::hot_edges::{
    direction, setting_kind, Argument, Diagnostic, EdgeDraft, EdgeNode, EdgeProblem, EdgeSetting,
    LineOutcome, Refusal, SettingKind,
};

fn output(name: &str) -> EdgeSetting {
    EdgeSetting::Output(Argument::Value(name.to_owned()))
}

fn delay(ms: u16) -> EdgeSetting {
    EdgeSetting::DelayMs(Argument::Value(ms))
}

fn action(id: u64) -> EdgeSetting {
    EdgeSetting::Action(Some(Action { id }))
}

fn node(name: &str, settings: Vec<EdgeSetting>) -> EdgeNode {
    EdgeNode {
        name: name.to_owned(),
        settings,
    }
}

fn decode(nodes: Vec<EdgeNode>) -> (Result<HotEdges, Refusal>, Vec<Diagnostic>) {
    let mut diagnostics = Vec::new();
    let result = HotEdges::decode_node(&nodes, &mut diagnostics);
    (result, diagnostics)
}

fn edge(direction: HotEdgeDirection, output: &str, delay_ms: u16, id: u64) -> HotEdge {
    HotEdge {
        direction,
        output: output.to_owned(),
        delay_ms,
        action: Action { id },
    }
}

fn diagnostic(node: usize, setting: Option<usize>, problem: EdgeProblem) -> Diagnostic {
    Diagnostic {
        node,
        setting,
        problem,
    }
}

#[test]
fn reads_edges() {
    let (edges, diagnostics) = decode(vec![
        node("top", vec![output("DP-1"), action(1)]),
        node("bottom", vec![action(2), delay(0), output("DP-2")]),
        node("left", vec![delay(65535), output(""), action(3)]),
        node("right", vec![output("e\u{301}"), action(4)]),
    ]);
    assert_eq!(
        edges,
        Ok(HotEdges(vec![
            edge(HotEdgeDirection::Top, "DP-1", 250, 1),
            edge(HotEdgeDirection::Bottom, "DP-2", 0, 2),
            edge(HotEdgeDirection::Left, "", 65535, 3),
            edge(HotEdgeDirection::Right, "e\u{301}", 250, 4),
        ]))
    );
    assert!(diagnostics.is_empty());
    assert_eq!(decode(Vec::new()), (Ok(HotEdges::default()), Vec::new()));
}

#[test]
fn the_last_output_and_delay_and_the_first_action_count() {
    let (edges, diagnostics) = decode(vec![node(
        "top",
        vec![
            output("a"),
            delay(1),
            action(1),
            output("b"),
            action(2),
            delay(2),
        ],
    )]);
    assert_eq!(
        edges,
        Ok(HotEdges(vec![edge(HotEdgeDirection::Top, "b", 2, 1)]))
    );
    assert_eq!(
        diagnostics,
        [diagnostic(0, Some(4), EdgeProblem::SecondAction)]
    );
}

#[test]
fn problems_are_noted_in_order() {
    let (edges, diagnostics) = decode(vec![
        node("middle", vec![EdgeSetting::Output(Argument::Bad)]),
        node("top", vec![]),
        node("bottom", vec![output("a")]),
        node(
            "left",
            vec![
                EdgeSetting::Output(Argument::Missing),
                EdgeSetting::DelayMs(Argument::Missing),
                EdgeSetting::Action(None),
                action(1),
            ],
        ),
        node("right", vec![output("a"), action(9)]),
    ]);
    assert_eq!(
        edges,
        Ok(HotEdges(vec![edge(HotEdgeDirection::Right, "a", 250, 9)]))
    );
    assert_eq!(
        diagnostics,
        [
            diagnostic(0, None, EdgeProblem::UnexpectedDirection),
            diagnostic(1, None, EdgeProblem::NoOutput),
            diagnostic(2, None, EdgeProblem::NoAction),
            diagnostic(3, Some(0), EdgeProblem::OutputWithoutName),
            diagnostic(3, Some(1), EdgeProblem::DelayWithoutValue),
            diagnostic(3, Some(2), EdgeProblem::NotAnAction),
            diagnostic(3, None, EdgeProblem::NoOutput),
        ]
    );
}

#[test]
fn an_argument_that_cannot_be_read_ends_it() {
    let (result, diagnostics) = decode(vec![
        node("top", vec![output("a"), action(1)]),
        node(
            "left",
            vec![
                EdgeSetting::Action(None),
                EdgeSetting::DelayMs(Argument::Bad),
                EdgeSetting::Action(None),
            ],
        ),
        node("middle", vec![]),
    ]);
    assert_eq!(
        result,
        Err(Refusal {
            node: 1,
            setting: 1
        })
    );
    assert_eq!(
        diagnostics,
        [diagnostic(1, Some(0), EdgeProblem::NotAnAction)]
    );
    let (result, _) = decode(vec![node("top", vec![EdgeSetting::Output(Argument::Bad)])]);
    assert_eq!(
        result,
        Err(Refusal {
            node: 0,
            setting: 0
        })
    );
}

#[test]
fn problems_are_put_into_words() {
    let say = |problem: EdgeProblem| problem.message("t\u{fc}p\t\"");
    assert_eq!(
        say(EdgeProblem::UnexpectedDirection).unwrap(),
        "unexpected edge direction `t\\u{fc}p\\t\\\"`; expected top, bottom, left, or right"
    );
    assert_eq!(
        say(EdgeProblem::OutputWithoutName).unwrap(),
        "output requires a name argument"
    );
    assert_eq!(
        say(EdgeProblem::DelayWithoutValue).unwrap(),
        "delay-ms requires a value argument"
    );
    assert_eq!(
        say(EdgeProblem::SecondAction).unwrap(),
        "only one action is allowed per hot-edge"
    );
    assert_eq!(say(EdgeProblem::NotAnAction), None);
    assert_eq!(
        say(EdgeProblem::NoOutput).unwrap(),
        "hot-edge requires an output"
    );
    assert_eq!(
        say(EdgeProblem::NoAction).unwrap(),
        "hot-edge requires an action"
    );
}

#[test]
fn names_are_escaped() {
    let shown = |name: &str| EdgeProblem::UnexpectedDirection.message(name).unwrap();
    for (name, escaped) in [
        ("plain ~", "plain ~"),
        ("\r\n'\\", "\\r\\n\\'\\\\"),
        ("\u{7f}\u{0}", "\\u{7f}\\u{0}"),
        ("\u{1f600}", "\\u{1f600}"),
    ] {
        assert_eq!(
            shown(name),
            format!(
                "unexpected edge direction `{escaped}`; expected top, bottom, left, or right"
            )
        );
    }
}

#[test]
fn names_are_recognised() {
    assert_eq!(setting_kind("output"), SettingKind::Output);
    assert_eq!(setting_kind("delay-ms"), SettingKind::DelayMs);
    assert_eq!(setting_kind("toggle-overview"), SettingKind::Action);
    assert_eq!(setting_kind("delay_ms"), SettingKind::Action);
    assert_eq!(direction("top"), Some(HotEdgeDirection::Top));
    assert_eq!(direction("bottom"), Some(HotEdgeDirection::Bottom));
    assert_eq!(direction("left"), Some(HotEdgeDirection::Left));
    assert_eq!(direction("right"), Some(HotEdgeDirection::Right));
    assert_eq!(direction("Top"), None);
    assert_eq!(direction(""), None);
}

#[test]
fn names_are_escaped_as_std_escapes_them() {
    let text: String = (0..0x3000u32)
        .chain(0x1_f5f0..0x1_f610)
        .chain(0x10_fff0..=0x10_ffff)
        .filter_map(char::from_u32)
        .collect();
    assert_eq!(
        EdgeProblem::UnexpectedDirection.message(&text).unwrap(),
        format!(
            "unexpected edge direction `{}`; expected top, bottom, left, or right",
            text.escape_default()
        )
    );
}

#[test]
fn edges_are_read_line_by_line() {
    assert_eq!(
        EdgeDraft::begin("middle").unwrap_err(),
        EdgeProblem::UnexpectedDirection
    );

    let mut draft = EdgeDraft::begin("left").unwrap();
    assert_eq!(draft.line(&delay(9)), LineOutcome::Taken);
    assert_eq!(
        draft.line(&EdgeSetting::Output(Argument::Missing)),
        LineOutcome::Problem(EdgeProblem::OutputWithoutName)
    );
    assert_eq!(
        draft.line(&EdgeSetting::DelayMs(Argument::Bad)),
        LineOutcome::Refused
    );
    assert_eq!(draft.line(&action(1)), LineOutcome::Taken);
    assert_eq!(
        draft.line(&action(2)),
        LineOutcome::Problem(EdgeProblem::SecondAction)
    );
    assert_eq!(draft.line(&output("DP-1")), LineOutcome::Taken);
    assert_eq!(draft.end(), Ok(edge(HotEdgeDirection::Left, "DP-1", 9, 1)));

    let draft = EdgeDraft::begin("top").unwrap();
    assert_eq!(draft.end(), Err(EdgeProblem::NoOutput));
    let mut draft = EdgeDraft::begin("top").unwrap();
    draft.line(&output("DP-1"));
    assert_eq!(draft.end(), Err(EdgeProblem::NoAction));
}
