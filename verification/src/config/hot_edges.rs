//! Reading the `hot-edges` block of a configuration.
use vstd::prelude::*;
use vstd::string::{StrSliceExecFns, StringExecFns};

use crate::config::gestures::Action;
use crate::config::gestures::HotEdge;
use crate::config::gestures::HotEdgeDirection;
use crate::config::gestures::HotEdges;
use crate::text::same;

verus! {

/// How long the pointer rests on an edge before it acts, where nothing is said.
pub const EDGE_DELAY_MS: u16 = 250;

/// The first argument of a setting.
#[derive(Debug)]
pub enum Argument<T> {
    /// There is none.
    Missing,
    Value(T),
    /// There is one, and it is not of the kind that the setting takes.
    Bad,
}

/// A line inside an edge.
#[derive(Debug)]
pub enum EdgeSetting {
    Output(Argument<String>),
    DelayMs(Argument<u16>),
    /// Any other line, as an action, or nothing where it is not one.
    Action(Option<Action>),
}

/// An edge as it is written: the name of its direction and the lines inside.
#[derive(Debug)]
pub struct EdgeNode {
    pub name: String,
    pub settings: Vec<EdgeSetting>,
}

/// What a line inside an edge is about, by its name.
#[derive(Debug, Clone, Copy, PartialEq, Eq, Structural)]
pub enum SettingKind {
    Output,
    DelayMs,
    Action,
}

pub open spec fn kind_of(name: Seq<char>) -> SettingKind {
    if name == "output"@ {
        SettingKind::Output
    } else if name == "delay-ms"@ {
        SettingKind::DelayMs
    } else {
        SettingKind::Action
    }
}

/// What a line inside an edge is about.
pub fn setting_kind(name: &str) -> (kind: SettingKind)
    ensures
        kind == kind_of(name@),
{
    if same(name, "output") {
        SettingKind::Output
    } else if same(name, "delay-ms") {
        SettingKind::DelayMs
    } else {
        SettingKind::Action
    }
}

pub open spec fn direction_of(name: Seq<char>) -> Option<HotEdgeDirection> {
    if name == "top"@ {
        Some(HotEdgeDirection::Top)
    } else if name == "bottom"@ {
        Some(HotEdgeDirection::Bottom)
    } else if name == "left"@ {
        Some(HotEdgeDirection::Left)
    } else if name == "right"@ {
        Some(HotEdgeDirection::Right)
    } else {
        None
    }
}

/// The direction that a name stands for.
pub fn direction(name: &str) -> (direction: Option<HotEdgeDirection>)
    ensures
        direction == direction_of(name@),
{
    if same(name, "top") {
        Some(HotEdgeDirection::Top)
    } else if same(name, "bottom") {
        Some(HotEdgeDirection::Bottom)
    } else if same(name, "left") {
        Some(HotEdgeDirection::Left)
    } else if same(name, "right") {
        Some(HotEdgeDirection::Right)
    } else {
        None
    }
}

/// A digit of a hexadecimal number.
pub open spec fn hex_digit(n: int) -> char {
    "0123456789abcdef"@[n]
}

/// A number in hexadecimal digits, as many as it takes.
pub open spec fn hex(n: int) -> Seq<char>
    decreases n,
{
    if n < 16 {
        seq![hex_digit(n)]
    } else {
        hex(n / 16).push(hex_digit(n % 16))
    }
}

/// A character as it is shown in a message: a tab, a line end, a quote or a
/// backslash behind a backslash, other printable ASCII as it is, and everything
/// else by its code point.
pub open spec fn escaped_char(c: char) -> Seq<char> {
    if c == '\t' {
        seq!['\\', 't']
    } else if c == '\r' {
        seq!['\\', 'r']
    } else if c == '\n' {
        seq!['\\', 'n']
    } else if c == '\'' || c == '"' || c == '\\' {
        seq!['\\', c]
    } else if ' ' <= c <= '~' {
        seq![c]
    } else {
        seq!['\\', 'u', '{'] + hex(c as u32 as int) + seq!['}']
    }
}

/// A text as it is shown in a message.
pub open spec fn escaped(text: Seq<char>) -> Seq<char>
    decreases text.len(),
{
    if text.len() == 0 {
        Seq::empty()
    } else {
        escaped(text.drop_last()) + escaped_char(text.last())
    }
}

/// Append a number in hexadecimal digits.
fn put_hex(shown: &mut String, n: u32)
    ensures
        final(shown)@ == old(shown)@ + hex(n as int),
    decreases n,
{
    if n >= 16 {
        put_hex(shown, n / 16);
    }
    let digits = "0123456789abcdef";
    let at: usize = (n % 16) as usize;
    proof {
        reveal_strlit("0123456789abcdef");
        assert(digits@.subrange(at as int, at + 1) =~= seq![hex_digit(n as int % 16)]);
    }
    shown.append(digits.substring_char(at, at + 1));
    assert(shown@ =~= old(shown)@ + hex(n as int));
}

/// A text as it is shown in a message.
fn escape(text: &str) -> (shown: String)
    ensures
        shown@ == escaped(text@),
{
    let length: usize = text.unicode_len();
    let mut shown: String = String::new();
    let mut at: usize = 0;
    assert(text@.take(0) =~= Seq::<char>::empty());
    assert(shown@ =~= escaped(text@.take(0)));
    for c in it: text.chars()
        invariant
            it.seq() == text@,
            text@.len() == length,
            at == it.index(),
            shown@ == escaped(text@.take(at as int)),
    {
        proof {
            reveal_strlit("\\t");
            reveal_strlit("\\r");
            reveal_strlit("\\n");
            reveal_strlit("\\");
            reveal_strlit("\\u{");
            reveal_strlit("}");
            assert("\\t"@ =~= seq!['\\', 't']);
            assert("\\r"@ =~= seq!['\\', 'r']);
            assert("\\n"@ =~= seq!['\\', 'n']);
            assert("\\u{"@ =~= seq!['\\', 'u', '{']);
            assert("}"@ =~= seq!['}']);
            assert(text@.take(at + 1).drop_last() =~= text@.take(at as int));
            assert(text@.take(at + 1).last() == c);
            assert(text@.subrange(at as int, at + 1) =~= seq![c]);
        }
        let ghost before = shown@;
        if c == '\t' {
            shown.append("\\t");
        } else if c == '\r' {
            shown.append("\\r");
        } else if c == '\n' {
            shown.append("\\n");
        } else if c == '\'' || c == '"' || c == '\\' {
            shown.append("\\");
            shown.append(text.substring_char(at, at + 1));
        } else if ' ' <= c && c <= '~' {
            shown.append(text.substring_char(at, at + 1));
        } else {
            shown.append("\\u{");
            put_hex(&mut shown, c as u32);
            shown.append("}");
        }
        assert(shown@ =~= before + escaped_char(c));
        at = at + 1;
    }
    assert(text@.take(at as int) =~= text@);
    shown
}

/// Something wrong with an edge or with a line inside it. The rest of the block
/// is still read.
#[derive(Debug, Clone, Copy, PartialEq, Eq, Structural)]
pub enum EdgeProblem {
    UnexpectedDirection,
    OutputWithoutName,
    DelayWithoutValue,
    SecondAction,
    NotAnAction,
    NoOutput,
    NoAction,
}

impl EdgeProblem {
    /// Whether the problem loses the edge, and not only a line inside it.
    pub open spec fn loses_the_edge(self) -> bool {
        self is UnexpectedDirection || self is NoOutput || self is NoAction
    }

    /// What is said of the problem of an edge with this name. Of a line that is
    /// not an action, whoever tried to read it says more.
    pub open spec fn said(self, name: Seq<char>) -> Option<Seq<char>> {
        match self {
            EdgeProblem::UnexpectedDirection => Some(
                "unexpected edge direction `"@ + escaped(name)
                    + "`; expected top, bottom, left, or right"@,
            ),
            EdgeProblem::OutputWithoutName => Some("output requires a name argument"@),
            EdgeProblem::DelayWithoutValue => Some("delay-ms requires a value argument"@),
            EdgeProblem::SecondAction => Some("only one action is allowed per hot-edge"@),
            EdgeProblem::NotAnAction => None,
            EdgeProblem::NoOutput => Some("hot-edge requires an output"@),
            EdgeProblem::NoAction => Some("hot-edge requires an action"@),
        }
    }

    /// What is said of the problem of an edge with this name.
    pub fn message(self, name: &str) -> (message: Option<String>)
        ensures
            match message {
                Some(message) => self.said(name@) == Some(message@),
                None => self.said(name@) is None,
            },
    {
        match self {
            EdgeProblem::UnexpectedDirection => {
                let mut message = "unexpected edge direction `".to_owned();
                message.append(escape(name).as_str());
                message.append("`; expected top, bottom, left, or right");
                Some(message)
            },
            EdgeProblem::OutputWithoutName => Some("output requires a name argument".to_owned()),
            EdgeProblem::DelayWithoutValue => Some(
                "delay-ms requires a value argument".to_owned(),
            ),
            EdgeProblem::SecondAction => Some(
                "only one action is allowed per hot-edge".to_owned(),
            ),
            EdgeProblem::NotAnAction => None,
            EdgeProblem::NoOutput => Some("hot-edge requires an output".to_owned()),
            EdgeProblem::NoAction => Some("hot-edge requires an action".to_owned()),
        }
    }
}

/// A problem, with the edge it is about and, where it is about a line inside it,
/// that line.
#[derive(Debug, Clone, Copy, PartialEq, Eq, Structural)]
pub struct Diagnostic {
    pub node: usize,
    pub setting: Option<usize>,
    pub problem: EdgeProblem,
}

/// The line whose argument could not be read. Nothing of the block counts then.
#[derive(Debug, Clone, Copy, PartialEq, Eq, Structural)]
pub struct Refusal {
    pub node: usize,
    pub setting: usize,
}

/// What the lines of an edge say.
pub struct Draft {
    pub output: Option<Seq<char>>,
    pub delay_ms: u16,
    pub action: Option<Action>,
}

/// What is known after one more line: an output or a delay takes the place of
/// what was there, and an action counts where there was none.
pub open spec fn with_line(before: Draft, setting: EdgeSetting) -> Draft {
    match setting {
        EdgeSetting::Output(Argument::Value(name)) => Draft { output: Some(name@), ..before },
        EdgeSetting::DelayMs(Argument::Value(ms)) => Draft { delay_ms: ms, ..before },
        EdgeSetting::Action(Some(action)) if before.action is None => Draft {
            action: Some(action),
            ..before
        },
        _ => before,
    }
}

/// What the lines say: the last output and the last delay count, and the first
/// action does.
pub open spec fn drafted(settings: Seq<EdgeSetting>) -> Draft
    decreases settings.len(),
{
    if settings.len() == 0 {
        Draft { output: None, delay_ms: EDGE_DELAY_MS, action: None }
    } else {
        with_line(drafted(settings.drop_last()), settings.last())
    }
}

/// What is wrong with one line, after those before it.
pub open spec fn fault(before: Draft, setting: EdgeSetting) -> Option<EdgeProblem> {
    match setting {
        EdgeSetting::Output(Argument::Missing) => Some(EdgeProblem::OutputWithoutName),
        EdgeSetting::DelayMs(Argument::Missing) => Some(EdgeProblem::DelayWithoutValue),
        EdgeSetting::Action(Some(_)) if before.action is Some => Some(EdgeProblem::SecondAction),
        EdgeSetting::Action(None) => Some(EdgeProblem::NotAnAction),
        _ => None,
    }
}

/// What is wrong with the lines of an edge, line by line.
pub open spec fn faults(node: int, settings: Seq<EdgeSetting>) -> Seq<Diagnostic>
    decreases settings.len(),
{
    if settings.len() == 0 {
        Seq::empty()
    } else {
        let before = faults(node, settings.drop_last());
        match fault(drafted(settings.drop_last()), settings.last()) {
            Some(problem) => before.push(
                Diagnostic {
                    node: node as usize,
                    setting: Some((settings.len() - 1) as usize),
                    problem,
                },
            ),
            None => before,
        }
    }
}

/// Whether a line's argument cannot be read.
pub open spec fn refused(setting: EdgeSetting) -> bool {
    setting matches EdgeSetting::Output(Argument::Bad)
        || setting matches EdgeSetting::DelayMs(Argument::Bad)
}

/// How many lines stand before the first whose argument cannot be read.
pub open spec fn readable(settings: Seq<EdgeSetting>) -> int
    decreases settings.len(),
{
    if settings.len() == 0 {
        0
    } else if readable(settings.drop_last()) == settings.len() - 1 && !refused(
        settings.last(),
    ) {
        settings.len() as int
    } else {
        readable(settings.drop_last())
    }
}

pub struct HotEdgeView {
    pub direction: HotEdgeDirection,
    pub output: Seq<char>,
    pub delay_ms: u16,
    pub action: Action,
}

impl View for HotEdge {
    type V = HotEdgeView;

    open spec fn view(&self) -> HotEdgeView {
        HotEdgeView {
            direction: self.direction,
            output: self.output@,
            delay_ms: self.delay_ms,
            action: self.action,
        }
    }
}

/// The edges, by what they hold.
pub open spec fn edge_views(edges: Seq<HotEdge>) -> Seq<HotEdgeView> {
    edges.map_values(|edge: HotEdge| edge@)
}

/// The edge that a direction and lines make: an output comes first among what it
/// needs, then an action.
pub open spec fn completed(direction: HotEdgeDirection, draft: Draft) -> Result<
    HotEdgeView,
    EdgeProblem,
> {
    match (draft.output, draft.action) {
        (None, _) => Err(EdgeProblem::NoOutput),
        (_, None) => Err(EdgeProblem::NoAction),
        (Some(output), Some(action)) => Ok(
            HotEdgeView { direction, output, delay_ms: draft.delay_ms, action },
        ),
    }
}

/// What has been read of a block.
pub struct Decoded {
    pub edges: Seq<HotEdgeView>,
    pub diagnostics: Seq<Diagnostic>,
    pub refusal: Option<Refusal>,
}

impl Decoded {
    /// With a problem of a whole edge.
    pub open spec fn without(self, index: int, problem: EdgeProblem) -> Decoded {
        Decoded {
            diagnostics: self.diagnostics.push(
                Diagnostic { node: index as usize, setting: None, problem },
            ),
            ..self
        }
    }

    /// With one more edge read.
    pub open spec fn with_node(self, index: int, node: EdgeNode) -> Decoded {
        match direction_of(node.name@) {
            None => self.without(index, EdgeProblem::UnexpectedDirection),
            Some(direction) => {
                let settings = node.settings@;
                let read = readable(settings);
                let noted = Decoded {
                    diagnostics: self.diagnostics + faults(index, settings.take(read)),
                    ..self
                };
                if read < settings.len() {
                    Decoded {
                        refusal: Some(Refusal { node: index as usize, setting: read as usize }),
                        ..noted
                    }
                } else {
                    match completed(direction, drafted(settings)) {
                        Ok(edge) => Decoded { edges: noted.edges.push(edge), ..noted },
                        Err(problem) => noted.without(index, problem),
                    }
                }
            },
        }
    }
}

/// What a block of edges says. Reading ends at a line whose argument cannot be
/// read.
pub open spec fn decoded(nodes: Seq<EdgeNode>) -> Decoded
    decreases nodes.len(),
{
    if nodes.len() == 0 {
        Decoded { edges: Seq::empty(), diagnostics: Seq::empty(), refusal: None }
    } else {
        let before = decoded(nodes.drop_last());
        if before.refusal is Some {
            before
        } else {
            before.with_node(nodes.len() - 1, nodes.last())
        }
    }
}

/// Lines after one that cannot be read change nothing.
proof fn lemma_reading_stops(settings: Seq<EdgeSetting>, i: int)
    requires
        0 <= i < settings.len(),
        readable(settings.take(i)) == i,
        refused(settings[i]),
    ensures
        readable(settings) == i,
    decreases settings.len(),
{
    if i == settings.len() - 1 {
        assert(settings.take(i) =~= settings.drop_last());
    } else {
        let shorter = settings.drop_last();
        assert(shorter.take(i) =~= settings.take(i));
        lemma_reading_stops(shorter, i);
    }
}

/// An edge that is being read, line by line.
#[derive(Debug)]
pub struct EdgeDraft {
    direction: HotEdgeDirection,
    output: Option<String>,
    delay_ms: u16,
    action: Option<Action>,
}

impl View for EdgeDraft {
    type V = (HotEdgeDirection, Draft);

    closed spec fn view(&self) -> (HotEdgeDirection, Draft) {
        (
            self.direction,
            Draft {
                output: match self.output {
                    Some(name) => Some(name@),
                    None => None,
                },
                delay_ms: self.delay_ms,
                action: self.action,
            },
        )
    }
}

/// What became of a line.
#[derive(Debug, Clone, Copy, PartialEq, Eq, Structural)]
pub enum LineOutcome {
    Taken,
    /// Something is wrong with it, and the next one may be fine.
    Problem(EdgeProblem),
    /// Its argument cannot be read, and nothing of the block counts.
    Refused,
}

/// What becomes of a line, after those before it.
pub open spec fn line_outcome(before: Draft, setting: EdgeSetting) -> LineOutcome {
    if refused(setting) {
        LineOutcome::Refused
    } else {
        match fault(before, setting) {
            Some(problem) => LineOutcome::Problem(problem),
            None => LineOutcome::Taken,
        }
    }
}

impl EdgeDraft {
    /// Begin to read an edge with this name.
    pub fn begin(name: &str) -> (begun: Result<Self, EdgeProblem>)
        ensures
            match begun {
                Ok(draft) => direction_of(name@) == Some(draft@.0) && draft@.1 == drafted(
                    Seq::empty(),
                ),
                Err(problem) => direction_of(name@) is None && problem
                    == EdgeProblem::UnexpectedDirection,
            },
    {
        match direction(name) {
            Some(direction) => Ok(
                EdgeDraft { direction, output: None, delay_ms: EDGE_DELAY_MS, action: None },
            ),
            None => Err(EdgeProblem::UnexpectedDirection),
        }
    }

    /// Read one more line.
    pub fn line(&mut self, setting: &EdgeSetting) -> (outcome: LineOutcome)
        ensures
            outcome == line_outcome(old(self)@.1, *setting),
            final(self)@ == (old(self)@.0, with_line(old(self)@.1, *setting)),
    {
        match setting {
            EdgeSetting::Output(Argument::Value(name)) => {
                self.output = Some(name.clone());
                LineOutcome::Taken
            },
            EdgeSetting::Output(Argument::Missing) => LineOutcome::Problem(
                EdgeProblem::OutputWithoutName,
            ),
            EdgeSetting::DelayMs(Argument::Value(ms)) => {
                self.delay_ms = *ms;
                LineOutcome::Taken
            },
            EdgeSetting::DelayMs(Argument::Missing) => LineOutcome::Problem(
                EdgeProblem::DelayWithoutValue,
            ),
            EdgeSetting::Action(Some(found)) => {
                if self.action.is_some() {
                    LineOutcome::Problem(EdgeProblem::SecondAction)
                } else {
                    self.action = Some(*found);
                    LineOutcome::Taken
                }
            },
            EdgeSetting::Action(None) => LineOutcome::Problem(EdgeProblem::NotAnAction),
            EdgeSetting::Output(Argument::Bad) => LineOutcome::Refused,
            EdgeSetting::DelayMs(Argument::Bad) => LineOutcome::Refused,
        }
    }

    /// The edge that the lines make, or what it lacks.
    pub fn end(self) -> (ended: Result<HotEdge, EdgeProblem>)
        ensures
            completed(self@.0, self@.1) == (match ended {
                Ok(edge) => Ok::<HotEdgeView, EdgeProblem>(edge@),
                Err(problem) => Err(problem),
            }),
    {
        let output = match self.output {
            Some(output) => output,
            None => {
                return Err(EdgeProblem::NoOutput);
            },
        };
        let action = match self.action {
            Some(action) => action,
            None => {
                return Err(EdgeProblem::NoAction);
            },
        };
        Ok(HotEdge { direction: self.direction, output, delay_ms: self.delay_ms, action })
    }
}

/// Reads the lines of the edge at `node`, and returns the line whose argument
/// cannot be read, if there is one.
fn read_settings(
    draft: &mut EdgeDraft,
    node: usize,
    settings: &Vec<EdgeSetting>,
    diagnostics: &mut Vec<Diagnostic>,
) -> (read: Result<(), usize>)
    requires
        old(draft)@.1 == drafted(Seq::empty()),
    ensures
        final(diagnostics)@ == old(diagnostics)@ + faults(
            node as int,
            settings@.take(readable(settings@)),
        ),
        final(draft)@ == (old(draft)@.0, drafted(settings@.take(readable(settings@)))),
        match read {
            Ok(()) => readable(settings@) == settings@.len(),
            Err(i) => readable(settings@) == i && i < settings@.len(),
        },
{
    let mut i: usize = 0;
    proof {
        assert(settings@.take(0) =~= Seq::<EdgeSetting>::empty());
        assert(old(diagnostics)@ + faults(node as int, settings@.take(0)) =~= old(diagnostics)@);
    }
    while i < settings.len()
        invariant
            i <= settings@.len(),
            readable(settings@.take(i as int)) == i,
            diagnostics@ == old(diagnostics)@ + faults(node as int, settings@.take(i as int)),
            draft@ == (old(draft)@.0, drafted(settings@.take(i as int))),
        decreases settings@.len() - i,
    {
        let ghost next = settings@.take(i + 1);
        assert(next.drop_last() =~= settings@.take(i as int));
        assert(next.last() == settings@[i as int]);
        match draft.line(&settings[i]) {
            LineOutcome::Taken => {},
            LineOutcome::Problem(problem) => {
                diagnostics.push(Diagnostic { node, setting: Some(i), problem });
            },
            LineOutcome::Refused => {
                proof {
                    lemma_reading_stops(settings@, i as int);
                }
                return Err(i);
            },
        }
        i = i + 1;
        assert(diagnostics@ =~= old(diagnostics)@ + faults(node as int, next));
    }
    assert(settings@.take(i as int) =~= settings@);
    Ok(())
}

/// Blocks after a refusal change nothing.
proof fn lemma_refusal_is_final(nodes: Seq<EdgeNode>, i: int)
    requires
        0 <= i <= nodes.len(),
        decoded(nodes.take(i)).refusal is Some,
    ensures
        decoded(nodes) == decoded(nodes.take(i)),
    decreases nodes.len() - i,
{
    if i == nodes.len() {
        assert(nodes.take(i) =~= nodes);
    } else {
        assert(nodes.take(i + 1).drop_last() =~= nodes.take(i));
        lemma_refusal_is_final(nodes, i + 1);
    }
}

impl HotEdges {
    /// Reads the edges of a block. Problems are noted in `diagnostics`, in the
    /// order in which they are met.
    pub fn decode_node(nodes: &Vec<EdgeNode>, diagnostics: &mut Vec<Diagnostic>) -> (result: Result<
        HotEdges,
        Refusal,
    >)
        ensures
            final(diagnostics)@ == old(diagnostics)@ + decoded(nodes@).diagnostics,
            match result {
                Ok(edges) => {
                    &&& decoded(nodes@).refusal is None
                    &&& edge_views(edges.0@) == decoded(nodes@).edges
                },
                Err(refusal) => decoded(nodes@).refusal == Some(refusal),
            },
    {
        let mut edges: Vec<HotEdge> = Vec::new();
        let mut i: usize = 0;
        assert(old(diagnostics)@ + decoded(nodes@.take(0)).diagnostics =~= old(diagnostics)@);
        assert(edge_views(edges@) =~= decoded(nodes@.take(0)).edges);
        while i < nodes.len()
            invariant
                i <= nodes@.len(),
                diagnostics@ == old(diagnostics)@ + decoded(nodes@.take(i as int)).diagnostics,
                edge_views(edges@) == decoded(nodes@.take(i as int)).edges,
                decoded(nodes@.take(i as int)).refusal is None,
            decreases nodes@.len() - i,
        {
            let ghost after = decoded(nodes@.take(i + 1));
            assert(nodes@.take(i + 1).drop_last() =~= nodes@.take(i as int));
            let node = &nodes[i];
            let mut lost: Option<EdgeProblem> = None;
            match EdgeDraft::begin(node.name.as_str()) {
                Err(problem) => {
                    lost = Some(problem);
                },
                Ok(mut draft) => {
                    match read_settings(&mut draft, i, &node.settings, diagnostics) {
                        Err(setting) => {
                            proof {
                                lemma_refusal_is_final(nodes@, i + 1);
                                assert(diagnostics@ =~= old(diagnostics)@ + after.diagnostics);
                            }
                            return Err(Refusal { node: i, setting });
                        },
                        Ok(()) => {
                            assert(node.settings@.take(node.settings@.len() as int)
                                =~= node.settings@);
                        },
                    }
                    match draft.end() {
                        Ok(edge) => edges.push(edge),
                        Err(problem) => {
                            lost = Some(problem);
                        },
                    }
                },
            }
            if let Some(problem) = lost {
                diagnostics.push(Diagnostic { node: i, setting: None, problem });
            }
            i = i + 1;
            assert(diagnostics@ =~= old(diagnostics)@ + after.diagnostics);
            assert(edge_views(edges@) =~= after.edges);
        }
        assert(nodes@.take(i as int) =~= nodes@);
        Ok(HotEdges(edges))
    }
}

/// How many of some problems lose an edge.
pub open spec fn lost(diagnostics: Seq<Diagnostic>) -> int
    decreases diagnostics.len(),
{
    if diagnostics.len() == 0 {
        0
    } else {
        lost(diagnostics.drop_last()) + if diagnostics.last().problem.loses_the_edge() {
            1int
        } else {
            0int
        }
    }
}

proof fn lemma_lost_of_both(diagnostics: Seq<Diagnostic>, more: Seq<Diagnostic>)
    ensures
        lost(diagnostics + more) == lost(diagnostics) + lost(more),
    decreases more.len(),
{
    if more.len() == 0 {
        assert(diagnostics + more =~= diagnostics);
    } else {
        assert((diagnostics + more).drop_last() =~= diagnostics + more.drop_last());
        lemma_lost_of_both(diagnostics, more.drop_last());
    }
}

proof fn lemma_faults_lose_no_edge(node: int, settings: Seq<EdgeSetting>)
    ensures
        lost(faults(node, settings)) == 0,
    decreases settings.len(),
{
    if settings.len() > 0 {
        lemma_faults_lose_no_edge(node, settings.drop_last());
        let earlier = faults(node, settings.drop_last());
        let all = faults(node, settings);
        if all.len() != earlier.len() {
            assert(all.drop_last() =~= earlier);
        }
    }
}

/// No edge is lost without a word: of a block that can be read, each edge is there
/// or a problem says why not.
pub proof fn law_every_edge_is_read_or_reported(nodes: Seq<EdgeNode>)
    requires
        decoded(nodes).refusal is None,
    ensures
        decoded(nodes).edges.len() + lost(decoded(nodes).diagnostics) == nodes.len(),
    decreases nodes.len(),
{
    if nodes.len() > 0 {
        let earlier = decoded(nodes.drop_last());
        law_every_edge_is_read_or_reported(nodes.drop_last());
        let node = nodes.last();
        let settings = node.settings@;
        let noted = faults(nodes.len() - 1, settings.take(readable(settings)));
        lemma_faults_lose_no_edge(nodes.len() - 1, settings.take(readable(settings)));
        lemma_lost_of_both(earlier.diagnostics, noted);
        let all = decoded(nodes).diagnostics;
        if direction_of(node.name@) is None {
            assert(all.drop_last() =~= earlier.diagnostics);
        } else if completed(direction_of(node.name@).unwrap(), drafted(settings)) is Err {
            assert(all.drop_last() =~= earlier.diagnostics + noted);
        }
    }
}

/// The last output counts.
pub proof fn law_the_last_output_counts(settings: Seq<EdgeSetting>, i: int, name: String)
    requires
        0 <= i < settings.len(),
        settings[i] == EdgeSetting::Output(Argument::Value(name)),
        forall|j: int|
            i < j < settings.len() ==> !((#[trigger] settings[j]) matches EdgeSetting::Output(
                Argument::Value(_),
            )),
    ensures
        drafted(settings).output == Some(name@),
    decreases settings.len(),
{
    if i < settings.len() - 1 {
        let earlier = settings.drop_last();
        assert(!(settings[settings.len() - 1] matches EdgeSetting::Output(Argument::Value(_))));
        assert forall|j: int| i < j < earlier.len() implies !((
        #[trigger] earlier[j]) matches EdgeSetting::Output(Argument::Value(_))) by {
            assert(earlier[j] == settings[j]);
        }
        law_the_last_output_counts(earlier, i, name);
    }
}

/// The last delay counts.
pub proof fn law_the_last_delay_counts(settings: Seq<EdgeSetting>, i: int, ms: u16)
    requires
        0 <= i < settings.len(),
        settings[i] == EdgeSetting::DelayMs(Argument::Value(ms)),
        forall|j: int|
            i < j < settings.len() ==> !((#[trigger] settings[j]) matches EdgeSetting::DelayMs(
                Argument::Value(_),
            )),
    ensures
        drafted(settings).delay_ms == ms,
    decreases settings.len(),
{
    if i < settings.len() - 1 {
        let earlier = settings.drop_last();
        assert(!(settings[settings.len() - 1] matches EdgeSetting::DelayMs(Argument::Value(_))));
        assert forall|j: int| i < j < earlier.len() implies !((
        #[trigger] earlier[j]) matches EdgeSetting::DelayMs(Argument::Value(_))) by {
            assert(earlier[j] == settings[j]);
        }
        law_the_last_delay_counts(earlier, i, ms);
    }
}

/// The first action counts.
pub proof fn law_the_first_action_counts(settings: Seq<EdgeSetting>, i: int, action: Action)
    requires
        0 <= i < settings.len(),
        settings[i] == EdgeSetting::Action(Some(action)),
        forall|j: int|
            0 <= j < i ==> !((#[trigger] settings[j]) matches EdgeSetting::Action(Some(_))),
    ensures
        drafted(settings).action == Some(action),
    decreases settings.len(),
{
    let earlier = settings.drop_last();
    if i < earlier.len() {
        assert forall|j: int| 0 <= j < i implies !((
        #[trigger] earlier[j]) matches EdgeSetting::Action(Some(_))) by {
            assert(earlier[j] == settings[j]);
        }
        law_the_first_action_counts(earlier, i, action);
    } else {
        lemma_no_action(earlier);
    }
}

proof fn lemma_no_action(settings: Seq<EdgeSetting>)
    requires
        forall|j: int|
            0 <= j < settings.len() ==> !((#[trigger] settings[j]) matches EdgeSetting::Action(
                Some(_),
            )),
    ensures
        drafted(settings).action is None,
    decreases settings.len(),
{
    if settings.len() > 0 {
        assert(!(settings[settings.len() - 1] matches EdgeSetting::Action(Some(_))));
        let earlier = settings.drop_last();
        assert forall|j: int| 0 <= j < earlier.len() implies !((
        #[trigger] earlier[j]) matches EdgeSetting::Action(Some(_))) by {
            assert(earlier[j] == settings[j]);
        }
        lemma_no_action(earlier);
    }
}

} // verus!
