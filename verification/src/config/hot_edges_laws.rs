//! How the `hot-edges` block of a configuration is read, spelled out.
use vstd::prelude::*;

use crate::config::gestures::{Action, HotEdge, HotEdgeDirection};
use crate::config::hot_edges::{
    completed, decoded, direction_of, drafted, edge_views, escaped, escaped_char, fault, faults, hex,
    kind_of, law_the_first_action_counts, law_the_last_delay_counts, law_the_last_output_counts,
    line_outcome, readable, with_line, Argument, Diagnostic, Draft, EdgeNode,
    EdgeProblem, EdgeSetting, HotEdgeView, LineOutcome, Refusal, SettingKind,
};

verus! {

/// The four directions have their names, and no other name is one.
pub proof fn law_directions_have_names(name: Seq<char>)
    ensures
        direction_of("top"@) == Some(HotEdgeDirection::Top),
        direction_of("bottom"@) == Some(HotEdgeDirection::Bottom),
        direction_of("left"@) == Some(HotEdgeDirection::Left),
        direction_of("right"@) == Some(HotEdgeDirection::Right),
        name != "top"@ && name != "bottom"@ && name != "left"@ && name != "right"@
            ==> direction_of(name) is None,
{
    reveal_strlit("top");
    reveal_strlit("bottom");
    reveal_strlit("left");
    reveal_strlit("right");
    assert("bottom"@.len() != "top"@.len());
    assert("left"@.len() != "top"@.len());
    assert("left"@.len() != "bottom"@.len());
    assert("right"@.len() != "top"@.len());
    assert("right"@.len() != "bottom"@.len());
    assert("right"@.len() != "left"@.len());
}

/// Two lines have names of their own, and any other is an action.
pub proof fn law_lines_have_names(name: Seq<char>)
    ensures
        kind_of("output"@) == SettingKind::Output,
        kind_of("delay-ms"@) == SettingKind::DelayMs,
        name != "output"@ && name != "delay-ms"@ ==> kind_of(name) == SettingKind::Action,
{
    reveal_strlit("output");
    reveal_strlit("delay-ms");
    assert("output"@.len() != "delay-ms"@.len());
}

/// What one more line changes: an output or a delay takes the place of an earlier one,
/// an action counts where there was none, and any other line changes nothing.
pub proof fn law_what_a_line_changes(before: Draft, name: String, ms: u16, action: Action)
    ensures
        with_line(before, EdgeSetting::Output(Argument::Value(name))) == (Draft {
            output: Some(name@),
            delay_ms: before.delay_ms,
            action: before.action,
        }),
        with_line(before, EdgeSetting::DelayMs(Argument::Value(ms))) == (Draft {
            output: before.output,
            delay_ms: ms,
            action: before.action,
        }),
        before.action is None ==> with_line(before, EdgeSetting::Action(Some(action))) == (Draft {
            output: before.output,
            delay_ms: before.delay_ms,
            action: Some(action),
        }),
        before.action is Some ==> with_line(before, EdgeSetting::Action(Some(action))) == before,
        with_line(before, EdgeSetting::Action(None)) == before,
        with_line(before, EdgeSetting::Output(Argument::Missing)) == before,
        with_line(before, EdgeSetting::Output(Argument::Bad)) == before,
        with_line(before, EdgeSetting::DelayMs(Argument::Missing)) == before,
        with_line(before, EdgeSetting::DelayMs(Argument::Bad)) == before,
        drafted(Seq::empty()) == (Draft { output: None, delay_ms: 250, action: None }),
{
}

/// What becomes of one more line.
pub proof fn law_what_becomes_of_a_line(before: Draft, name: String, ms: u16, action: Action)
    ensures
        line_outcome(before, EdgeSetting::Output(Argument::Value(name))) == LineOutcome::Taken,
        line_outcome(before, EdgeSetting::DelayMs(Argument::Value(ms))) == LineOutcome::Taken,
        line_outcome(before, EdgeSetting::Action(Some(action))) == (if before.action is Some {
            LineOutcome::Problem(EdgeProblem::SecondAction)
        } else {
            LineOutcome::Taken
        }),
        line_outcome(before, EdgeSetting::Action(None)) == LineOutcome::Problem(
            EdgeProblem::NotAnAction,
        ),
        line_outcome(before, EdgeSetting::Output(Argument::Missing)) == LineOutcome::Problem(
            EdgeProblem::OutputWithoutName,
        ),
        line_outcome(before, EdgeSetting::DelayMs(Argument::Missing)) == LineOutcome::Problem(
            EdgeProblem::DelayWithoutValue,
        ),
        line_outcome(before, EdgeSetting::Output(Argument::Bad)) == LineOutcome::Refused,
        line_outcome(before, EdgeSetting::DelayMs(Argument::Bad)) == LineOutcome::Refused,
{
}

/// What an edge needs: an output, and an action. With both it is there, with what its
/// lines said.
pub proof fn law_what_an_edge_needs(direction: HotEdgeDirection, draft: Draft)
    ensures
        draft.output is None ==> completed(direction, draft) == Err::<HotEdgeView, EdgeProblem>(
            EdgeProblem::NoOutput,
        ),
        draft.output is Some && draft.action is None ==> completed(direction, draft) == Err::<
            HotEdgeView,
            EdgeProblem,
        >(EdgeProblem::NoAction),
        draft.output is Some && draft.action is Some ==> completed(direction, draft) == Ok::<
            HotEdgeView,
            EdgeProblem,
        >(
            HotEdgeView {
                direction,
                output: draft.output->0,
                delay_ms: draft.delay_ms,
                action: draft.action->0,
            },
        ),
{
}

/// An edge is what its fields hold, and edges are taken one by one.
pub proof fn law_an_edge_is_its_fields(edge: HotEdge, edges: Seq<HotEdge>)
    ensures
        edge_views(edges).len() == edges.len(),
        forall|i: int| 0 <= i < edges.len() ==> #[trigger] edge_views(edges)[i] == edges[i]@,
        edge@ == (HotEdgeView {
            direction: edge.direction,
            output: edge.output@,
            delay_ms: edge.delay_ms,
            action: edge.action,
        }),
{
}

/// Lines are read up to the first whose argument cannot be read.
pub proof fn law_reading_goes_up_to_a_bad_argument(settings: Seq<EdgeSetting>)
    ensures
        ({
            let n = readable(settings);
            &&& 0 <= n <= settings.len()
            &&& forall|j: int|
                0 <= j < n ==> !((#[trigger] settings[j]) matches EdgeSetting::Output(
                    Argument::Bad,
                )) && !(settings[j] matches EdgeSetting::DelayMs(Argument::Bad))
            &&& n < settings.len() ==> settings[n] matches EdgeSetting::Output(Argument::Bad)
                || settings[n] matches EdgeSetting::DelayMs(Argument::Bad)
        }),
    decreases settings.len(),
{
    if settings.len() > 0 {
        let earlier = settings.drop_last();
        law_reading_goes_up_to_a_bad_argument(earlier);
        let n = readable(settings);
        assert forall|j: int| 0 <= j < n implies !((
        #[trigger] settings[j]) matches EdgeSetting::Output(Argument::Bad)) && !(
        settings[j] matches EdgeSetting::DelayMs(Argument::Bad)) by {
            if j < earlier.len() {
                assert(settings[j] == earlier[j]);
            }
        }
        if n < earlier.len() {
            assert(settings[n] == earlier[n]);
        }
    }
}

/// What is wrong with the line at a place, by the lines alone.
pub open spec fn wrong(settings: Seq<EdgeSetting>, j: int) -> Option<EdgeProblem> {
    match settings[j] {
        EdgeSetting::Output(Argument::Missing) => Some(EdgeProblem::OutputWithoutName),
        EdgeSetting::DelayMs(Argument::Missing) => Some(EdgeProblem::DelayWithoutValue),
        EdgeSetting::Action(None) => Some(EdgeProblem::NotAnAction),
        EdgeSetting::Action(Some(_)) => if exists|k: int|
            0 <= k < j && (#[trigger] settings[k]) matches EdgeSetting::Action(Some(_)) {
            Some(EdgeProblem::SecondAction)
        } else {
            None
        },
        _ => None,
    }
}

/// An action is known once a line names one.
proof fn lemma_action_known(settings: Seq<EdgeSetting>)
    ensures
        drafted(settings).action is Some <==> exists|k: int|
            0 <= k < settings.len() && (#[trigger] settings[k]) matches EdgeSetting::Action(
                Some(_),
            ),
    decreases settings.len(),
{
    if settings.len() > 0 {
        let earlier = settings.drop_last();
        lemma_action_known(earlier);
        if drafted(earlier).action is Some {
            let k = choose|k: int|
                0 <= k < earlier.len() && (#[trigger] earlier[k]) matches EdgeSetting::Action(
                    Some(_),
                );
            assert(settings[k] == earlier[k]);
        } else {
            assert forall|k: int| 0 <= k < earlier.len() implies !((
            #[trigger] settings[k]) matches EdgeSetting::Action(Some(_))) by {
                assert(settings[k] == earlier[k]);
            }
            if settings.last() matches EdgeSetting::Action(Some(_)) {
                assert(settings[settings.len() - 1] matches EdgeSetting::Action(Some(_)));
            }
        }
    }
}

/// An output is known once a line names one.
proof fn lemma_output_known(settings: Seq<EdgeSetting>)
    ensures
        drafted(settings).output is Some <==> exists|k: int|
            0 <= k < settings.len() && (#[trigger] settings[k]) matches EdgeSetting::Output(
                Argument::Value(_),
            ),
    decreases settings.len(),
{
    if settings.len() > 0 {
        let earlier = settings.drop_last();
        lemma_output_known(earlier);
        if drafted(earlier).output is Some {
            let k = choose|k: int|
                0 <= k < earlier.len() && (#[trigger] earlier[k]) matches EdgeSetting::Output(
                    Argument::Value(_),
                );
            assert(settings[k] == earlier[k]);
        } else {
            assert forall|k: int| 0 <= k < earlier.len() implies !((
            #[trigger] settings[k]) matches EdgeSetting::Output(Argument::Value(_))) by {
                assert(settings[k] == earlier[k]);
            }
            if settings.last() matches EdgeSetting::Output(Argument::Value(_)) {
                assert(settings[settings.len() - 1] matches EdgeSetting::Output(
                    Argument::Value(_),
                ));
            }
        }
    }
}

/// Where no line names a delay, it is a quarter of a second.
proof fn lemma_no_delay(settings: Seq<EdgeSetting>)
    requires
        forall|k: int|
            0 <= k < settings.len() ==> !((#[trigger] settings[k]) matches EdgeSetting::DelayMs(
                Argument::Value(_),
            )),
    ensures
        drafted(settings).delay_ms == 250,
    decreases settings.len(),
{
    if settings.len() > 0 {
        let earlier = settings.drop_last();
        assert forall|k: int| 0 <= k < earlier.len() implies !((
        #[trigger] earlier[k]) matches EdgeSetting::DelayMs(Argument::Value(_))) by {
            assert(settings[k] == earlier[k]);
        }
        assert(!(settings[settings.len() - 1] matches EdgeSetting::DelayMs(Argument::Value(_))));
        lemma_no_delay(earlier);
    }
}

/// The line problems of an edge are those of its lines, each once and in order.
pub proof fn law_line_problems_are_reported_in_order(node: int, settings: Seq<EdgeSetting>)
    requires
        0 <= node <= usize::MAX,
        settings.len() <= usize::MAX,
    ensures
        ({
            let noted = faults(node, settings);
            &&& forall|k: int|
                0 <= k < noted.len() ==> {
                    &&& (#[trigger] noted[k]).node == node
                    &&& noted[k].setting matches Some(j) && j < settings.len() && wrong(
                        settings,
                        j as int,
                    ) == Some(noted[k].problem)
                }
            &&& forall|k: int, l: int|
                0 <= k < l < noted.len() ==> (#[trigger] noted[k]).setting->0 < (
                #[trigger] noted[l]).setting->0
            &&& forall|j: int|
                0 <= j < settings.len() && (#[trigger] wrong(settings, j)) is Some ==> exists|
                    k: int,
                | 0 <= k < noted.len() && (#[trigger] noted[k]).setting == Some(j as usize)
        }),
    decreases settings.len(),
{
    if settings.len() > 0 {
        let earlier = settings.drop_last();
        let n = settings.len() - 1;
        law_line_problems_are_reported_in_order(node, earlier);
        lemma_action_known(earlier);
        let before = faults(node, earlier);
        let noted = faults(node, settings);
        assert forall|j: int| 0 <= j < n implies #[trigger] wrong(settings, j) == wrong(
            earlier,
            j,
        ) by {
            assert(settings[j] == earlier[j]);
            if exists|k: int| 0 <= k < j && (#[trigger] settings[k]) matches EdgeSetting::Action(
                Some(_),
            ) {
                let k = choose|k: int|
                    0 <= k < j && (#[trigger] settings[k]) matches EdgeSetting::Action(Some(_));
                assert(earlier[k] == settings[k]);
            }
            if exists|k: int| 0 <= k < j && (#[trigger] earlier[k]) matches EdgeSetting::Action(
                Some(_),
            ) {
                let k = choose|k: int|
                    0 <= k < j && (#[trigger] earlier[k]) matches EdgeSetting::Action(Some(_));
                assert(earlier[k] == settings[k]);
            }
        }
        assert(wrong(settings, n) == fault(drafted(earlier), settings.last())) by {
            if drafted(earlier).action is Some {
                let k = choose|k: int|
                    0 <= k < earlier.len() && (#[trigger] earlier[k]) matches EdgeSetting::Action(
                        Some(_),
                    );
                assert(settings[k] == earlier[k]);
            } else {
                assert forall|k: int| 0 <= k < n implies !((
                #[trigger] settings[k]) matches EdgeSetting::Action(Some(_))) by {
                    assert(settings[k] == earlier[k]);
                }
            }
        }
        assert forall|k: int| 0 <= k < noted.len() implies {
            &&& (#[trigger] noted[k]).node == node
            &&& noted[k].setting matches Some(j) && j < settings.len() && wrong(settings, j as int)
                == Some(noted[k].problem)
        } by {
            if k < before.len() {
                assert(noted[k] == before[k]);
                assert(wrong(settings, before[k].setting->0 as int) == wrong(
                    earlier,
                    before[k].setting->0 as int,
                ));
            }
        }
        assert forall|k: int, l: int| 0 <= k < l < noted.len() implies (
        #[trigger] noted[k]).setting->0 < (#[trigger] noted[l]).setting->0 by {
            assert(noted[k] == before[k]);
            if l < before.len() {
                assert(noted[l] == before[l]);
            }
        }
        assert forall|j: int|
            0 <= j < settings.len() && (#[trigger] wrong(settings, j)) is Some implies exists|
            k: int,
        | 0 <= k < noted.len() && (#[trigger] noted[k]).setting == Some(j as usize) by {
            if j < n {
                assert(wrong(earlier, j) is Some);
                let k = choose|k: int|
                    0 <= k < before.len() && (#[trigger] before[k]).setting == Some(j as usize);
                assert(noted[k] == before[k]);
            } else {
                assert(noted[before.len() as int].setting == Some(j as usize));
            }
        }
    }
}

/// An edge whose name is no direction is reported and left out, and the block is read
/// on.
pub proof fn law_an_unknown_direction_is_left_out(nodes: Seq<EdgeNode>, node: EdgeNode)
    requires
        nodes.len() <= usize::MAX,
        decoded(nodes).refusal is None,
        node.name@ != "top"@,
        node.name@ != "bottom"@,
        node.name@ != "left"@,
        node.name@ != "right"@,
    ensures
        decoded(nodes.push(node)).edges == decoded(nodes).edges,
        decoded(nodes.push(node)).refusal is None,
        decoded(nodes.push(node)).diagnostics == decoded(nodes).diagnostics.push(
            Diagnostic {
                node: nodes.len() as usize,
                setting: None,
                problem: EdgeProblem::UnexpectedDirection,
            },
        ),
{
    assert(nodes.push(node).drop_last() =~= nodes);
}

/// A bad argument ends the block: it is refused there, whatever follows.
pub proof fn law_a_bad_argument_ends_the_block(
    nodes: Seq<EdgeNode>,
    node: EdgeNode,
    later: Seq<EdgeNode>,
    j: int,
)
    requires
        nodes.len() <= usize::MAX,
        node.settings@.len() <= usize::MAX,
        decoded(nodes).refusal is None,
        node.name@ == "top"@ || node.name@ == "bottom"@ || node.name@ == "left"@ || node.name@
            == "right"@,
        0 <= j < node.settings@.len(),
        node.settings@[j] matches EdgeSetting::Output(Argument::Bad)
            || node.settings@[j] matches EdgeSetting::DelayMs(Argument::Bad),
        forall|k: int|
            0 <= k < j ==> !((#[trigger] node.settings@[k]) matches EdgeSetting::Output(
                Argument::Bad,
            )) && !(node.settings@[k] matches EdgeSetting::DelayMs(Argument::Bad)),
    ensures
        decoded(nodes.push(node) + later).refusal == Some(
            Refusal { node: nodes.len() as usize, setting: j as usize },
        ),
    decreases later.len(),
{
    if later.len() == 0 {
        assert(nodes.push(node) + later =~= nodes.push(node));
        assert(nodes.push(node).drop_last() =~= nodes);
        law_reading_goes_up_to_a_bad_argument(node.settings@);
        let n = readable(node.settings@);
        if n < j {
            assert(node.settings@[n] == node.settings@[n]);
        } else if j < n {
            assert(!(node.settings@[j] matches EdgeSetting::Output(Argument::Bad)));
        }
    } else {
        assert((nodes.push(node) + later).drop_last() =~= nodes.push(node) + later.drop_last());
        law_a_bad_argument_ends_the_block(nodes, node, later.drop_last(), j);
    }
}

/// An edge that can be read: it is there if it has an output and an action, behind
/// those before it, and otherwise the first that it lacks is reported, behind the
/// problems of its lines.
pub proof fn law_an_edge_is_read_or_reported(nodes: Seq<EdgeNode>, node: EdgeNode)
    requires
        nodes.len() <= usize::MAX,
        decoded(nodes).refusal is None,
        node.name@ == "top"@ || node.name@ == "bottom"@ || node.name@ == "left"@ || node.name@
            == "right"@,
        forall|k: int|
            0 <= k < node.settings@.len() ==> !((
            #[trigger] node.settings@[k]) matches EdgeSetting::Output(Argument::Bad)) && !(
            node.settings@[k] matches EdgeSetting::DelayMs(Argument::Bad)),
    ensures
        ({
            let settings = node.settings@;
            let before = decoded(nodes);
            let after = decoded(nodes.push(node));
            let output = exists|k: int|
                0 <= k < settings.len() && (#[trigger] settings[k]) matches EdgeSetting::Output(
                    Argument::Value(_),
                );
            let action = exists|k: int|
                0 <= k < settings.len() && (#[trigger] settings[k]) matches EdgeSetting::Action(
                    Some(_),
                );
            let noted = before.diagnostics + faults(nodes.len() as int, settings);
            &&& after.refusal is None
            &&& output && action ==> {
                &&& after.edges.len() == before.edges.len() + 1
                &&& after.edges.drop_last() == before.edges
                &&& after.diagnostics == noted
            }
            &&& !(output && action) ==> {
                &&& after.edges == before.edges
                &&& after.diagnostics == noted.push(
                    Diagnostic {
                        node: nodes.len() as usize,
                        setting: None,
                        problem: if output {
                            EdgeProblem::NoAction
                        } else {
                            EdgeProblem::NoOutput
                        },
                    },
                )
            }
        }),
{
    let settings = node.settings@;
    assert(nodes.push(node).drop_last() =~= nodes);
    law_directions_have_names(node.name@);
    law_reading_goes_up_to_a_bad_argument(settings);
    let n = readable(settings);
    if n < settings.len() {
        assert(!(settings[n] matches EdgeSetting::Output(Argument::Bad)));
    }
    assert(settings.take(n) =~= settings);
    lemma_output_known(settings);
    lemma_action_known(settings);
    assert(decoded(nodes.push(node)).edges.drop_last() =~= decoded(nodes).edges
        || !(drafted(settings).output is Some && drafted(settings).action is Some));
}

/// What an edge that is there holds: the direction of its name, the last output, the
/// last delay or a quarter of a second, and the first action.
pub proof fn law_what_an_edge_holds(nodes: Seq<EdgeNode>, node: EdgeNode, o: int, d: int, a: int)
    requires
        nodes.len() <= usize::MAX,
        decoded(nodes).refusal is None,
        node.name@ == "top"@ || node.name@ == "bottom"@ || node.name@ == "left"@ || node.name@
            == "right"@,
        forall|k: int|
            0 <= k < node.settings@.len() ==> !((
            #[trigger] node.settings@[k]) matches EdgeSetting::Output(Argument::Bad)) && !(
            node.settings@[k] matches EdgeSetting::DelayMs(Argument::Bad)),
        // The last output.
        0 <= o < node.settings@.len(),
        node.settings@[o] matches EdgeSetting::Output(Argument::Value(_)),
        forall|k: int|
            o < k < node.settings@.len() ==> !((
            #[trigger] node.settings@[k]) matches EdgeSetting::Output(Argument::Value(_))),
        // The last delay, or none.
        -1 <= d < node.settings@.len(),
        d >= 0 ==> node.settings@[d] matches EdgeSetting::DelayMs(Argument::Value(_)),
        forall|k: int|
            d < k < node.settings@.len() ==> !((
            #[trigger] node.settings@[k]) matches EdgeSetting::DelayMs(Argument::Value(_))),
        // The first action.
        0 <= a < node.settings@.len(),
        node.settings@[a] matches EdgeSetting::Action(Some(_)),
        forall|k: int|
            0 <= k < a ==> !((#[trigger] node.settings@[k]) matches EdgeSetting::Action(Some(_))),
    ensures
        ({
            let edge = decoded(nodes.push(node)).edges.last();
            &&& node.name@ == "top"@ ==> edge.direction == HotEdgeDirection::Top
            &&& node.name@ == "bottom"@ ==> edge.direction == HotEdgeDirection::Bottom
            &&& node.name@ == "left"@ ==> edge.direction == HotEdgeDirection::Left
            &&& node.name@ == "right"@ ==> edge.direction == HotEdgeDirection::Right
            &&& node.settings@[o] matches EdgeSetting::Output(Argument::Value(name)) && edge.output
                == name@
            &&& d == -1 ==> edge.delay_ms == 250
            &&& d >= 0 ==> (node.settings@[d] matches EdgeSetting::DelayMs(Argument::Value(ms))
                && edge.delay_ms == ms)
            &&& node.settings@[a] matches EdgeSetting::Action(Some(action)) && edge.action == action
        }),
{
    let settings = node.settings@;
    law_an_edge_is_read_or_reported(nodes, node);
    law_directions_have_names(node.name@);
    law_reading_goes_up_to_a_bad_argument(settings);
    let n = readable(settings);
    if n < settings.len() {
        assert(!(settings[n] matches EdgeSetting::Output(Argument::Bad)));
    }
    assert(nodes.push(node).drop_last() =~= nodes);
    if let EdgeSetting::Output(Argument::Value(name)) = settings[o] {
        law_the_last_output_counts(settings, o, name);
    }
    if d >= 0 {
        if let EdgeSetting::DelayMs(Argument::Value(ms)) = settings[d] {
            law_the_last_delay_counts(settings, d, ms);
        }
    } else {
        lemma_no_delay(settings);
    }
    if let EdgeSetting::Action(Some(action)) = settings[a] {
        law_the_first_action_counts(settings, a, action);
    }
}

/// An empty block says nothing.
pub proof fn law_an_empty_block_says_nothing()
    ensures
        decoded(Seq::empty()).edges.len() == 0,
        decoded(Seq::empty()).diagnostics.len() == 0,
        decoded(Seq::empty()).refusal is None,
{
}

/// What is said of each problem.
pub proof fn law_what_is_said_of_a_problem(name: Seq<char>)
    ensures
        EdgeProblem::UnexpectedDirection.said(name) == Some(
            "unexpected edge direction `"@ + escaped(name)
                + "`; expected top, bottom, left, or right"@,
        ),
        EdgeProblem::OutputWithoutName.said(name) == Some("output requires a name argument"@),
        EdgeProblem::DelayWithoutValue.said(name) == Some("delay-ms requires a value argument"@),
        EdgeProblem::SecondAction.said(name) == Some("only one action is allowed per hot-edge"@),
        EdgeProblem::NotAnAction.said(name) is None,
        EdgeProblem::NoOutput.said(name) == Some("hot-edge requires an output"@),
        EdgeProblem::NoAction.said(name) == Some("hot-edge requires an action"@),
{
}

/// The number that a hexadecimal digit stands for.
pub open spec fn digit_value(c: char) -> int {
    if '0' <= c <= '9' {
        c as u32 - '0' as u32
    } else {
        c as u32 - 'a' as u32 + 10
    }
}

/// The number that hexadecimal digits spell.
pub open spec fn hex_value(digits: Seq<char>) -> int
    decreases digits.len(),
{
    if digits.len() == 0 {
        0
    } else {
        16 * hex_value(digits.drop_last()) + digit_value(digits.last())
    }
}

/// A number reads back from its hexadecimal digits, and has no zero before them.
pub proof fn law_hexadecimal_reads_back(n: int)
    requires
        0 <= n,
    ensures
        hex_value(hex(n)) == n,
        hex(n).len() > 0,
        n > 0 ==> hex(n)[0] != '0',
        n == 0 ==> hex(n) == seq!['0'],
        forall|i: int|
            0 <= i < hex(n).len() ==> '0' <= #[trigger] hex(n)[i] <= '9' || 'a' <= hex(n)[i]
                <= 'f',
    decreases n,
{
    reveal_strlit("0123456789abcdef");
    if n < 16 {
        assert(hex(n).drop_last() =~= Seq::<char>::empty());
        assert(hex_value(Seq::<char>::empty()) == 0);
    } else {
        law_hexadecimal_reads_back(n / 16);
        assert(hex(n).drop_last() =~= hex(n / 16));
        assert forall|i: int| 0 <= i < hex(n).len() implies '0' <= #[trigger] hex(n)[i] <= '9'
            || 'a' <= hex(n)[i] <= 'f' by {
            if i < hex(n / 16).len() {
                assert(hex(n)[i] == hex(n / 16)[i]);
            }
        }
    }
}

/// A text is shown character by character.
pub proof fn law_text_is_shown_character_by_character(text: Seq<char>, more: Seq<char>)
    ensures
        escaped(text + more) == escaped(text) + escaped(more),
        escaped(Seq::empty()).len() == 0,
    decreases more.len(),
{
    if more.len() == 0 {
        assert(text + more =~= text);
        assert(escaped(text) + escaped(more) =~= escaped(text));
    } else {
        assert((text + more).drop_last() =~= text + more.drop_last());
        law_text_is_shown_character_by_character(text, more.drop_last());
        assert(escaped(text + more) =~= escaped(text) + escaped(more));
    }
}

/// How a character is shown: a quote, a backslash, a tab and the line ends behind a
/// backslash, other printable ASCII as it is, and any other in braces, as its code
/// point in hexadecimal.
pub proof fn law_how_a_character_is_shown(c: char)
    ensures
        ({
            let point = c as u32;
            let shown = escaped(seq![c]);
            if point == 0x09 {
                shown == "\\t"@
            } else if point == 0x0a {
                shown == "\\n"@
            } else if point == 0x0d {
                shown == "\\r"@
            } else if point == 0x22 || point == 0x27 || point == 0x5c {
                shown == "\\"@.push(c)
            } else if 0x20 <= point <= 0x7e {
                shown == seq![c]
            } else {
                let digits = shown.subrange(3, shown.len() - 1);
                &&& shown.len() > 4
                &&& shown.take(3) == "\\u{"@
                &&& shown.last() == '}'
                &&& hex_value(digits) == point
                &&& digits[0] != '0' || digits.len() == 1
                &&& forall|i: int|
                    0 <= i < digits.len() ==> '0' <= #[trigger] digits[i] <= '9' || 'a' <= digits[i]
                        <= 'f'
            }
        }),
{
    reveal_strlit("\\t");
    reveal_strlit("\\n");
    reveal_strlit("\\r");
    reveal_strlit("\\");
    reveal_strlit("\\u{");
    let shown = escaped(seq![c]);
    reveal_with_fuel(escaped, 2);
    assert(seq![c].drop_last() =~= Seq::<char>::empty());
    assert(shown =~= escaped_char(c));
    let point = c as u32 as int;
    law_hexadecimal_reads_back(point);
    assert("\\t"@ =~= seq!['\\', 't']);
    assert("\\n"@ =~= seq!['\\', 'n']);
    assert("\\r"@ =~= seq!['\\', 'r']);
    assert("\\"@ =~= seq!['\\']);
    assert("\\u{"@ =~= seq!['\\', 'u', '{']);
    let braces = seq!['\\', 'u', '{'] + hex(point) + seq!['}'];
    assert(braces.subrange(3, braces.len() - 1) =~= hex(point));
    assert(braces.take(3) =~= seq!['\\', 'u', '{']);
    if c == '\'' || c == '"' || c == '\\' {
        assert(shown =~= "\\"@.push(c));
    }
}

} // verus!
