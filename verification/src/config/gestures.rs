//! Gesture settings.
use vstd::prelude::*;

use crate::config::pick;
use crate::config::MergeWith;

verus! {

/// A double-precision number, by its bits. Settings hold such numbers and hand
/// them on; nothing here computes with them.
#[derive(Debug, Clone, Copy, PartialEq, Eq, Structural)]
pub struct Real {
    pub bits: u64,
}

/// A number of a section, between `MIN` and `MAX`.
#[derive(Debug, Clone, Copy, PartialEq, Eq)]
pub struct FloatOrInt<const MIN: u32, const MAX: u32> {
    pub value: Real,
}

impl<const MIN: u32, const MAX: u32> MergeWith<FloatOrInt<MIN, MAX>> for Real {
    open spec fn merges(&self, part: &FloatOrInt<MIN, MAX>, after: &Self) -> bool {
        *after == part.value
    }

    fn merge_with(&mut self, part: &FloatOrInt<MIN, MAX>) {
        *self = part.value;
    }
}

/// A number after an optional replacement.
pub open spec fn pick_real<const MIN: u32, const MAX: u32>(
    old_value: Real,
    replacement: Option<FloatOrInt<MIN, MAX>>,
) -> Real {
    match replacement {
        Some(number) => number.value,
        None => old_value,
    }
}

/// Scrolling the view by dragging something to the edge of the screen.
#[derive(Debug, Clone, Copy, PartialEq, Eq, Structural)]
pub struct DndEdgeViewScroll {
    pub trigger_width: Real,
    pub delay_ms: u16,
    pub max_speed: Real,
}

impl Default for DndEdgeViewScroll {
    fn default() -> (settings: Self)
        ensures
            settings == Self::standard(),
    {
        DndEdgeViewScroll {
            // 30, as in GTK 4.
            trigger_width: Real { bits: 0x403e_0000_0000_0000 },
            delay_ms: 100,
            // 1500.
            max_speed: Real { bits: 0x4097_7000_0000_0000 },
        }
    }
}

impl DndEdgeViewScroll {
    /// The settings in force where nothing is configured: 30 wide, after 100 ms,
    /// at up to 1500.
    pub open spec fn standard() -> Self {
        DndEdgeViewScroll {
            trigger_width: Real { bits: 0x403e_0000_0000_0000 },
            delay_ms: 100,
            max_speed: Real { bits: 0x4097_7000_0000_0000 },
        }
    }

    /// The settings with a section laid over them.
    pub open spec fn merged(&self, part: &DndEdgeViewScrollPart) -> Self {
        DndEdgeViewScroll {
            trigger_width: pick_real(self.trigger_width, part.trigger_width),
            delay_ms: pick(self.delay_ms, part.delay_ms),
            max_speed: pick_real(self.max_speed, part.max_speed),
        }
    }
}

#[derive(Debug, Clone, Copy, PartialEq, Eq)]
pub struct DndEdgeViewScrollPart {
    pub trigger_width: Option<FloatOrInt<0, 65535>>,
    pub delay_ms: Option<u16>,
    pub max_speed: Option<FloatOrInt<0, 1_000_000>>,
}

impl MergeWith<DndEdgeViewScrollPart> for DndEdgeViewScroll {
    open spec fn merges(&self, part: &DndEdgeViewScrollPart, after: &Self) -> bool {
        *after == self.merged(part)
    }

    fn merge_with(&mut self, part: &DndEdgeViewScrollPart) {
        if let Some(width) = &part.trigger_width {
            self.trigger_width.merge_with(width);
        }
        if let Some(speed) = &part.max_speed {
            self.max_speed.merge_with(speed);
        }
        if let Some(ms) = part.delay_ms {
            self.delay_ms = ms;
        }
    }
}

/// Switching workspaces by dragging something to the edge of the screen.
#[derive(Debug, Clone, Copy, PartialEq, Eq, Structural)]
pub struct DndEdgeWorkspaceSwitch {
    pub trigger_height: Real,
    pub delay_ms: u16,
    pub max_speed: Real,
}

impl Default for DndEdgeWorkspaceSwitch {
    fn default() -> (settings: Self)
        ensures
            settings == Self::standard(),
    {
        DndEdgeWorkspaceSwitch {
            // 50.
            trigger_height: Real { bits: 0x4049_0000_0000_0000 },
            delay_ms: 100,
            // 1500.
            max_speed: Real { bits: 0x4097_7000_0000_0000 },
        }
    }
}

impl DndEdgeWorkspaceSwitch {
    /// The settings in force where nothing is configured: 50 high, after 100 ms,
    /// at up to 1500.
    pub open spec fn standard() -> Self {
        DndEdgeWorkspaceSwitch {
            trigger_height: Real { bits: 0x4049_0000_0000_0000 },
            delay_ms: 100,
            max_speed: Real { bits: 0x4097_7000_0000_0000 },
        }
    }

    /// The settings with a section laid over them.
    pub open spec fn merged(&self, part: &DndEdgeWorkspaceSwitchPart) -> Self {
        DndEdgeWorkspaceSwitch {
            trigger_height: pick_real(self.trigger_height, part.trigger_height),
            delay_ms: pick(self.delay_ms, part.delay_ms),
            max_speed: pick_real(self.max_speed, part.max_speed),
        }
    }
}

#[derive(Debug, Clone, Copy, PartialEq, Eq)]
pub struct DndEdgeWorkspaceSwitchPart {
    pub trigger_height: Option<FloatOrInt<0, 65535>>,
    pub delay_ms: Option<u16>,
    pub max_speed: Option<FloatOrInt<0, 1_000_000>>,
}

impl MergeWith<DndEdgeWorkspaceSwitchPart> for DndEdgeWorkspaceSwitch {
    open spec fn merges(&self, part: &DndEdgeWorkspaceSwitchPart, after: &Self) -> bool {
        *after == self.merged(part)
    }

    fn merge_with(&mut self, part: &DndEdgeWorkspaceSwitchPart) {
        if let Some(height) = &part.trigger_height {
            self.trigger_height.merge_with(height);
        }
        if let Some(speed) = &part.max_speed {
            self.max_speed.merge_with(speed);
        }
        if let Some(ms) = part.delay_ms {
            self.delay_ms = ms;
        }
    }
}

/// Which corners of the screen open the overview.
#[derive(Debug, Clone, Copy, PartialEq, Eq, Structural)]
pub struct HotCorners {
    pub off: bool,
    pub top_left: bool,
    pub top_right: bool,
    pub bottom_left: bool,
    pub bottom_right: bool,
}

impl HotCorners {
    /// No corner named, and not off.
    pub open spec fn standard() -> Self {
        HotCorners {
            off: false,
            top_left: false,
            top_right: false,
            bottom_left: false,
            bottom_right: false,
        }
    }
}

impl Default for HotCorners {
    fn default() -> (corners: Self)
        ensures
            corners == Self::standard(),
    {
        HotCorners {
            off: false,
            top_left: false,
            top_right: false,
            bottom_left: false,
            bottom_right: false,
        }
    }
}

#[derive(Debug, Clone, Copy, PartialEq, Eq, Structural)]
pub enum HotEdgeDirection {
    Top,
    Bottom,
    Left,
    Right,
}

/// An action, by its number among the actions of a configuration.
#[derive(Debug, Clone, Copy, PartialEq, Eq, Structural)]
pub struct Action {
    pub id: u64,
}

/// An edge of an output that does something when the pointer rests on it.
#[derive(Debug, Clone, PartialEq, Eq)]
pub struct HotEdge {
    pub direction: HotEdgeDirection,
    pub output: String,
    pub delay_ms: u16,
    pub action: Action,
}

impl HotEdge {
    /// An equal copy.
    pub fn duplicate(&self) -> (copy: Self)
        ensures
            copy == *self,
    {
        HotEdge {
            direction: self.direction,
            output: self.output.clone(),
            delay_ms: self.delay_ms,
            action: self.action,
        }
    }
}

/// The edges of a `hot-edges` block.
#[derive(Debug, Clone, PartialEq, Eq)]
pub struct HotEdges(pub Vec<HotEdge>);

#[derive(Debug, Clone, PartialEq, Eq)]
pub struct Gestures {
    pub dnd_edge_view_scroll: DndEdgeViewScroll,
    pub dnd_edge_workspace_switch: DndEdgeWorkspaceSwitch,
    pub hot_corners: HotCorners,
    pub hot_edges: Vec<HotEdge>,
}

impl Gestures {
    /// The settings in force where nothing is configured.
    pub open spec fn is_default(&self) -> bool {
        &&& self.dnd_edge_view_scroll == DndEdgeViewScroll::standard()
        &&& self.dnd_edge_workspace_switch == DndEdgeWorkspaceSwitch::standard()
        &&& self.hot_corners == HotCorners::standard()
        &&& self.hot_edges@.len() == 0
    }
}

impl Default for Gestures {
    fn default() -> (settings: Self)
        ensures
            settings.is_default(),
    {
        Gestures {
            dnd_edge_view_scroll: DndEdgeViewScroll::default(),
            dnd_edge_workspace_switch: DndEdgeWorkspaceSwitch::default(),
            hot_corners: HotCorners::default(),
            hot_edges: Vec::new(),
        }
    }
}

/// One `gestures` section of a configuration: what it names, and nothing else.
#[derive(Debug, Clone, PartialEq, Eq)]
pub struct GesturesPart {
    pub dnd_edge_view_scroll: Option<DndEdgeViewScrollPart>,
    pub dnd_edge_workspace_switch: Option<DndEdgeWorkspaceSwitchPart>,
    pub hot_corners: Option<HotCorners>,
    pub hot_edges: Option<HotEdges>,
}

impl MergeWith<GesturesPart> for Gestures {
    open spec fn merges(&self, part: &GesturesPart, after: &Self) -> bool {
        &&& after.dnd_edge_view_scroll == (match part.dnd_edge_view_scroll {
            Some(section) => self.dnd_edge_view_scroll.merged(&section),
            None => self.dnd_edge_view_scroll,
        })
        &&& after.dnd_edge_workspace_switch == (match part.dnd_edge_workspace_switch {
            Some(section) => self.dnd_edge_workspace_switch.merged(&section),
            None => self.dnd_edge_workspace_switch,
        })
        &&& after.hot_corners == pick(self.hot_corners, part.hot_corners)
        // Edges are replaced as a whole.
        &&& after.hot_edges@ == (match part.hot_edges {
            Some(edges) => edges.0@,
            None => self.hot_edges@,
        })
    }

    fn merge_with(&mut self, part: &GesturesPart) {
        if let Some(section) = &part.dnd_edge_view_scroll {
            self.dnd_edge_view_scroll.merge_with(section);
        }
        if let Some(section) = &part.dnd_edge_workspace_switch {
            self.dnd_edge_workspace_switch.merge_with(section);
        }
        if let Some(corners) = part.hot_corners {
            self.hot_corners = corners;
        }
        if let Some(edges) = &part.hot_edges {
            let mut copy: Vec<HotEdge> = Vec::new();
            let mut i: usize = 0;
            while i < edges.0.len()
                invariant
                    i <= edges.0@.len(),
                    copy@ == edges.0@.take(i as int),
                decreases edges.0@.len() - i,
            {
                copy.push(edges.0[i].duplicate());
                i = i + 1;
                assert(copy@ =~= edges.0@.take(i as int));
            }
            assert(copy@ =~= edges.0@);
            self.hot_edges = copy;
        }
    }
}

impl GesturesPart {
    /// Whether the section names nothing.
    pub open spec fn is_empty(&self) -> bool {
        &&& self.dnd_edge_view_scroll is None
        &&& self.dnd_edge_workspace_switch is None
        &&& self.hot_corners is None
        &&& self.hot_edges is None
    }
}

impl Default for GesturesPart {
    fn default() -> (part: Self)
        ensures
            part.is_empty(),
    {
        GesturesPart {
            dnd_edge_view_scroll: None,
            dnd_edge_workspace_switch: None,
            hot_corners: None,
            hot_edges: None,
        }
    }
}

impl Default for HotEdges {
    fn default() -> (edges: Self)
        ensures
            edges.0@.len() == 0,
    {
        HotEdges(Vec::new())
    }
}

/// Whether two settings say the same.
pub open spec fn alike(settings: Gestures, other: Gestures) -> bool {
    &&& settings.dnd_edge_view_scroll == other.dnd_edge_view_scroll
    &&& settings.dnd_edge_workspace_switch == other.dnd_edge_workspace_switch
    &&& settings.hot_corners == other.hot_corners
    &&& settings.hot_edges@ == other.hot_edges@
}

/// A section that names nothing changes nothing.
pub proof fn law_an_empty_section_changes_nothing(
    settings: Gestures,
    part: GesturesPart,
    after: Gestures,
)
    requires
        part.is_empty(),
        settings.merges(&part, &after),
    ensures
        alike(settings, after),
{
}

/// Laying a section over the settings again changes nothing.
pub proof fn law_merging_twice_is_merging_once(
    settings: Gestures,
    part: GesturesPart,
    once: Gestures,
    twice: Gestures,
)
    requires
        settings.merges(&part, &once),
        once.merges(&part, &twice),
    ensures
        alike(once, twice),
{
}

} // verus!
