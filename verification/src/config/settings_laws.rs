//! What a section of settings changes, setting by setting.
use vstd::prelude::*;

use crate::config::dictation::{Dictation, DictationPart};
use crate::config::gestures::{
    DndEdgeViewScroll, DndEdgeViewScrollPart, DndEdgeWorkspaceSwitch, DndEdgeWorkspaceSwitchPart,
    Gestures, GesturesPart, HotCorners,
};
use crate::config::MergeWith;

verus! {

/// Each dictation setting goes by the section where that names it, and stays as it was
/// where it does not.
pub proof fn law_dictation_settings_are_merged_one_by_one(
    settings: Dictation,
    part: DictationPart,
    after: Dictation,
)
    requires
        settings.merges(&part, &after),
    ensures
        part.whisper_url is None ==> after.whisper_url == settings.whisper_url,
        part.whisper_url matches Some(url) ==> after.whisper_url == url,
        part.language is None ==> after.language == settings.language,
        part.language matches Some(language) ==> after.language == language,
        part.chunk_ms is None ==> after.chunk_ms == settings.chunk_ms,
        part.chunk_ms matches Some(ms) ==> after.chunk_ms == ms,
        part.max_chunk_ms is None ==> after.max_chunk_ms == settings.max_chunk_ms,
        part.max_chunk_ms matches Some(ms) ==> after.max_chunk_ms == ms,
        part.silence_ms is None ==> after.silence_ms == settings.silence_ms,
        part.silence_ms matches Some(ms) ==> after.silence_ms == ms,
        part.min_speech_ms is None ==> after.min_speech_ms == settings.min_speech_ms,
        part.min_speech_ms matches Some(ms) ==> after.min_speech_ms == ms,
        part.min_speech_rms is None ==> after.min_speech_rms == settings.min_speech_rms,
        part.min_speech_rms matches Some(level) ==> after.min_speech_rms == level,
        part.partial_ms is None ==> after.partial_ms == settings.partial_ms,
        part.partial_ms matches Some(ms) ==> after.partial_ms == ms,
        part.request_timeout_ms is None ==> after.request_timeout_ms
            == settings.request_timeout_ms,
        part.request_timeout_ms matches Some(ms) ==> after.request_timeout_ms == ms,
{
}

/// The dictation settings in force where nothing is configured.
pub proof fn law_the_dictation_defaults(settings: Dictation)
    requires
        settings.is_default(),
    ensures
        settings.whisper_url@ == "http://127.0.0.1:9876/inference"@,
        settings.language@ == "en"@,
        settings.chunk_ms == 3000,
        settings.max_chunk_ms == 10000,
        settings.silence_ms == 400,
        settings.min_speech_ms == 200,
        settings.min_speech_rms == 120,
        settings.partial_ms == 700,
        settings.request_timeout_ms == 30000,
{
}

/// A section that is there by default names no setting.
pub proof fn law_an_empty_dictation_section_names_nothing(part: DictationPart)
    requires
        part.is_empty(),
    ensures
        part.whisper_url is None && part.language is None && part.chunk_ms is None
            && part.max_chunk_ms is None && part.silence_ms is None && part.min_speech_ms is None
            && part.min_speech_rms is None && part.partial_ms is None
            && part.request_timeout_ms is None,
{
}

/// Each setting of scrolling the view goes by the section where that names it.
pub proof fn law_scrolling_is_merged_one_by_one(
    settings: DndEdgeViewScroll,
    part: DndEdgeViewScrollPart,
    after: DndEdgeViewScroll,
)
    requires
        settings.merges(&part, &after),
    ensures
        part.trigger_width is None ==> after.trigger_width == settings.trigger_width,
        part.trigger_width matches Some(width) ==> after.trigger_width.bits == width.value.bits,
        part.delay_ms is None ==> after.delay_ms == settings.delay_ms,
        part.delay_ms matches Some(ms) ==> after.delay_ms == ms,
        part.max_speed is None ==> after.max_speed == settings.max_speed,
        part.max_speed matches Some(speed) ==> after.max_speed.bits == speed.value.bits,
{
}

/// Each setting of switching workspaces goes by the section where that names it.
pub proof fn law_switching_is_merged_one_by_one(
    settings: DndEdgeWorkspaceSwitch,
    part: DndEdgeWorkspaceSwitchPart,
    after: DndEdgeWorkspaceSwitch,
)
    requires
        settings.merges(&part, &after),
    ensures
        part.trigger_height is None ==> after.trigger_height == settings.trigger_height,
        part.trigger_height matches Some(height) ==> after.trigger_height.bits
            == height.value.bits,
        part.delay_ms is None ==> after.delay_ms == settings.delay_ms,
        part.delay_ms matches Some(ms) ==> after.delay_ms == ms,
        part.max_speed is None ==> after.max_speed == settings.max_speed,
        part.max_speed matches Some(speed) ==> after.max_speed.bits == speed.value.bits,
{
}

/// Each gesture goes by the section where that names it: drags setting by setting,
/// corners and edges as a whole.
pub proof fn law_gestures_are_merged_one_by_one(
    settings: Gestures,
    part: GesturesPart,
    after: Gestures,
)
    requires
        settings.merges(&part, &after),
    ensures
        part.dnd_edge_view_scroll is None ==> after.dnd_edge_view_scroll
            == settings.dnd_edge_view_scroll,
        part.dnd_edge_view_scroll matches Some(scroll)
            ==> settings.dnd_edge_view_scroll.merges(&scroll, &after.dnd_edge_view_scroll),
        part.dnd_edge_workspace_switch is None ==> after.dnd_edge_workspace_switch
            == settings.dnd_edge_workspace_switch,
        part.dnd_edge_workspace_switch matches Some(switch)
            ==> settings.dnd_edge_workspace_switch.merges(&switch, &after.dnd_edge_workspace_switch),
        part.hot_corners is None ==> after.hot_corners == settings.hot_corners,
        part.hot_corners matches Some(corners) ==> after.hot_corners == corners,
        part.hot_edges is None ==> after.hot_edges@ == settings.hot_edges@,
        part.hot_edges matches Some(edges) ==> after.hot_edges@ == edges.0@,
{
}

/// The gestures in force where nothing is configured. Numbers are given by their bits:
/// 30, 50 and 1500.
pub proof fn law_the_gesture_defaults(settings: Gestures)
    requires
        settings.is_default(),
    ensures
        settings.dnd_edge_view_scroll.trigger_width.bits == 0x403e_0000_0000_0000,
        settings.dnd_edge_view_scroll.delay_ms == 100,
        settings.dnd_edge_view_scroll.max_speed.bits == 0x4097_7000_0000_0000,
        settings.dnd_edge_workspace_switch.trigger_height.bits == 0x4049_0000_0000_0000,
        settings.dnd_edge_workspace_switch.delay_ms == 100,
        settings.dnd_edge_workspace_switch.max_speed.bits == 0x4097_7000_0000_0000,
        !settings.hot_corners.off,
        !settings.hot_corners.top_left,
        !settings.hot_corners.top_right,
        !settings.hot_corners.bottom_left,
        !settings.hot_corners.bottom_right,
        settings.hot_edges@.len() == 0,
        settings.dnd_edge_view_scroll == DndEdgeViewScroll::standard(),
        settings.dnd_edge_workspace_switch == DndEdgeWorkspaceSwitch::standard(),
        settings.hot_corners == HotCorners::standard(),
{
}

/// A section that is there by default names no gesture.
pub proof fn law_an_empty_gestures_section_names_nothing(part: GesturesPart)
    requires
        part.is_empty(),
    ensures
        part.dnd_edge_view_scroll is None && part.dnd_edge_workspace_switch is None
            && part.hot_corners is None && part.hot_edges is None,
{
}

} // verus!
