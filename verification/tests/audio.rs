use niri_dictation::dictation::audio::{came_up, captured, CHANNELS, NODE_LATENCY};
use niri_dictation::dictation::chunker::{BYTES_PER_SAMPLE, FRAME_BYTES, SAMPLE_RATE};

#[test]
fn takes_what_was_captured() {
    assert_eq!(captured(2, &[1, 2, 3]), Some(vec![1, 2]));
    assert_eq!(captured(3, &[1, 2, 3]), Some(vec![1, 2, 3]));
    // A buffer that claims more than it holds.
    assert_eq!(captured(u32::MAX, &[1, 2, 3]), Some(vec![1, 2, 3]));
    assert_eq!(captured(0, &[1, 2, 3]), None);
    assert_eq!(captured(5, &[]), None);
}

#[test]
fn a_missing_microphone_is_an_error() {
    assert_eq!(came_up(Some(Ok(()))), Ok(()));
    assert_eq!(
        came_up(Some(Err("no such device".to_owned()))),
        Err("no such device".to_owned())
    );
    assert_eq!(
        came_up(None),
        Err("dictation audio thread died during setup".to_owned())
    );
}

#[test]
fn buffers_are_as_long_as_frames() {
    let samples = FRAME_BYTES / BYTES_PER_SAMPLE / CHANNELS as usize;
    assert_eq!(NODE_LATENCY, format!("{samples}/{SAMPLE_RATE}"));
}
