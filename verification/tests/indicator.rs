use niri_dictation::ui::dictation_indicator::{
    DictationIndicator, Fade, FadeFrom, RenderStep, Visibility,
};

fn fade(from: FadeFrom, fade_in: bool) -> Option<Fade> {
    Some(Fade { from, fade_in })
}

#[test]
fn fades_in_and_out() {
    let mut clip = DictationIndicator::new();
    assert_eq!(clip.visibility(), Visibility::Hidden);
    assert!(!clip.are_animations_ongoing());

    assert_eq!(clip.show(), fade(FadeFrom::Hidden, true));
    assert_eq!(clip.visibility(), Visibility::Showing);
    assert!(clip.are_animations_ongoing());
    clip.advance_animations(false);
    assert_eq!(clip.visibility(), Visibility::Showing);
    clip.advance_animations(true);
    assert_eq!(clip.visibility(), Visibility::Shown);
    assert!(!clip.are_animations_ongoing());

    assert_eq!(clip.dismiss(), fade(FadeFrom::Shown, false));
    assert_eq!(clip.visibility(), Visibility::Hiding);
    assert!(clip.are_animations_ongoing());
    clip.advance_animations(true);
    assert_eq!(clip.visibility(), Visibility::Hidden);
    clip.advance_animations(true);
    assert_eq!(clip.visibility(), Visibility::Hidden);
}

#[test]
fn asking_twice_is_asking_once() {
    let mut clip = DictationIndicator::new();
    assert_eq!(clip.dismiss(), None);
    clip.show();
    assert_eq!(clip.show(), None);
    clip.advance_animations(true);
    assert_eq!(clip.show(), None);
    clip.dismiss();
    assert_eq!(clip.dismiss(), None);
}

#[test]
fn a_fading_clip_is_caught() {
    let mut clip = DictationIndicator::new();
    clip.show();
    assert_eq!(clip.dismiss(), fade(FadeFrom::Current, false));
    assert_eq!(clip.show(), fade(FadeFrom::Current, true));
    assert_eq!(clip.visibility(), Visibility::Showing);
}

#[test]
fn the_words_are_drawn_anew_when_they_change() {
    let one = 1f64.to_bits();
    let two = 2f64.to_bits();
    let mut clip = DictationIndicator::new();
    assert_eq!(clip.render(one), RenderStep::Nothing);
    clip.show();
    assert_eq!(clip.render(one), RenderStep::Draw);
    clip.drawn(one, true);
    assert_eq!(clip.render(one), RenderStep::Place);
    assert_eq!(clip.render(two), RenderStep::Draw);

    assert!(!clip.set_preview(""));
    assert_eq!(clip.render(one), RenderStep::Place);
    assert!(clip.set_preview("so far"));
    assert_eq!(clip.preview(), "so far");
    assert_eq!(clip.render(one), RenderStep::Draw);
    assert!(!clip.set_preview("so far"));
}

#[test]
fn a_failed_texture_is_not_tried_again() {
    let one = 1f64.to_bits();
    let mut clip = DictationIndicator::new();
    clip.show();
    clip.drawn(one, false);
    assert_eq!(clip.render(one), RenderStep::Nothing);
    assert!(clip.set_preview("words"));
    assert_eq!(clip.render(one), RenderStep::Draw);
}
