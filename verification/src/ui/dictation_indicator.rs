//! A small paperclip that appears while dictation is listening.
//!
//! Without this there is no way to tell the microphone is open: in an
//! application that speaks text-input you at least see preedit appear, but
//! everywhere else nothing happens at all until a whole utterance settles.
//!
//! What is decided here is when the clip is on the screen, which words stand
//! beside it and which of its textures are still good. How far a fade has come
//! is a floating point number, so the animations run outside.
use std::collections::HashMap;
use vstd::prelude::*;
use vstd::string::StringExecFns;

use crate::text::same;

verus! {

broadcast use vstd::std_specs::hash::group_hash_axioms;

/// Whether the clip is on the screen, or on its way in or out.
#[derive(Debug, Clone, Copy, PartialEq, Eq, Structural)]
pub enum Visibility {
    Hidden,
    Showing,
    Shown,
    Hiding,
}

/// Where a fade starts.
#[derive(Debug, Clone, Copy, PartialEq, Eq, Structural)]
pub enum FadeFrom {
    /// From nothing.
    Hidden,
    /// From wherever the fade that is running has come.
    Current,
    /// From the whole clip.
    Shown,
}

/// A fade to start: in, up to the whole clip, or out, down to nothing.
#[derive(Debug, Clone, Copy, PartialEq, Eq, Structural)]
pub struct Fade {
    pub from: FadeFrom,
    pub fade_in: bool,
}

/// What to do to put the clip on an output.
#[derive(Debug, Clone, Copy, PartialEq, Eq, Structural)]
pub enum RenderStep {
    /// There is nothing to put there.
    Nothing,
    /// Draw a texture for this scale, and say how that went.
    Draw,
    /// Put the texture for this scale in place.
    Place,
}

/// The clip and the words beside it.
#[derive(Debug)]
pub struct DictationIndicator {
    state: Visibility,
    /// Words heard but not yet settled. Shown beside the clip so dictation is
    /// legible in applications that cannot display preedit themselves - which
    /// is most of them.
    preview: String,
    /// The output scales, by their bits, for which a texture was drawn, and
    /// whether that worked out.
    buffers: HashMap<u64, bool>,
}

/// What a [`DictationIndicator`] shows.
#[verifier::ext_equal]
pub struct IndicatorView {
    pub state: Visibility,
    pub preview: Seq<char>,
    /// The scales with a texture drawn since the words last changed.
    pub buffers: Map<u64, bool>,
}

impl View for DictationIndicator {
    type V = IndicatorView;

    closed spec fn view(&self) -> IndicatorView {
        IndicatorView { state: self.state, preview: self.preview@, buffers: self.buffers@ }
    }
}

impl IndicatorView {
    /// Hidden, with no words.
    pub open spec fn fresh() -> Self {
        IndicatorView {
            state: Visibility::Hidden,
            preview: Seq::empty(),
            buffers: Map::empty(),
        }
    }

    /// After being asked to appear, and the fade that starts. A clip on its way
    /// out is caught rather than restarted from nothing.
    pub open spec fn show(self) -> (Self, Option<Fade>) {
        match self.state {
            Visibility::Shown | Visibility::Showing => (self, None),
            Visibility::Hiding => (
                IndicatorView { state: Visibility::Showing, ..self },
                Some(Fade { from: FadeFrom::Current, fade_in: true }),
            ),
            Visibility::Hidden => (
                IndicatorView { state: Visibility::Showing, ..self },
                Some(Fade { from: FadeFrom::Hidden, fade_in: true }),
            ),
        }
    }

    /// After being asked to go, and the fade that starts.
    pub open spec fn dismiss(self) -> (Self, Option<Fade>) {
        match self.state {
            Visibility::Hidden | Visibility::Hiding => (self, None),
            Visibility::Showing => (
                IndicatorView { state: Visibility::Hiding, ..self },
                Some(Fade { from: FadeFrom::Current, fade_in: false }),
            ),
            Visibility::Shown => (
                IndicatorView { state: Visibility::Hiding, ..self },
                Some(Fade { from: FadeFrom::Shown, fade_in: false }),
            ),
        }
    }

    /// With these words beside the clip. They are baked into the textures, so
    /// other words need other textures.
    pub open spec fn with_preview(self, text: Seq<char>) -> Self {
        if self.preview == text {
            self
        } else {
            IndicatorView { preview: text, buffers: Map::empty(), ..self }
        }
    }

    /// After a look at the fade that is running: a fade that is done is over.
    pub open spec fn advance(self, done: bool) -> Self {
        if !done {
            self
        } else if self.state == Visibility::Showing {
            IndicatorView { state: Visibility::Shown, ..self }
        } else if self.state == Visibility::Hiding {
            IndicatorView { state: Visibility::Hidden, ..self }
        } else {
            self
        }
    }

    /// With a texture drawn for a scale, or with the attempt to.
    pub open spec fn with_drawn(self, scale: u64, worked: bool) -> Self {
        IndicatorView { buffers: self.buffers.insert(scale, worked), ..self }
    }

    /// What to do to put the clip on an output of a scale. A scale for which
    /// drawing failed is not tried again until the words change.
    pub open spec fn render(self, scale: u64) -> RenderStep {
        if self.state == Visibility::Hidden {
            RenderStep::Nothing
        } else if !self.buffers.contains_key(scale) {
            RenderStep::Draw
        } else if self.buffers[scale] {
            RenderStep::Place
        } else {
            RenderStep::Nothing
        }
    }
}

impl DictationIndicator {
    pub fn new() -> (indicator: Self)
        ensures
            indicator@ == IndicatorView::fresh(),
    {
        DictationIndicator {
            state: Visibility::Hidden,
            preview: String::new(),
            buffers: HashMap::new(),
        }
    }

    pub fn show(&mut self) -> (fade: Option<Fade>)
        ensures
            (final(self)@, fade) == old(self)@.show(),
    {
        let from = match self.state {
            Visibility::Shown => {
                return None;
            },
            Visibility::Showing => {
                return None;
            },
            // Catch a clip on its way out rather than restarting from nothing.
            Visibility::Hiding => FadeFrom::Current,
            Visibility::Hidden => FadeFrom::Hidden,
        };
        self.state = Visibility::Showing;
        Some(Fade { from, fade_in: true })
    }

    pub fn dismiss(&mut self) -> (fade: Option<Fade>)
        ensures
            (final(self)@, fade) == old(self)@.dismiss(),
    {
        let from = match self.state {
            Visibility::Hidden => {
                return None;
            },
            Visibility::Hiding => {
                return None;
            },
            Visibility::Showing => FadeFrom::Current,
            Visibility::Shown => FadeFrom::Shown,
        };
        self.state = Visibility::Hiding;
        Some(Fade { from, fade_in: false })
    }

    /// Update the words shown beside the clip. Returns whether anything
    /// changed, so the caller only asks for a frame when one is warranted.
    pub fn set_preview(&mut self, text: &str) -> (changed: bool)
        ensures
            changed == (old(self)@.preview != text@),
            final(self)@ == old(self)@.with_preview(text@),
    {
        if same(self.preview.as_str(), text) {
            return false;
        }
        self.preview = text.to_owned();
        // The text is baked into the texture, so it has to be redrawn.
        self.buffers.clear();
        true
    }

    /// The words beside the clip.
    pub fn preview(&self) -> (text: &str)
        ensures
            text@ == self@.preview,
    {
        self.preview.as_str()
    }

    /// Whether the clip is on the screen, or on its way in or out.
    pub fn visibility(&self) -> (state: Visibility)
        ensures
            state == self@.state,
    {
        self.state
    }

    /// Take note of whether the fade that is running is done.
    pub fn advance_animations(&mut self, done: bool)
        ensures
            final(self)@ == old(self)@.advance(done),
    {
        if done {
            self.state = match self.state {
                Visibility::Showing => Visibility::Shown,
                Visibility::Hiding => Visibility::Hidden,
                other => other,
            };
        }
    }

    pub fn are_animations_ongoing(&self) -> (ongoing: bool)
        ensures
            ongoing == (self@.state == Visibility::Showing || self@.state == Visibility::Hiding),
    {
        match self.state {
            Visibility::Showing => true,
            Visibility::Hiding => true,
            _ => false,
        }
    }

    /// What to do to put the clip on an output of a scale, given by its bits.
    pub fn render(&self, scale: u64) -> (step: RenderStep)
        ensures
            step == self@.render(scale),
    {
        match self.state {
            Visibility::Hidden => RenderStep::Nothing,
            _ => match self.buffers.get(&scale) {
                None => RenderStep::Draw,
                Some(drawn) => if *drawn {
                    RenderStep::Place
                } else {
                    RenderStep::Nothing
                },
            },
        }
    }

    /// Take note of how drawing a texture for a scale went.
    pub fn drawn(&mut self, scale: u64, worked: bool)
        ensures
            final(self)@ == old(self)@.with_drawn(scale, worked),
    {
        self.buffers.insert(scale, worked);
    }
}

/// Being asked twice to appear, or twice to go, is being asked once.
pub proof fn law_asking_twice_is_asking_once(clip: IndicatorView)
    ensures
        clip.show().0.show() == (clip.show().0, None::<Fade>),
        clip.dismiss().0.dismiss() == (clip.dismiss().0, None::<Fade>),
{
}

/// A clip that is asked to go while it fades in is caught where it is, and so is
/// one that is asked back while it fades out.
pub proof fn law_a_fading_clip_is_caught(clip: IndicatorView)
    ensures
        clip.show().0.state == Visibility::Showing ==> clip.show().0.dismiss().1 == Some(
            Fade { from: FadeFrom::Current, fade_in: false },
        ),
        clip.dismiss().0.state == Visibility::Hiding ==> clip.dismiss().0.show().1 == Some(
            Fade { from: FadeFrom::Current, fade_in: true },
        ),
{
}

/// A fade that is done leaves the clip where it was headed, with nothing moving.
pub proof fn law_a_finished_fade_is_over(clip: IndicatorView)
    ensures
        clip.show().0.advance(true).state == Visibility::Shown,
        clip.dismiss().0.advance(true).state == Visibility::Hidden,
        clip.advance(true).state == Visibility::Shown || clip.advance(true).state
            == Visibility::Hidden,
{
}

/// A texture shows the words beside the clip: once they change, every scale is
/// drawn again, and while they stay, none is drawn twice, whether or not drawing
/// worked.
pub proof fn law_textures_show_the_words(
    clip: IndicatorView,
    text: Seq<char>,
    scale: u64,
    worked: bool,
)
    requires
        clip.state != Visibility::Hidden,
    ensures
        clip.preview != text ==> clip.with_preview(text).render(scale) == RenderStep::Draw,
        clip.with_preview(text).with_preview(text) == clip.with_preview(text),
        clip.with_drawn(scale, worked).render(scale) == (if worked {
            RenderStep::Place
        } else {
            RenderStep::Nothing
        }),
        clip.with_drawn(scale, worked).with_preview(clip.preview) == clip.with_drawn(scale, worked),
{
}

/// A hidden clip is not rendered.
pub proof fn law_a_hidden_clip_is_not_rendered(clip: IndicatorView, scale: u64)
    requires
        clip.state == Visibility::Hidden,
    ensures
        clip.render(scale) == RenderStep::Nothing,
{
}

/// What each request does to the clip: it starts the fade there or back from where the
/// clip is, and none where the clip is there or on its way. The words and the textures
/// stay.
pub proof fn law_what_a_request_does(clip: IndicatorView)
    ensures
        ({
            let (shown, fade_in) = clip.show();
            let (gone, fade_out) = clip.dismiss();
            &&& shown.preview == clip.preview && shown.buffers == clip.buffers
            &&& gone.preview == clip.preview && gone.buffers == clip.buffers
            &&& clip.state == Visibility::Hidden ==> shown.state == Visibility::Showing && fade_in
                == Some(Fade { from: FadeFrom::Hidden, fade_in: true }) && gone.state
                == Visibility::Hidden && fade_out is None
            &&& clip.state == Visibility::Showing ==> shown.state == Visibility::Showing
                && fade_in is None && gone.state == Visibility::Hiding && fade_out == Some(
                Fade { from: FadeFrom::Current, fade_in: false },
            )
            &&& clip.state == Visibility::Shown ==> shown.state == Visibility::Shown
                && fade_in is None && gone.state == Visibility::Hiding && fade_out == Some(
                Fade { from: FadeFrom::Shown, fade_in: false },
            )
            &&& clip.state == Visibility::Hiding ==> shown.state == Visibility::Showing && fade_in
                == Some(Fade { from: FadeFrom::Current, fade_in: true }) && gone.state
                == Visibility::Hiding && fade_out is None
        }),
{
}

/// Only the end of a fade moves the clip on, and it changes nothing else.
pub proof fn law_only_the_end_of_a_fade_moves_the_clip(clip: IndicatorView, done: bool)
    ensures
        ({
            let after = clip.advance(done);
            &&& after.preview == clip.preview && after.buffers == clip.buffers
            &&& !done ==> after.state == clip.state
            &&& done && clip.state == Visibility::Showing ==> after.state == Visibility::Shown
            &&& done && clip.state == Visibility::Hiding ==> after.state == Visibility::Hidden
            &&& clip.state == Visibility::Shown || clip.state == Visibility::Hidden ==> after.state
                == clip.state
        }),
{
}

/// Words are shown as they are, and neither they nor a texture moves the clip. A texture
/// is noted for its own scale only.
pub proof fn law_words_are_shown_as_they_are(
    clip: IndicatorView,
    text: Seq<char>,
    scale: u64,
    other: u64,
    worked: bool,
)
    ensures
        clip.with_preview(text).preview == text,
        clip.with_preview(text).state == clip.state,
        clip.preview == text ==> clip.with_preview(text).buffers == clip.buffers,
        clip.preview != text ==> !clip.with_preview(text).buffers.contains_key(scale),
        clip.with_drawn(scale, worked).state == clip.state,
        clip.with_drawn(scale, worked).preview == clip.preview,
        other != scale ==> clip.with_drawn(scale, worked).render(other) == clip.render(other),
{
}

/// A clip that is not hidden is drawn for a scale that has no texture, and put in place
/// where there is one that worked out.
pub proof fn law_when_the_clip_is_drawn(clip: IndicatorView, scale: u64)
    ensures
        clip.render(scale) == RenderStep::Draw <==> clip.state != Visibility::Hidden
            && !clip.buffers.contains_key(scale),
        clip.render(scale) == RenderStep::Place <==> clip.state != Visibility::Hidden
            && clip.buffers.contains_key(scale) && clip.buffers[scale],
{
}

/// At first the clip is hidden and has no words and no textures.
pub proof fn law_at_first_the_clip_is_hidden(scale: u64)
    ensures
        IndicatorView::fresh().state == Visibility::Hidden,
        IndicatorView::fresh().preview.len() == 0,
        !IndicatorView::fresh().buffers.contains_key(scale),
{
}

} // verus!
