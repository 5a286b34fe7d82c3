//! Putting transcribed text into the focused application.
//!
//! There are two ways to do this and the right one depends on the application.
//!
//! - Applications with an active text-input get the text through the protocol.
//!   Provisional text becomes *preedit* - the underlined, not-yet-real text
//!   phones show while you dictate - so when whisper revises a phrase the
//!   preedit is simply replaced. Nothing is ever typed and then taken back.
//!
//! - Everything else gets synthesised key events. There is no preedit to revise
//!   here, so only settled text is sent and the provisional text stays in the
//!   on-screen indicator. Append-only: this path never retracts what it has
//!   already typed, because by then the cursor may be somewhere else entirely.
use vstd::prelude::*;
use vstd::string::{StrSliceExecFns, StringExecFns};

use crate::dictation::State;
use crate::dictation::effect::{ask, asked, Effect, EffectView};
use crate::dictation::keymap::{
    build_char_map, find_mod_keys, inverse, mod_keys, KeyPlan, Keymap, ModKeys,
};

verus! {

/// A piece of transcribed text on its way to the focused application.
#[derive(Debug, Clone)]
pub enum Injection {
    /// Text whisper may still revise. Shown as preedit where that is possible
    /// and otherwise withheld until it settles.
    Preedit(String),
    /// Text the transcriber has settled on.
    Commit(String),
}

/// Which route a piece of text actually took, so the caller knows whether
/// provisional text made it to the application or needs to be shown in the
/// indicator instead.
#[derive(Debug, Clone, Copy, PartialEq, Eq, Structural)]
pub enum Delivery {
    /// Delivered through text-input-v3.
    TextInput,
    /// Typed as synthesised key events.
    Keyboard,
    /// Nothing was sent: provisional text with no text-input to show it in.
    Withheld,
}

/// What the focused application can take.
#[derive(Debug, Clone)]
pub struct Focus {
    /// Whether it has an active text-input.
    pub text_input: bool,
    /// The keymap of the seat's keyboard, if it has a keyboard.
    pub keyboard: Option<Keymap>,
}

impl Focus {
    pub open spec fn wf(&self) -> bool {
        match self.keyboard {
            Some(keymap) => keymap.wf(),
            None => true,
        }
    }
}

/// A key going down or up.
pub open spec fn key(keycode: u32, pressed: bool) -> EffectView {
    EffectView::Key { keycode, pressed }
}

/// The events of a modifier that is needed and found, and none otherwise.
pub open spec fn modifier(needed: bool, found: Option<u32>, pressed: bool) -> Seq<EffectView> {
    match found {
        Some(keycode) if needed => seq![key(keycode, pressed)],
        _ => Seq::empty(),
    }
}

/// Whether the modifiers that a plan needs can be pressed. A character typed
/// without one would come out as the wrong one, which is worse than coming out
/// as nothing.
pub open spec fn pressable(plan: KeyPlan, mods: ModKeys) -> bool {
    (plan.shift ==> mods.shift is Some) && (plan.level3 ==> mods.level3 is Some)
}

/// The key events that carry out a plan.
pub open spec fn strokes(plan: KeyPlan, mods: ModKeys) -> Seq<EffectView> {
    modifier(plan.shift, mods.shift, true) + modifier(plan.level3, mods.level3, true) + seq![
        key(plan.keycode, true),
        key(plan.keycode, false),
    ] + modifier(plan.shift, mods.shift, false) + modifier(plan.level3, mods.level3, false)
}

/// Whether a character can be typed.
pub open spec fn can_type(c: char, plans: Map<u32, KeyPlan>, mods: ModKeys) -> bool {
    plans.contains_key(c as u32) && pressable(plans[c as u32], mods)
}

/// The key events that type what of a text can be typed.
pub open spec fn typed(text: Seq<char>, plans: Map<u32, KeyPlan>, mods: ModKeys) -> Seq<EffectView>
    decreases text.len(),
{
    if text.len() == 0 {
        Seq::empty()
    } else {
        let earlier = typed(text.drop_last(), plans, mods);
        if can_type(text.last(), plans, mods) {
            earlier + strokes(plans[text.last() as u32], mods)
        } else {
            earlier
        }
    }
}

/// What of a text cannot be typed.
pub open spec fn untypable(text: Seq<char>, plans: Map<u32, KeyPlan>, mods: ModKeys) -> Seq<char> {
    text.filter(|c: char| !can_type(c, plans, mods))
}

/// Typing a text on a keymap: the key events, and then a report of what could
/// not be typed, if anything.
pub open spec fn typing(text: Seq<char>, keymap: &Keymap) -> Seq<EffectView> {
    let plans = inverse(keymap);
    let mods = mod_keys(keymap);
    let missing = untypable(text, plans, mods);
    let events = typed(text, plans, mods);
    if missing.len() == 0 {
        events
    } else {
        events.push(EffectView::Untypable(missing))
    }
}

/// Typing a text on the seat's keyboard. Without a keyboard nothing is typed, and
/// that is reported where there was something to type.
pub open spec fn type_text_effects(text: Seq<char>, focus: Focus) -> Seq<EffectView> {
    if text.len() == 0 {
        Seq::empty()
    } else {
        match focus.keyboard {
            Some(keymap) => typing(text, &keymap),
            None => seq![EffectView::NoKeyboard],
        }
    }
}

/// Where the cursor of a preedit goes: at its end, in bytes, which is where a
/// speaker is.
pub open spec fn preedit_end(text: Seq<char>) -> i32 {
    vstd::utf8::encode_utf8(text).len() as usize as i32
}

/// What an [`Injection`] says.
pub enum InjectionView {
    Preedit(Seq<char>),
    Commit(Seq<char>),
}

impl View for Injection {
    type V = InjectionView;

    open spec fn view(&self) -> InjectionView {
        match *self {
            Injection::Preedit(text) => InjectionView::Preedit(text@),
            Injection::Commit(text) => InjectionView::Commit(text@),
        }
    }
}

/// Which route a piece of text takes. An active text-input takes everything;
/// without one settled text is typed, and provisional text is held back rather
/// than typing words that are about to change.
pub open spec fn route(injection: InjectionView, focus: Focus) -> Delivery {
    if focus.text_input {
        Delivery::TextInput
    } else {
        match injection {
            InjectionView::Preedit(_) => Delivery::Withheld,
            InjectionView::Commit(_) => Delivery::Keyboard,
        }
    }
}

/// What sending a piece of text asks for. A commit clears the preedit in the
/// same batch, or the provisional text is left behind alongside the real thing.
pub open spec fn injected(injection: InjectionView, focus: Focus) -> Seq<EffectView> {
    match injection {
        InjectionView::Preedit(text) => if focus.text_input {
            seq![
                EffectView::PreeditString {
                    text: Some(text),
                    cursor_begin: preedit_end(text),
                    cursor_end: preedit_end(text),
                },
                EffectView::Done,
            ]
        } else {
            Seq::empty()
        },
        InjectionView::Commit(text) => if focus.text_input {
            seq![
                EffectView::PreeditString { text: None, cursor_begin: 0, cursor_end: 0 },
                EffectView::CommitString(text),
                EffectView::Done,
            ]
        } else {
            type_text_effects(text, focus)
        },
    }
}

fn press(effects: &mut Vec<Effect>, needed: bool, found: Option<u32>, pressed: bool)
    ensures
        asked(final(effects)@) == asked(old(effects)@) + modifier(needed, found, pressed),
{
    if needed {
        if let Some(keycode) = found {
            ask(effects, Effect::Key { keycode, pressed });
        }
    }
    assert(asked(effects@) =~= asked(old(effects)@) + modifier(needed, found, pressed));
}

fn stroke(effects: &mut Vec<Effect>, plan: KeyPlan, mods: ModKeys)
    ensures
        asked(final(effects)@) == asked(old(effects)@) + strokes(plan, mods),
{
    press(effects, plan.shift, mods.shift, true);
    press(effects, plan.level3, mods.level3, true);
    ask(effects, Effect::Key { keycode: plan.keycode, pressed: true });
    ask(effects, Effect::Key { keycode: plan.keycode, pressed: false });
    press(effects, plan.shift, mods.shift, false);
    press(effects, plan.level3, mods.level3, false);
    assert(asked(effects@) =~= asked(old(effects)@) + strokes(plan, mods));
}

/// Type a text on a keymap.
pub fn type_on(text: &str, keymap: &Keymap, effects: &mut Vec<Effect>)
    requires
        keymap.wf(),
    ensures
        asked(final(effects)@) == asked(old(effects)@) + typing(text@, keymap),
{
    // Build the character map once for the whole string. It is a few hundred
    // lookups, far cheaper than getting cache invalidation wrong when the user
    // switches layout mid-sentence.
    let map = build_char_map(keymap);
    let mods = find_mod_keys(keymap);
    let ghost plans = map@;
    let ghost cannot = |c: char| !can_type(c, plans, mods);

    let length: usize = text.unicode_len();
    let mut missing: String = String::new();
    let mut at: usize = 0;
    assert(text@.take(0) =~= Seq::<char>::empty());
    assert(asked(effects@) =~= asked(old(effects)@) + typed(text@.take(0), plans, mods));
    assert(missing@ =~= text@.take(0).filter(cannot));
    for c in it: text.chars()
        invariant
            it.seq() == text@,
            text@.len() == length,
            at == it.index(),
            plans == map@,
            cannot == (|c: char| !can_type(c, plans, mods)),
            asked(effects@) == asked(old(effects)@) + typed(text@.take(at as int), plans, mods),
            missing@ == text@.take(at as int).filter(cannot),
    {
        assert(text@.take(at + 1).drop_last() =~= text@.take(at as int));
        assert(text@.take(at + 1) =~= text@.take(at as int).push(c));
        proof {
            text@.take(at as int).lemma_filter_push(c, cannot);
        }
        let mut done = false;
        if let Some(plan) = map.get(c) {
            if (!plan.shift || mods.shift.is_some()) && (!plan.level3 || mods.level3.is_some()) {
                stroke(effects, plan, mods);
                assert(can_type(c, plans, mods));
                done = true;
            }
        }
        if !done {
            missing.append(text.substring_char(at, at + 1));
            assert(text@.subrange(at as int, at + 1) =~= seq![c]);
            assert(missing@ =~= text@.take(at + 1).filter(cannot));
        }
        assert(asked(effects@) =~= asked(old(effects)@) + typed(text@.take(at + 1), plans, mods));
        at = at + 1;
    }
    assert(text@.take(at as int) =~= text@);
    if !missing.as_str().is_empty() {
        ask(effects, Effect::Untypable(missing));
    }
    assert(asked(effects@) =~= asked(old(effects)@) + typing(text@, keymap));
}

impl State {
    /// Send text to the focused application, choosing the route it can accept.
    pub fn inject_text(
        &self,
        injection: Injection,
        focus: &Focus,
        effects: &mut Vec<Effect>,
    ) -> (delivery: Delivery)
        requires
            focus.wf(),
        ensures
            delivery == route(injection@, *focus),
            asked(final(effects)@) == asked(old(effects)@) + injected(injection@, *focus),
    {
        let ghost view = injection@;
        if focus.text_input {
            match injection {
                Injection::Preedit(text) => {
                    // Cursor at the end, which is where a speaker is.
                    let end: i32 = text.as_str().len() as i32;
                    ask(
                        effects,
                        Effect::PreeditString {
                            text: Some(text),
                            cursor_begin: end,
                            cursor_end: end,
                        },
                    );
                },
                Injection::Commit(text) => {
                    // Clear the preedit in the same batch as the commit, or the
                    // provisional text is left behind alongside the real thing.
                    ask(
                        effects,
                        Effect::PreeditString { text: None, cursor_begin: 0, cursor_end: 0 },
                    );
                    ask(effects, Effect::CommitString(text));
                },
            }
            ask(effects, Effect::Done);
            assert(asked(effects@) =~= asked(old(effects)@) + injected(view, *focus));
            return Delivery::TextInput;
        }
        match injection {
            // Nothing to revise into, so hold provisional text back rather than
            // type words that are about to change.
            Injection::Preedit(_) => {
                assert(asked(effects@) =~= asked(old(effects)@) + injected(view, *focus));
                Delivery::Withheld
            },
            Injection::Commit(text) => {
                self.type_text(text.as_str(), focus, effects);
                Delivery::Keyboard
            },
        }
    }

    /// Type a string as synthesised key events on the current keymap.
    pub fn type_text(&self, text: &str, focus: &Focus, effects: &mut Vec<Effect>)
        requires
            focus.wf(),
        ensures
            asked(final(effects)@) == asked(old(effects)@) + type_text_effects(text@, *focus),
    {
        if !text.is_empty() {
            match &focus.keyboard {
                Some(keymap) => type_on(text, keymap, effects),
                None => ask(effects, Effect::NoKeyboard),
            }
        }
        assert(asked(effects@) =~= asked(old(effects)@) + type_text_effects(text@, *focus));
    }
}

} // verus!
