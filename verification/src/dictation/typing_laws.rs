//! What holds of typing, on every keymap and for every text.
use vstd::prelude::*;

use crate::dictation::effect::EffectView;
use crate::dictation::injector::{
    can_type, injected, key, modifier, route, strokes, typed, typing, untypable, Delivery, Focus,
    InjectionView,
};
use crate::dictation::keymap::{
    before, first_key, inverse, inverts, law_the_modifier_keys_are_unique, mod_keys, presses_mods,
    reaches_level3, shifts, vendor, KeyPlan, Keymap, ModKeys,
};

verus! {

/// The `n`-th way to press a key, counting keys by keycode and for each of them
/// the combinations, plainest first.
spec fn way(keymap: &Keymap, n: int, c: u32) -> bool {
    0 <= n && keymap.types(
        n / keymap.combos().len() as int,
        n % keymap.combos().len() as int,
        c,
    )
}

proof fn lemma_least(keymap: &Keymap, n: int, c: u32) -> (least: int)
    requires
        way(keymap, n, c),
    ensures
        way(keymap, least, c),
        forall|m: int| #[trigger] way(keymap, m, c) ==> least <= m,
    decreases n,
{
    if exists|m: int| #[trigger] way(keymap, m, c) && m < n {
        let m = choose|m: int| #[trigger] way(keymap, m, c) && m < n;
        lemma_least(keymap, m, c)
    } else {
        n
    }
}

proof fn lemma_first_way(keymap: &Keymap, k: int, j: int, c: u32)
    requires
        keymap.types(k, j, c),
    ensures
        exists|k2: int, j2: int| #[trigger] keymap.first_way(k2, j2, c),
{
    let width = keymap.combos().len() as int;
    assert(width == 1 || width == 2 || width == 4);
    assert(way(keymap, k * width + j, c)) by {
        assert((k * width + j) / width == k && (k * width + j) % width == j) by (nonlinear_arith)
            requires
                0 <= j < width,
                0 <= k,
        ;
    }
    let least = lemma_least(keymap, k * width + j, c);
    let (k1, j1) = (least / width, least % width);
    assert forall|k2: int, j2: int| #[trigger] keymap.types(k2, j2, c) implies before(
        k1,
        j1,
        k2,
        j2,
    ) || (k1 == k2 && j1 == j2) by {
        let n = k2 * width + j2;
        assert(n / width == k2 && n % width == j2) by (nonlinear_arith)
            requires
                n == k2 * width + j2,
                0 <= j2 < width,
                0 <= k2,
        ;
        assert(way(keymap, n, c));
        assert(k1 < k2 || (k1 == k2 && j1 <= j2)) by (nonlinear_arith)
            requires
                least <= k2 * width + j2,
                k1 == least / width,
                j1 == least % width,
                0 <= least,
                0 <= j2 < width,
        ;
    }
    assert(keymap.first_way(k1, j1, c));
}

/// Every keymap has an inverse: it can be asked for any character which key types
/// it, and the answer is one.
pub proof fn law_every_keymap_has_an_inverse(keymap: &Keymap)
    ensures
        inverts(keymap, inverse(keymap)),
{
    let plans = Map::new(
        |c: u32| exists|k: int, j: int| #[trigger] keymap.types(k, j, c),
        |c: u32|
            {
                let (k, j) = choose|k: int, j: int| #[trigger] keymap.first_way(k, j, c);
                keymap.plan(k, j)
            },
    );
    assert forall|c: u32| #[trigger] plans.contains_key(c) implies exists|k: int, j: int| #[trigger]
        keymap.first_way(k, j, c) && plans[c] == keymap.plan(k, j) by {
        let (k, j) = choose|k: int, j: int| #[trigger] keymap.types(k, j, c);
        lemma_first_way(keymap, k, j, c);
        let (k1, j1) = choose|k: int, j: int| #[trigger] keymap.first_way(k, j, c);
        assert(keymap.first_way(k1, j1, c) && plans[c] == keymap.plan(k1, j1));
    }
    assert(inverts(keymap, plans));
}

/// A character is typed by a key that produces it: where a keymap has a plan for
/// it, pressing the plan's key with the plan's modifiers held types just that
/// character, and a keymap that can type it has a plan.
pub proof fn law_plans_type_their_character(keymap: &Keymap, c: u32)
    ensures
        inverse(keymap).contains_key(c) == exists|k: int, j: int| #[trigger] keymap.types(k, j, c),
        inverse(keymap).contains_key(c) ==> exists|k: int, j: int| #[trigger]
            keymap.types(k, j, c) && inverse(keymap)[c] == keymap.plan(k, j),
{
    law_every_keymap_has_an_inverse(keymap);
    let plans = inverse(keymap);
    if plans.contains_key(c) {
        let (k, j) = choose|k: int, j: int| #[trigger]
            keymap.first_way(k, j, c) && plans[c] == keymap.plan(k, j);
        assert(keymap.types(k, j, c) && plans[c] == keymap.plan(k, j));
    }
}

/// Return types newlines: a text key that produces a carriage return or a line
/// feed makes a newline typeable, and the first way to do that is the way taken.
pub proof fn law_return_types_newlines(keymap: &Keymap, k: int, j: int)
    requires
        0 <= k < keymap.keys@.len(),
        0 <= j < keymap.combos().len(),
        !vendor(keymap.keys@[k].syms@),
        keymap.keys@[k].produces@[j] == 0x0d || keymap.keys@[k].produces@[j] == 0x0a,
    ensures
        inverse(keymap).contains_key('\n' as u32),
        (forall|k2: int, j2: int| #[trigger]
            keymap.types(k2, j2, '\n' as u32) ==> before(k, j, k2, j2) || (k == k2 && j == j2))
            ==> inverse(keymap)['\n' as u32] == keymap.plan(k, j),
{
    assert(keymap.types(k, j, '\n' as u32));
    law_every_keymap_has_an_inverse(keymap);
    let plans = inverse(keymap);
    assert(plans.contains_key('\n' as u32));
    let (k1, j1) = choose|k: int, j: int| #[trigger]
        keymap.first_way(k, j, '\n' as u32) && plans['\n' as u32] == keymap.plan(k, j);
    assert(keymap.types(k1, j1, '\n' as u32));
}

/// How often a key is down after some events, less how often it is up.
pub open spec fn held(events: Seq<EffectView>, keycode: u32) -> int
    decreases events.len(),
{
    if events.len() == 0 {
        0
    } else {
        held(events.drop_last(), keycode) + if events.last() == key(keycode, true) {
            1int
        } else if events.last() == key(keycode, false) {
            -1int
        } else {
            0int
        }
    }
}

proof fn lemma_held_of_both(events: Seq<EffectView>, more: Seq<EffectView>, keycode: u32)
    ensures
        held(events + more, keycode) == held(events, keycode) + held(more, keycode),
    decreases more.len(),
{
    if more.len() == 0 {
        assert(events + more =~= events);
    } else {
        assert((events + more).drop_last() =~= events + more.drop_last());
        lemma_held_of_both(events, more.drop_last(), keycode);
    }
}

/// Whether, starting with nothing down, no event lets a key up that is not down,
/// and everything is up in the end.
pub open spec fn balanced(events: Seq<EffectView>, keycode: u32) -> bool {
    &&& held(events, keycode) == 0
    &&& forall|n: int| 0 <= n <= events.len() ==> held(#[trigger] events.take(n), keycode) >= 0
}

proof fn lemma_balanced_of_both(events: Seq<EffectView>, more: Seq<EffectView>, keycode: u32)
    requires
        balanced(events, keycode),
        balanced(more, keycode),
    ensures
        balanced(events + more, keycode),
{
    lemma_held_of_both(events, more, keycode);
    assert forall|n: int| 0 <= n <= (events + more).len() implies held(
        #[trigger] (events + more).take(n),
        keycode,
    ) >= 0 by {
        if n <= events.len() {
            assert((events + more).take(n) =~= events.take(n));
        } else {
            let rest = more.take(n - events.len());
            assert((events + more).take(n) =~= events + rest);
            lemma_held_of_both(events, rest, keycode);
        }
    }
}

/// Balanced events between a press and a release of one key.
proof fn lemma_balanced_inside(
    before: Seq<EffectView>,
    inner: Seq<EffectView>,
    after: Seq<EffectView>,
    keycode: u32,
)
    requires
        balanced(inner, keycode),
        forall|n: int| 0 <= n <= before.len() ==> held(#[trigger] before.take(n), keycode) >= 0,
        forall|n: int|
            0 <= n <= after.len() ==> held(before, keycode) + held(
                #[trigger] after.take(n),
                keycode,
            ) >= 0,
        held(before, keycode) + held(after, keycode) == 0,
    ensures
        balanced(before + inner + after, keycode),
{
    let events = before + inner + after;
    lemma_held_of_both(before, inner, keycode);
    lemma_held_of_both(before + inner, after, keycode);
    assert(before.take(before.len() as int) =~= before);
    assert forall|n: int| 0 <= n <= events.len() implies held(
        #[trigger] events.take(n),
        keycode,
    ) >= 0 by {
        if n <= before.len() {
            assert(events.take(n) =~= before.take(n));
        } else if n <= before.len() + inner.len() {
            let part = inner.take(n - before.len());
            assert(events.take(n) =~= before + part);
            lemma_held_of_both(before, part, keycode);
        } else {
            let part = after.take(n - before.len() - inner.len());
            assert(events.take(n) =~= before + inner + part);
            lemma_held_of_both(before + inner, part, keycode);
        }
    }
}

/// A single event, or none.
proof fn lemma_held_of_modifier(needed: bool, found: Option<u32>, keycode: u32)
    ensures
        held(modifier(needed, found, true), keycode) + held(
            modifier(needed, found, false),
            keycode,
        ) == 0,
        held(modifier(needed, found, true), keycode) >= 0,
        modifier(needed, found, true).len() <= 1,
        modifier(needed, found, false).len() <= 1,
{
    reveal_with_fuel(held, 2);
}

proof fn lemma_strokes_are_balanced(plan: KeyPlan, mods: ModKeys, keycode: u32)
    ensures
        balanced(strokes(plan, mods), keycode),
{
    reveal_with_fuel(held, 3);
    let shift_down = modifier(plan.shift, mods.shift, true);
    let level3_down = modifier(plan.level3, mods.level3, true);
    let shift_up = modifier(plan.shift, mods.shift, false);
    let level3_up = modifier(plan.level3, mods.level3, false);
    let tap = seq![key(plan.keycode, true), key(plan.keycode, false)];
    lemma_held_of_modifier(plan.shift, mods.shift, keycode);
    lemma_held_of_modifier(plan.level3, mods.level3, keycode);

    assert(balanced(tap, keycode)) by {
        assert(tap.take(0) =~= Seq::<EffectView>::empty());
        assert(tap.take(1) =~= seq![key(plan.keycode, true)]);
        assert(tap.take(2) =~= tap);
        assert(tap.drop_last() =~= seq![key(plan.keycode, true)]);
        assert(seq![key(plan.keycode, true)].drop_last() =~= Seq::<EffectView>::empty());
    }
    let downs = shift_down + level3_down;
    let ups = shift_up + level3_up;
    lemma_held_of_both(shift_down, level3_down, keycode);
    lemma_held_of_both(shift_up, level3_up, keycode);
    assert forall|n: int| 0 <= n <= downs.len() implies held(#[trigger] downs.take(n), keycode)
        >= 0 by {
        if n == 0 {
            assert(downs.take(n) =~= Seq::<EffectView>::empty());
        } else if n == downs.len() {
            assert(downs.take(n) =~= downs);
        } else {
            assert(downs.take(n) =~= shift_down);
        }
    }
    assert forall|n: int| 0 <= n <= ups.len() implies held(downs, keycode) + held(
        #[trigger] ups.take(n),
        keycode,
    ) >= 0 by {
        if n == 0 {
            assert(ups.take(n) =~= Seq::<EffectView>::empty());
        } else if n == ups.len() {
            assert(ups.take(n) =~= ups);
        } else {
            assert(ups.take(n) =~= shift_up);
        }
    }
    lemma_balanced_inside(downs, tap, ups, keycode);
    assert(strokes(plan, mods) =~= downs + tap + ups);
}

proof fn lemma_typed_is_balanced(
    text: Seq<char>,
    plans: Map<u32, KeyPlan>,
    mods: ModKeys,
    keycode: u32,
)
    ensures
        balanced(typed(text, plans, mods), keycode),
    decreases text.len(),
{
    if text.len() == 0 {
        assert(Seq::<EffectView>::empty().take(0) =~= Seq::<EffectView>::empty());
    } else {
        lemma_typed_is_balanced(text.drop_last(), plans, mods, keycode);
        if can_type(text.last(), plans, mods) {
            let plan = plans[text.last() as u32];
            lemma_strokes_are_balanced(plan, mods, keycode);
            lemma_balanced_of_both(
                typed(text.drop_last(), plans, mods),
                strokes(plan, mods),
                keycode,
            );
        }
    }
}

/// No key is left down: typing a text lets up every key as often as it presses
/// it, and never before.
pub proof fn law_no_key_is_left_down(text: Seq<char>, keymap: &Keymap, keycode: u32)
    ensures
        balanced(typing(text, keymap), keycode),
{
    let plans = inverse(keymap);
    let mods = mod_keys(keymap);
    lemma_typed_is_balanced(text, plans, mods, keycode);
    let missing = untypable(text, plans, mods);
    if missing.len() > 0 {
        let report = seq![EffectView::Untypable(missing)];
        reveal_with_fuel(held, 2);
        assert(balanced(report, keycode)) by {
            assert(report.take(0) =~= Seq::<EffectView>::empty());
            assert(report.take(1) =~= report);
            assert(report.drop_last() =~= Seq::<EffectView>::empty());
        }
        lemma_balanced_of_both(typed(text, plans, mods), report, keycode);
        assert(typing(text, keymap) =~= typed(text, plans, mods) + report);
    }
}

/// Typing is append-only: the events of a longer text are those of its beginning
/// and then those of the rest. What has been typed is never taken back.
pub proof fn law_typing_is_append_only(
    text: Seq<char>,
    more: Seq<char>,
    plans: Map<u32, KeyPlan>,
    mods: ModKeys,
)
    ensures
        typed(text + more, plans, mods) == typed(text, plans, mods) + typed(more, plans, mods),
    decreases more.len(),
{
    if more.len() == 0 {
        assert(text + more =~= text);
        assert(typed(text, plans, mods) + Seq::<EffectView>::empty() =~= typed(text, plans, mods));
    } else {
        assert((text + more).drop_last() =~= text + more.drop_last());
        law_typing_is_append_only(text, more.drop_last(), plans, mods);
        if can_type(more.last(), plans, mods) {
            let last = strokes(plans[more.last() as u32], mods);
            assert(typed(text, plans, mods) + typed(more.drop_last(), plans, mods) + last
                =~= typed(text, plans, mods) + (typed(more.drop_last(), plans, mods) + last));
        }
    }
}

/// No character is lost without a word: each is typed, with the events that its
/// plan takes, or it is reported.
pub proof fn law_every_character_is_typed_or_reported(
    text: Seq<char>,
    plans: Map<u32, KeyPlan>,
    mods: ModKeys,
    i: int,
)
    requires
        0 <= i < text.len(),
    ensures
        if can_type(text[i], plans, mods) {
            typed(text, plans, mods) == typed(text.take(i), plans, mods) + strokes(
                plans[text[i] as u32],
                mods,
            ) + typed(text.skip(i + 1), plans, mods)
        } else {
            untypable(text, plans, mods).contains(text[i])
        },
{
    let cannot = |c: char| !can_type(c, plans, mods);
    if can_type(text[i], plans, mods) {
        let one = text.take(i + 1);
        assert(one.drop_last() =~= text.take(i));
        assert(text =~= one + text.skip(i + 1));
        law_typing_is_append_only(one, text.skip(i + 1), plans, mods);
    } else {
        text.lemma_filter_contains(cannot, i);
    }
}

/// Whether a key, with a combination of modifiers held, gives a character: it is
/// no vendor key, the keymap has the character there, or for a newline the carriage
/// return of Return, and the character is no control character but newline or tab.
pub open spec fn yields(keymap: &Keymap, k: int, j: int, c: char) -> bool {
    &&& 0 <= k < keymap.keys@.len()
    &&& 0 <= j < keymap.keys@[k].produces@.len()
    &&& forall|i: int|
        0 <= i < keymap.keys@[k].syms@.len() ==> !(0x1008_0000 <= #[trigger] keymap.keys@[k].syms@[i]
            <= 0x1008_ffff)
    &&& keymap.keys@[k].produces@[j] == c as u32 || (c == '\n' && keymap.keys@[k].produces@[j]
        == 0x0d)
    &&& c == '\n' || c == '\t' || (0x20 <= c as u32 && !(0x7f <= c as u32 <= 0x9f))
}

/// Whether the `j`-th combination holds shift.
pub open spec fn with_shift(keymap: &Keymap, j: int) -> bool {
    keymap.shift_mask != 0 && (j == 1 || j == 3)
}

/// Whether the `j`-th combination holds the key to the third level.
pub open spec fn with_level3(keymap: &Keymap, j: int) -> bool {
    if keymap.shift_mask != 0 {
        keymap.level3_mask != 0 && j >= 2
    } else {
        keymap.level3_mask != 0 && j == 1
    }
}

/// Whether `found` is the lowest keycode with one of two keysyms, or nothing where
/// no key has one.
pub open spec fn lowest_with(keymap: &Keymap, a: u32, b: u32, found: Option<u32>) -> bool {
    match found {
        Some(keycode) => exists|m: int|
            {
                &&& 0 <= m < keymap.keys@.len()
                &&& keycode == keymap.min_keycode + m
                &&& (#[trigger] keymap.keys@[m]).syms@.contains(a) || keymap.keys@[m].syms@.contains(
                    b,
                )
                &&& forall|m2: int|
                    0 <= m2 < m ==> !(#[trigger] keymap.keys@[m2]).syms@.contains(a)
                        && !keymap.keys@[m2].syms@.contains(b)
            },
        None => forall|m: int|
            0 <= m < keymap.keys@.len() ==> !(#[trigger] keymap.keys@[m]).syms@.contains(a)
                && !keymap.keys@[m].syms@.contains(b),
    }
}

/// The combinations go from the plainest up, each with the mask of what it holds.
pub proof fn law_combinations_hold_their_modifiers(keymap: &Keymap, j: int)
    ensures
        keymap.combos().len() == (if keymap.shift_mask != 0 {
            2int
        } else {
            1int
        }) * (if keymap.level3_mask != 0 {
            2int
        } else {
            1int
        }),
        0 <= j < keymap.combos().len() ==> {
            &&& keymap.combos()[j].shift == with_shift(keymap, j)
            &&& keymap.combos()[j].level3 == with_level3(keymap, j)
            &&& keymap.combos()[j].mask == (if with_shift(keymap, j) && with_level3(keymap, j) {
                keymap.shift_mask | keymap.level3_mask
            } else if with_shift(keymap, j) {
                keymap.shift_mask
            } else if with_level3(keymap, j) {
                keymap.level3_mask
            } else {
                0
            })
        },
{
}

proof fn lemma_yields(keymap: &Keymap, k: int, j: int, c: char)
    requires
        keymap.wf(),
    ensures
        yields(keymap, k, j, c) == keymap.types(k, j, c as u32),
{
    vstd::utf8::char_is_scalar(c);
    if 0 <= k < keymap.keys@.len() {
        assert(keymap.keys@[k].produces@.len() == keymap.combos().len());
    }
}

/// The modifier keys are the lowest with one of the keysyms that press them.
pub proof fn law_the_modifier_keys_by_their_keysyms(
    keymap: &Keymap,
    s: Option<u32>,
    l: Option<u32>,
)
    requires
        keymap.wf(),
        lowest_with(keymap, 0xffe1, 0xffe2, s),
        lowest_with(keymap, 0xfe03, 0xff7e, l),
    ensures
        mod_keys(keymap) == (ModKeys { shift: s, level3: l }),
{
    let presses_shift = |syms: Seq<u32>| shifts(syms);
    let presses_level3 = |syms: Seq<u32>| reaches_level3(syms);
    assert(first_key(keymap, presses_shift, s)) by {
        if let Some(keycode) = s {
            let m = choose|m: int|
                {
                    &&& 0 <= m < keymap.keys@.len()
                    &&& keycode == keymap.min_keycode + m
                    &&& (#[trigger] keymap.keys@[m]).syms@.contains(0xffe1)
                        || keymap.keys@[m].syms@.contains(0xffe2)
                    &&& forall|m2: int|
                        0 <= m2 < m ==> !(#[trigger] keymap.keys@[m2]).syms@.contains(0xffe1)
                            && !keymap.keys@[m2].syms@.contains(0xffe2)
                };
            assert(presses_shift(keymap.keys@[m].syms@));
        }
    }
    assert(first_key(keymap, presses_level3, l)) by {
        if let Some(keycode) = l {
            let m = choose|m: int|
                {
                    &&& 0 <= m < keymap.keys@.len()
                    &&& keycode == keymap.min_keycode + m
                    &&& (#[trigger] keymap.keys@[m]).syms@.contains(0xfe03)
                        || keymap.keys@[m].syms@.contains(0xff7e)
                    &&& forall|m2: int|
                        0 <= m2 < m ==> !(#[trigger] keymap.keys@[m2]).syms@.contains(0xfe03)
                            && !keymap.keys@[m2].syms@.contains(0xff7e)
                };
            assert(presses_level3(keymap.keys@[m].syms@));
        }
    }
    let given = ModKeys { shift: s, level3: l };
    assert(presses_mods(keymap, given));
    law_the_modifier_keys_are_unique(keymap, given, mod_keys(keymap));
}

/// The plans of a keymap: a character has one if and only if some key gives it, and it
/// is that of the first such key and of its plainest such combination.
pub proof fn law_plans_by_what_keys_give(
    keymap: &Keymap,
    plans: Map<u32, KeyPlan>,
    c: char,
    k: int,
    j: int,
)
    requires
        keymap.wf(),
        inverts(keymap, plans),
    ensures
        plans.contains_key(c as u32) <==> exists|k2: int, j2: int| #[trigger]
            yields(keymap, k2, j2, c),
        yields(keymap, k, j, c) && (forall|k2: int, j2: int| #[trigger]
            yields(keymap, k2, j2, c) ==> k < k2 || (k == k2 && j <= j2)) ==> plans[c as u32] == (
        KeyPlan {
            keycode: (keymap.min_keycode + k) as u32,
            shift: with_shift(keymap, j),
            level3: with_level3(keymap, j),
        }),
{
    if plans.contains_key(c as u32) {
        let (k1, j1) = choose|k1: int, j1: int| #[trigger]
            keymap.first_way(k1, j1, c as u32) && plans[c as u32] == keymap.plan(k1, j1);
        assert(keymap.types(k1, j1, c as u32));
        lemma_yields(keymap, k1, j1, c);
        assert(yields(keymap, k1, j1, c));
        if yields(keymap, k, j, c) {
            lemma_yields(keymap, k, j, c);
            law_combinations_hold_their_modifiers(keymap, j);
        }
    } else if exists|k2: int, j2: int| #[trigger] yields(keymap, k2, j2, c) {
        let (k2, j2) = choose|k2: int, j2: int| #[trigger] yields(keymap, k2, j2, c);
        lemma_yields(keymap, k2, j2, c);
        assert(keymap.types(k2, j2, c as u32));
    }
    if yields(keymap, k, j, c) {
        lemma_yields(keymap, k, j, c);
        assert(keymap.types(k, j, c as u32));
    }
}

/// What is asked of a keymap and of a focus, and no more: that the keycodes fit their
/// type and that each key says what it gives with each combination.
pub proof fn law_what_is_asked_of_a_focus(focus: Focus, keymap: Keymap)
    ensures
        keymap.wf() <==> {
            &&& keymap.min_keycode + keymap.keys@.len() <= 0x1_0000_0000
            &&& forall|k: int|
                0 <= k < keymap.keys@.len() ==> (#[trigger] keymap.keys@[k]).produces@.len() == (
                if keymap.shift_mask != 0 {
                    2int
                } else {
                    1int
                }) * (if keymap.level3_mask != 0 {
                    2int
                } else {
                    1int
                })
        },
        focus.keyboard is None ==> focus.wf(),
        focus.keyboard matches Some(map) ==> focus.wf() == map.wf(),
{
    law_combinations_hold_their_modifiers(&keymap, 0);
}

/// A vendor key is one with a keysym between 0x10080000 and 0x1008ffff.
pub proof fn law_vendor_keys_by_their_keysyms(syms: Seq<u32>)
    ensures
        vendor(syms) <==> exists|i: int|
            0 <= i < syms.len() && (#[trigger] syms[i]) / 0x1_0000 == 0x1008,
{
    if vendor(syms) {
        let i = choose|i: int|
            0 <= i < syms.len() && 0x1008_0000 <= #[trigger] syms[i] <= 0x1008_ffff;
        assert(syms[i] / 0x1_0000 == 0x1008);
    }
}

/// What of typing goes to the keyboard.
pub open spec fn events_of(effects: Seq<EffectView>) -> Seq<EffectView> {
    if effects.len() > 0 && effects.last() is Untypable {
        effects.drop_last()
    } else {
        effects
    }
}

/// The characters that typing reports.
pub open spec fn report_of(effects: Seq<EffectView>) -> Seq<char> {
    if effects.len() > 0 {
        match effects.last() {
            EffectView::Untypable(missing) => missing,
            _ => Seq::empty(),
        }
    } else {
        Seq::empty()
    }
}

proof fn lemma_typed_is_keys(text: Seq<char>, plans: Map<u32, KeyPlan>, mods: ModKeys, i: int)
    requires
        0 <= i < typed(text, plans, mods).len(),
    ensures
        typed(text, plans, mods)[i] is Key,
    decreases text.len(),
{
    if text.len() > 0 {
        if i < typed(text.drop_last(), plans, mods).len() {
            lemma_typed_is_keys(text.drop_last(), plans, mods, i);
        }
    }
}

proof fn lemma_parts_of_typing(text: Seq<char>, keymap: &Keymap)
    ensures
        events_of(typing(text, keymap)) == typed(text, inverse(keymap), mod_keys(keymap)),
        report_of(typing(text, keymap)) == untypable(text, inverse(keymap), mod_keys(keymap)),
{
    let events = typed(text, inverse(keymap), mod_keys(keymap));
    let missing = untypable(text, inverse(keymap), mod_keys(keymap));
    if events.len() > 0 {
        lemma_typed_is_keys(text, inverse(keymap), mod_keys(keymap), events.len() - 1);
    }
    if missing.len() == 0 {
        assert(missing =~= Seq::empty());
    } else {
        assert(events.push(EffectView::Untypable(missing)).drop_last() =~= events);
    }
}

/// A text is typed character by character, and what cannot be typed is reported in
/// one go at the end: nothing else is asked for, and the events and the report of
/// two texts in a row are those of the one and then those of the other.
pub proof fn law_text_is_typed_character_by_character(
    text: Seq<char>,
    more: Seq<char>,
    keymap: &Keymap,
)
    ensures
        events_of(typing(text + more, keymap)) == events_of(typing(text, keymap)) + events_of(
            typing(more, keymap),
        ),
        report_of(typing(text + more, keymap)) == report_of(typing(text, keymap)) + report_of(
            typing(more, keymap),
        ),
        forall|i: int|
            #![trigger typing(text, keymap)[i]]
            0 <= i < typing(text, keymap).len() ==> typing(text, keymap)[i] is Key || (i
                == typing(text, keymap).len() - 1 && report_of(typing(text, keymap)).len() > 0),
        text.len() == 0 ==> typing(text, keymap).len() == 0,
{
    let plans = inverse(keymap);
    let mods = mod_keys(keymap);
    lemma_parts_of_typing(text, keymap);
    lemma_parts_of_typing(more, keymap);
    lemma_parts_of_typing(text + more, keymap);
    law_typing_is_append_only(text, more, plans, mods);
    Seq::filter_distributes_over_add(text, more, |c: char| !can_type(c, plans, mods));
    let effects = typing(text, keymap);
    assert forall|i: int|
        #![trigger effects[i]]
        0 <= i < effects.len() implies effects[i] is Key || (i == effects.len() - 1 && report_of(
        effects,
    ).len() > 0) by {
        if i < typed(text, plans, mods).len() {
            lemma_typed_is_keys(text, plans, mods, i);
        }
    }
    if text.len() == 0 {
        reveal(Seq::filter);
        assert(untypable(text, plans, mods).len() == 0);
    }
}

/// One, where something holds.
pub open spec fn one_if(yes: bool) -> int {
    if yes {
        1
    } else {
        0
    }
}

/// A character comes out as itself. It is typed by the first way the keymap has for
/// it, by keycode and then by combination: when its key goes down, the keys held are
/// those of that combination and no others, and afterwards all of them are let go.
/// Where one of them is not on the keyboard, nothing is pressed and the character is
/// reported.
pub proof fn law_a_character_comes_out_as_itself(
    keymap: &Keymap,
    c: char,
    k: int,
    j: int,
    s: Option<u32>,
    l: Option<u32>,
)
    requires
        keymap.wf(),
        yields(keymap, k, j, c),
        forall|k2: int, j2: int| #[trigger]
            yields(keymap, k2, j2, c) ==> k < k2 || (k == k2 && j <= j2),
        lowest_with(keymap, 0xffe1, 0xffe2, s),
        lowest_with(keymap, 0xfe03, 0xff7e, l),
    ensures
        ({
            let events = typing(seq![c], keymap);
            let shift = with_shift(keymap, j);
            let level3 = with_level3(keymap, j);
            let down = one_if(shift) + one_if(level3);
            if (shift ==> s is Some) && (level3 ==> l is Some) {
                &&& events.len() == 2 * down + 2
                // The key, with just the modifiers of its combination held.
                &&& events[down] == (EffectView::Key {
                    keycode: (keymap.min_keycode + k) as u32,
                    pressed: true,
                })
                &&& events[down + 1] == (EffectView::Key {
                    keycode: (keymap.min_keycode + k) as u32,
                    pressed: false,
                })
                &&& forall|m: u32| #[trigger]
                    held(events.take(down), m) == one_if(shift && s == Some(m)) + one_if(
                        level3 && l == Some(m),
                    )
                &&& forall|m: u32| #[trigger] held(events, m) == 0
                // Shift first, both on the way down and on the way up.
                &&& shift ==> events[0] == (EffectView::Key { keycode: s.unwrap(), pressed: true })
                    && events[down + 2] == (EffectView::Key { keycode: s.unwrap(), pressed: false })
                &&& level3 ==> events[down - 1] == (EffectView::Key {
                    keycode: l.unwrap(),
                    pressed: true,
                }) && events.last() == (EffectView::Key { keycode: l.unwrap(), pressed: false })
            } else {
                events == seq![EffectView::Untypable(seq![c])]
            }
        }),
{
    let plans = inverse(keymap);
    let mods = mod_keys(keymap);
    law_the_modifier_keys_by_their_keysyms(keymap, s, l);
    law_every_keymap_has_an_inverse(keymap);
    law_combinations_hold_their_modifiers(keymap, j);
    lemma_yields(keymap, k, j, c);
    assert(plans.contains_key(c as u32));
    let (k1, j1) = choose|k1: int, j1: int| #[trigger]
        keymap.first_way(k1, j1, c as u32) && plans[c as u32] == keymap.plan(k1, j1);
    lemma_yields(keymap, k1, j1, c);
    assert(yields(keymap, k1, j1, c));
    assert(keymap.types(k, j, c as u32));
    assert(k1 == k && j1 == j);
    let plan = plans[c as u32];
    let text = seq![c];
    assert(text.drop_last() =~= Seq::<char>::empty());
    reveal_with_fuel(typed, 2);
    reveal(Seq::filter);
    let cannot = |c: char| !can_type(c, plans, mods);
    assert(Seq::<char>::empty().push(c) =~= text);
    Seq::<char>::empty().lemma_filter_push(c, cannot);
    assert(Seq::<char>::empty().filter(cannot) =~= Seq::empty());
    let events = typing(text, keymap);
    if can_type(c, plans, mods) {
        assert(untypable(text, plans, mods).len() == 0);
        assert(events =~= strokes(plan, mods));
        let down = one_if(plan.shift) + one_if(plan.level3);
        let downs = modifier(plan.shift, mods.shift, true) + modifier(
            plan.level3,
            mods.level3,
            true,
        );
        assert(events.take(down) =~= downs);
        assert forall|m: u32| #[trigger]
            held(events.take(down), m) == one_if(plan.shift && s == Some(m)) + one_if(
                plan.level3 && l == Some(m),
            ) by {
            reveal_with_fuel(held, 2);
            lemma_held_of_both(
                modifier(plan.shift, mods.shift, true),
                modifier(plan.level3, mods.level3, true),
                m,
            );
        }
        assert forall|m: u32| #[trigger] held(events, m) == 0 by {
            lemma_strokes_are_balanced(plan, mods, m);
        }
    } else {
        assert(untypable(text, plans, mods) =~= text);
        assert(events =~= seq![EffectView::Untypable(text)]);
    }
}

/// A character that no key gives is reported, and no key is pressed for it.
pub proof fn law_a_character_without_a_key_is_reported(keymap: &Keymap, c: char)
    requires
        keymap.wf(),
        forall|k: int, j: int| !#[trigger] yields(keymap, k, j, c),
    ensures
        typing(seq![c], keymap) == seq![EffectView::Untypable(seq![c])],
{
    let plans = inverse(keymap);
    let mods = mod_keys(keymap);
    law_plans_type_their_character(keymap, c as u32);
    if plans.contains_key(c as u32) {
        let (k, j) = choose|k: int, j: int| #[trigger] keymap.types(k, j, c as u32);
        lemma_yields(keymap, k, j, c);
        assert(yields(keymap, k, j, c));
    }
    let text = seq![c];
    assert(text.drop_last() =~= Seq::<char>::empty());
    reveal_with_fuel(typed, 2);
    reveal(Seq::filter);
    let cannot = |c: char| !can_type(c, plans, mods);
    assert(Seq::<char>::empty().push(c) =~= text);
    Seq::<char>::empty().lemma_filter_push(c, cannot);
    assert(Seq::<char>::empty().filter(cannot) =~= Seq::empty());
    assert(untypable(text, plans, mods) =~= text);
    assert(typing(text, keymap) =~= seq![EffectView::Untypable(text)]);
}

/// Settled text without a text-input goes to the keyboard and nowhere else, and
/// provisional text nowhere. With a text-input nothing is typed.
pub proof fn law_text_takes_one_route(text: Seq<char>, focus: Focus)
    ensures
        ({
            let commit = injected(InjectionView::Commit(text), focus);
            let guess = injected(InjectionView::Preedit(text), focus);
            let bytes = vstd::utf8::encode_utf8(text).len();
            if focus.text_input {
                &&& route(InjectionView::Commit(text), focus) == Delivery::TextInput
                &&& route(InjectionView::Preedit(text), focus) == Delivery::TextInput
                &&& commit == seq![
                    EffectView::PreeditString { text: None, cursor_begin: 0, cursor_end: 0 },
                    EffectView::CommitString(text),
                    EffectView::Done,
                ]
                // The cursor goes to the end.
                &&& guess == seq![
                    EffectView::PreeditString {
                        text: Some(text),
                        cursor_begin: bytes as usize as i32,
                        cursor_end: bytes as usize as i32,
                    },
                    EffectView::Done,
                ]
                &&& bytes <= i32::MAX ==> bytes as usize as i32 == bytes
            } else {
                &&& route(InjectionView::Commit(text), focus) == Delivery::Keyboard
                &&& route(InjectionView::Preedit(text), focus) == Delivery::Withheld
                &&& guess.len() == 0
                &&& commit == (match focus.keyboard {
                    Some(keymap) => typing(text, &keymap),
                    None => if text.len() == 0 {
                        Seq::empty()
                    } else {
                        seq![EffectView::NoKeyboard]
                    },
                })
            }
        }),
{
    if let Some(keymap) = focus.keyboard {
        law_text_is_typed_character_by_character(text, Seq::empty(), &keymap);
        if text.len() == 0 {
            assert(typing(text, &keymap) =~= Seq::empty());
        }
    }
}

} // verus!
