use niri_dictation::dictation::effect::Effect;
use niri_dictation::dictation::injector::type_on;
use niri_dictation::dictation::keymap::{
    build_char_map, combinations, find_mod_keys, is_vendor_key, mod_mask, CharMap, Combination,
    Key, KeyPlan, Keymap, KEY_ISO_LEVEL3_SHIFT, KEY_MODE_SWITCH, KEY_SHIFT_L, KEY_SHIFT_R,
    MOD_INVALID,
};

/// The smallest keycode of an evdev keymap, and one past that of its last key.
const FIRST: u32 = 8;
const END: u32 = 256;

const SHIFT_MASK: u32 = 1 << 0;
const MOD5_MASK: u32 = 1 << 7;

/// A keymap without keys, with Shift and Mod5.
fn blank() -> Keymap {
    let key = Key {
        syms: Vec::new(),
        produces: vec![0; 4],
    };
    Keymap {
        min_keycode: FIRST,
        keys: vec![key; (END - FIRST) as usize],
        shift_mask: SHIFT_MASK,
        level3_mask: MOD5_MASK,
    }
}

/// A key with a character on each of two levels.
fn two_levels(keymap: &mut Keymap, keycode: u32, plain: char, shifted: char) {
    keymap.keys[(keycode - FIRST) as usize] = Key {
        syms: vec![plain as u32],
        produces: vec![
            plain as u32,
            shifted as u32,
            plain as u32,
            shifted as u32,
        ],
    };
}

/// A row of keys with characters on two levels.
fn row(keymap: &mut Keymap, first: u32, plain: &str, shifted: &str) {
    for (i, (a, b)) in plain.chars().zip(shifted.chars()).enumerate() {
        two_levels(keymap, first + i as u32, a, b);
    }
}

/// A key with a keysym that produces a code point whatever is held.
fn special(keymap: &mut Keymap, keycode: u32, sym: u32, produces: u32) {
    keymap.keys[(keycode - FIRST) as usize] = Key {
        syms: vec![sym],
        produces: vec![produces; 4],
    };
}

/// What the main block of every layout has, and the keys beyond it.
fn pc(keymap: &mut Keymap) {
    special(keymap, 9, 0xff1b, 0x1b);
    special(keymap, 22, 0xff08, 0x08);
    special(keymap, 23, 0xff09, 0x09);
    special(keymap, 36, 0xff0d, 0x0d);
    special(keymap, 50, KEY_SHIFT_L, 0);
    special(keymap, 62, KEY_SHIFT_R, 0);
    special(keymap, 65, 0x20, 0x20);
    special(keymap, 92, KEY_ISO_LEVEL3_SHIFT, 0);
    special(keymap, 109, 0xff0a, 0x0a);
    special(keymap, 203, KEY_MODE_SWITCH, 0);
    // XF86AudioMute, and a media key that looks as if it typed a number sign.
    special(keymap, 121, 0x1008_ff12, 0);
    special(keymap, 250, 0x1008_120b, '#' as u32);
}

fn keymap_for(layout: &str) -> Keymap {
    let mut keymap = blank();
    pc(&mut keymap);
    match layout {
        "us" => {
            row(&mut keymap, 10, "1234567890-=", "!@#$%^&*()_+");
            row(&mut keymap, 24, "qwertyuiop[]", "QWERTYUIOP{}");
            row(&mut keymap, 38, "asdfghjkl;'`", "ASDFGHJKL:\"~");
            row(&mut keymap, 51, "\\zxcvbnm,./", "|ZXCVBNM<>?");
        }
        "de" => {
            row(&mut keymap, 10, "1234567890\u{df}", "!\"\u{a7}$%&/()=?");
            row(
                &mut keymap,
                24,
                "qwertzuiop\u{fc}+",
                "QWERTZUIOP\u{dc}*",
            );
            row(
                &mut keymap,
                38,
                "asdfghjkl\u{f6}\u{e4}",
                "ASDFGHJKL\u{d6}\u{c4}",
            );
            row(&mut keymap, 51, "#yxcvbnm,.-", "'YXCVBNM;:_");
            // AltGr reaches a third level, and with shift a fourth.
            keymap.keys[(24 - FIRST) as usize].produces = vec!['q' as u32, 'Q' as u32, '@' as u32, 0x3a9];
            keymap.keys[(26 - FIRST) as usize].produces = vec!['e' as u32, 'E' as u32, 0x20ac, 0x20ac];
        }
        _ => panic!("no such layout"),
    }
    keymap
}

fn plan(map: &CharMap, ch: char) -> KeyPlan {
    map.get(ch).unwrap_or_else(|| panic!("no plan for {ch:?}"))
}

#[test]
fn inverts_a_us_keymap() {
    let keymap = keymap_for("us");
    let map = build_char_map(&keymap);
    let mods = find_mod_keys(&keymap);

    assert!(mods.shift.is_some(), "no shift key found");

    for ch in "abxyz0189".chars() {
        let plan = map.get(ch).unwrap_or_else(|| panic!("no plan for {ch:?}"));
        assert!(!plan.shift, "{ch:?} should not need shift");
    }
    for ch in "ABXYZ!@#?".chars() {
        let plan = map.get(ch).unwrap_or_else(|| panic!("no plan for {ch:?}"));
        assert!(plan.shift, "{ch:?} should need shift");
    }
    // The characters dictation actually produces all the time.
    for ch in " .,'-".chars() {
        assert!(map.contains_key(ch), "no plan for {ch:?}");
    }
}

#[test]
fn a_case_pair_shares_one_key() {
    let keymap = keymap_for("us");
    let map = build_char_map(&keymap);

    assert_eq!(plan(&map, 'a').keycode, plan(&map, 'A').keycode);
    assert_eq!(plan(&map, '1').keycode, plan(&map, '!').keycode);
}

/// The point of inverting the live keymap rather than assuming US: a
/// character sits on a different key depending on the layout.
#[test]
fn follows_the_layout() {
    let us = build_char_map(&keymap_for("us"));
    let de = build_char_map(&keymap_for("de"));

    // y and z swap between these two layouts.
    assert_ne!(plan(&us, 'y').keycode, plan(&de, 'y').keycode);
    // And German reaches characters US simply does not have.
    assert!(
        de.contains_key('\u{fc}'),
        "de keymap should produce u-umlaut"
    );
}

/// Regression: `#` is shift+3 on the main block, but also the unmodified
/// keysym of the XF86NumericPound media key. Picking the media key would
/// type nothing and might fire a media action.
#[test]
fn prefers_the_main_block_over_media_keys() {
    let keymap = keymap_for("us");
    let map = build_char_map(&keymap);

    assert_eq!(plan(&map, '#').keycode, plan(&map, '3').keycode);
    assert!(plan(&map, '#').shift);
}

#[test]
fn a_media_key_never_types() {
    let mut keymap = blank();
    special(&mut keymap, 250, 0x1008_120b, '#' as u32);
    assert!(is_vendor_key(&keymap.keys[(250 - FIRST) as usize]));
    assert!(!build_char_map(&keymap).contains_key('#'));
    for (sym, vendor) in [
        (0x1007_ffff, false),
        (0x1008_0000, true),
        (0x1008_ffff, true),
        (0x1009_0000, false),
    ] {
        special(&mut keymap, 250, sym, '#' as u32);
        assert_eq!(is_vendor_key(&keymap.keys[(250 - FIRST) as usize]), vendor);
    }
}

#[test]
fn the_lowest_keycode_wins() {
    let mut keymap = blank();
    two_levels(&mut keymap, 30, 'a', 'b');
    two_levels(&mut keymap, 20, 'x', 'a');
    let found = plan(&build_char_map(&keymap), 'a');
    assert_eq!(
        found,
        KeyPlan {
            keycode: 20,
            shift: true,
            level3: false
        }
    );
}

#[test]
fn reaches_the_third_level() {
    let keymap = keymap_for("de");
    let map = build_char_map(&keymap);
    assert_eq!(
        plan(&map, '@'),
        KeyPlan {
            keycode: 24,
            shift: false,
            level3: true
        }
    );
    assert_eq!(
        plan(&map, '\u{3a9}'),
        KeyPlan {
            keycode: 24,
            shift: true,
            level3: true
        }
    );
    // Plainest first, where two combinations produce one character.
    assert!(!plan(&map, '\u{20ac}').shift);
}

#[test]
fn control_characters_are_not_text() {
    let mut keymap = blank();
    // Every code point up to and around the control characters, one key each.
    for c in 0..0xc0u32 {
        special(&mut keymap, FIRST + c, 0, c);
    }
    let map = build_char_map(&keymap);
    for c in 0..0xc0u32 {
        let ch = char::from_u32(c).unwrap();
        assert_eq!(
            map.contains_key(ch),
            !ch.is_control() || ch == '\n' || ch == '\t',
            "{ch:?}"
        );
    }
}

/// Return produces a carriage return, and types the newlines that dictation
/// emits.
#[test]
fn return_types_a_newline() {
    let mut keymap = blank();
    special(&mut keymap, 36, 0xff0d, 0x0d);
    let map = build_char_map(&keymap);
    assert_eq!(
        plan(&map, '\n'),
        KeyPlan {
            keycode: 36,
            shift: false,
            level3: false
        }
    );
    assert!(!map.contains_key('\r'));

    let mut effects = Vec::new();
    type_on("\n", &keymap, &mut effects);
    assert_eq!(effects, [key(36, true), key(36, false)]);

    // The main block comes before the key that produces a line feed itself.
    for layout in ["us", "de"] {
        let map = build_char_map(&keymap_for(layout));
        assert_eq!(plan(&map, '\n').keycode, 36);
        assert_eq!(plan(&map, '\t').keycode, 23);
    }
}

#[test]
fn what_is_no_character_is_not_text() {
    let mut keymap = blank();
    special(&mut keymap, 8, 0, 0xd800);
    special(&mut keymap, 9, 0, 0xdfff);
    special(&mut keymap, 10, 0, 0x11_0000);
    special(&mut keymap, 11, 0, 0x10_ffff);
    let map = build_char_map(&keymap);
    assert_eq!(plan(&map, '\u{10ffff}').keycode, 11);
    assert!(!map.contains_key('\0'));
}

#[test]
fn masks_follow_the_modifiers() {
    assert_eq!(mod_mask(MOD_INVALID), 0);
    assert_eq!(mod_mask(0), 1);
    assert_eq!(mod_mask(7), 0x80);
    assert_eq!(mod_mask(31), 0x8000_0000);
}

#[test]
fn unreachable_combinations_are_dropped() {
    let combo = |mask: u32, shift: bool, level3: bool| Combination {
        mask,
        shift,
        level3,
    };
    assert_eq!(
        combinations(1, 0x80),
        [
            combo(0, false, false),
            combo(1, true, false),
            combo(0x80, false, true),
            combo(0x81, true, true)
        ]
    );
    assert_eq!(
        combinations(1, 0),
        [combo(0, false, false), combo(1, true, false)]
    );
    assert_eq!(
        combinations(0, 0x80),
        [combo(0, false, false), combo(0x80, false, true)]
    );
    assert_eq!(combinations(0, 0), [combo(0, false, false)]);
}

#[test]
fn finds_the_lowest_modifier_keys() {
    let mods = find_mod_keys(&keymap_for("us"));
    assert_eq!(mods.shift, Some(50));
    assert_eq!(mods.level3, Some(92));

    let mods = find_mod_keys(&blank());
    assert_eq!(mods.shift, None);
    assert_eq!(mods.level3, None);

    let mut keymap = blank();
    keymap.keys[0].syms = vec![1, KEY_MODE_SWITCH, KEY_SHIFT_R];
    let mods = find_mod_keys(&keymap);
    assert_eq!((mods.shift, mods.level3), (Some(8), Some(8)));
}

fn key(keycode: u32, pressed: bool) -> Effect {
    Effect::Key { keycode, pressed }
}

#[test]
fn types_with_the_modifiers_held() {
    let mut effects = Vec::new();
    type_on("aA", &keymap_for("us"), &mut effects);
    assert_eq!(
        effects,
        [
            key(38, true),
            key(38, false),
            key(50, true),
            key(38, true),
            key(38, false),
            key(50, false),
        ]
    );

    effects.clear();
    type_on("\u{3a9}", &keymap_for("de"), &mut effects);
    assert_eq!(
        effects,
        [
            key(50, true),
            key(92, true),
            key(24, true),
            key(24, false),
            key(50, false),
            key(92, false),
        ]
    );
}

#[test]
fn reports_what_cannot_be_typed() {
    let mut effects = Vec::new();
    type_on("\u{fc}a\u{1f600}", &keymap_for("us"), &mut effects);
    assert_eq!(
        effects,
        [
            key(38, true),
            key(38, false),
            Effect::Untypable("\u{fc}\u{1f600}".to_owned()),
        ]
    );

    // Without a shift key a capital would come out as the wrong letter.
    let mut keymap = blank();
    two_levels(&mut keymap, 30, 'a', 'A');
    effects.clear();
    type_on("Aa", &keymap, &mut effects);
    assert_eq!(
        effects,
        [
            key(30, true),
            key(30, false),
            Effect::Untypable("A".to_owned()),
        ]
    );
}

#[test]
fn no_key_is_left_down() {
    for layout in ["us", "de"] {
        let mut effects = Vec::new();
        type_on("Hello, World! \u{d6}l @ 5 \u{20ac}.", &keymap_for(layout), &mut effects);
        let mut held = vec![0i32; END as usize];
        for effect in &effects {
            if let Effect::Key { keycode, pressed } = effect {
                let count = &mut held[*keycode as usize];
                *count += if *pressed { 1 } else { -1 };
                assert!(*count >= 0);
            }
        }
        assert!(held.iter().all(|count| *count == 0));
    }
}

#[test]
fn typing_is_append_only() {
    let keymap = keymap_for("us");
    let (mut whole, mut parts) = (Vec::new(), Vec::new());
    type_on("It works.", &keymap, &mut whole);
    type_on("It ", &keymap, &mut parts);
    type_on("works.", &keymap, &mut parts);
    assert_eq!(whole, parts);
}
