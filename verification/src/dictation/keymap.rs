//! Finding the keys that type a character on the current keymap.
//!
//! Tools outside the compositor have to guess the layout, which is why they
//! break on AltGr and dead keys. Here the keymap itself is asked what each key
//! produces, and that is inverted, so the mapping is right by construction on
//! any layout.
use std::collections::HashMap;
use vstd::prelude::*;

verus! {

broadcast use vstd::std_specs::hash::group_hash_axioms;

/// What xkb answers for the index of a modifier that a keymap does not have.
pub const MOD_INVALID: u32 = 0xffff_ffff;

pub const KEY_SHIFT_L: u32 = 0xffe1;

pub const KEY_SHIFT_R: u32 = 0xffe2;

pub const KEY_ISO_LEVEL3_SHIFT: u32 = 0xfe03;

pub const KEY_MODE_SWITCH: u32 = 0xff7e;

/// The bit mask for the modifier with an index, or 0 if the keymap has no such
/// thing.
pub fn mod_mask(index: u32) -> (mask: u32)
    requires
        index == MOD_INVALID || index < 32,
    ensures
        mask == if index == MOD_INVALID {
            0u32
        } else {
            1u32 << index
        },
{
    if index == MOD_INVALID {
        0
    } else {
        1u32 << index
    }
}

/// A combination of the modifiers that reach a character.
#[derive(Debug, Clone, Copy, PartialEq, Eq, Structural)]
pub struct Combination {
    pub mask: u32,
    pub shift: bool,
    pub level3: bool,
}

/// The combinations that a keymap can reach, plainest first. A modifier that
/// the keymap does not have makes its combinations unreachable.
pub open spec fn reachable(shift_mask: u32, level3_mask: u32) -> Seq<Combination> {
    let plain = Combination { mask: 0, shift: false, level3: false };
    let shifted = Combination { mask: shift_mask, shift: true, level3: false };
    let third = Combination { mask: level3_mask, shift: false, level3: true };
    let both = Combination { mask: shift_mask | level3_mask, shift: true, level3: true };
    if shift_mask != 0 && level3_mask != 0 {
        seq![plain, shifted, third, both]
    } else if shift_mask != 0 {
        seq![plain, shifted]
    } else if level3_mask != 0 {
        seq![plain, third]
    } else {
        seq![plain]
    }
}

/// The combinations that a keymap can reach, plainest first.
pub fn combinations(shift_mask: u32, level3_mask: u32) -> (combos: Vec<Combination>)
    ensures
        combos@ == reachable(shift_mask, level3_mask),
{
    let mut combos: Vec<Combination> = Vec::new();
    combos.push(Combination { mask: 0, shift: false, level3: false });
    if shift_mask != 0 {
        combos.push(Combination { mask: shift_mask, shift: true, level3: false });
    }
    if level3_mask != 0 {
        combos.push(Combination { mask: level3_mask, shift: false, level3: true });
    }
    if shift_mask != 0 && level3_mask != 0 {
        combos.push(
            Combination { mask: shift_mask | level3_mask, shift: true, level3: true },
        );
    }
    assert(combos@ =~= reachable(shift_mask, level3_mask));
    combos
}

/// One key of a keymap, on the active layout.
#[derive(Debug, Clone)]
pub struct Key {
    /// The keysyms it produces with no modifier held.
    pub syms: Vec<u32>,
    /// The code point it produces with each combination of
    /// [`combinations`] held, and 0 where it produces none. The Return key
    /// produces a carriage return, and that counts as the line feed it types.
    pub produces: Vec<u32>,
}

/// A keymap on its active layout: what xkb says of each key.
#[derive(Debug, Clone)]
pub struct Keymap {
    pub min_keycode: u32,
    /// The keys, by keycode from the smallest on.
    pub keys: Vec<Key>,
    pub shift_mask: u32,
    pub level3_mask: u32,
}

impl Keymap {
    /// The combinations that the keymap can reach.
    pub open spec fn combos(&self) -> Seq<Combination> {
        reachable(self.shift_mask, self.level3_mask)
    }

    /// Every key has a keycode, and says what it produces with each
    /// combination.
    pub open spec fn wf(&self) -> bool {
        &&& self.min_keycode + self.keys@.len() <= u32::MAX + 1
        &&& forall|k: int|
            0 <= k < self.keys@.len() ==> (#[trigger] self.keys@[k]).produces@.len()
                == self.combos().len()
    }

    /// The keycode of the `k`-th key.
    pub open spec fn keycode(&self, k: int) -> u32 {
        (self.min_keycode + k) as u32
    }

    /// Whether the `k`-th key, with the `j`-th combination held, types `c`: the
    /// text of what it produces.
    pub open spec fn types(&self, k: int, j: int, c: u32) -> bool {
        &&& 0 <= k < self.keys@.len()
        &&& 0 <= j < self.combos().len()
        &&& !vendor(self.keys@[k].syms@)
        &&& text_of(self.keys@[k].produces@[j]) == c
        &&& typeable(c)
    }

    /// Whether the `k`-th key with the `j`-th combination held is the first way
    /// to type `c`, by keycode and then plainest combination first.
    pub open spec fn first_way(&self, k: int, j: int, c: u32) -> bool {
        &&& self.types(k, j, c)
        &&& forall|k2: int, j2: int| #[trigger]
            self.types(k2, j2, c) ==> before(k, j, k2, j2) || (k == k2 && j == j2)
    }

    /// How to hold the `j`-th combination and press the `k`-th key.
    pub open spec fn plan(&self, k: int, j: int) -> KeyPlan {
        KeyPlan {
            keycode: self.keycode(k),
            shift: self.combos()[j].shift,
            level3: self.combos()[j].level3,
        }
    }
}

/// Whether the way `(k, j)` comes before `(k2, j2)`.
pub open spec fn before(k: int, j: int, k2: int, j2: int) -> bool {
    k < k2 || (k == k2 && j < j2)
}

/// Whether a number is the code point of a character.
pub open spec fn code_point(c: u32) -> bool {
    c <= 0xd7ff || 0xe000 <= c <= 0x10ffff
}

/// Whether a code point is a control character.
pub open spec fn control(c: u32) -> bool {
    c <= 0x1f || 0x7f <= c <= 0x9f
}

/// The text that a code point stands for. Return produces a carriage return, and
/// what it types is a new line, so a carriage return reads as a line feed.
pub open spec fn text_of(c: u32) -> u32 {
    if c == 0x0d {
        0x0a
    } else {
        c
    }
}

/// Whether a code point is text. Control characters are not, but for those of
/// Return and Tab, because dictation does emit newlines: the line feed, which is
/// what [`text_of`] makes of a carriage return, and the tab.
pub open spec fn typeable(c: u32) -> bool {
    code_point(c) && (!control(c) || c == 0x0a || c == 0x09)
}

/// Whether a key with these unmodified keysyms is a vendor special key
/// (`XF86*`) rather than a text key.
///
/// These carry unicode mappings that make them look typeable, but pressing one
/// runs whatever the key means - adjusting volume, opening a browser - instead
/// of producing a character.
pub open spec fn vendor(syms: Seq<u32>) -> bool {
    exists|i: int| 0 <= i < syms.len() && 0x1008_0000 <= #[trigger] syms[i] <= 0x1008_ffff
}

/// How to produce one character on the current keymap.
#[derive(Debug, Clone, Copy, PartialEq, Eq, Structural)]
pub struct KeyPlan {
    pub keycode: u32,
    pub shift: bool,
    pub level3: bool,
}

fn as_text(c: u32) -> (text: u32)
    ensures
        text == text_of(c),
{
    if c == 0x0d {
        0x0a
    } else {
        c
    }
}

fn is_typeable(c: u32) -> (yes: bool)
    ensures
        yes == typeable(c),
{
    (c <= 0xd7ff || (0xe000 <= c && c <= 0x10ffff)) && (!(c <= 0x1f || (0x7f <= c && c <= 0x9f))
        || c == 0x0a || c == 0x09)
}

/// Whether a key is a vendor special key rather than a text key.
pub fn is_vendor_key(key: &Key) -> (yes: bool)
    ensures
        yes == vendor(key.syms@),
{
    let mut i: usize = 0;
    while i < key.syms.len()
        invariant
            i <= key.syms@.len(),
            forall|j: int|
                0 <= j < i ==> !(0x1008_0000 <= #[trigger] key.syms@[j] <= 0x1008_ffff),
        decreases key.syms@.len() - i,
    {
        let sym: u32 = key.syms[i];
        if 0x1008_0000 <= sym && sym <= 0x1008_ffff {
            return true;
        }
        i = i + 1;
    }
    false
}

/// Which key types a character, and with which modifiers.
pub struct CharMap {
    plans: HashMap<u32, KeyPlan>,
}

impl View for CharMap {
    type V = Map<u32, KeyPlan>;

    closed spec fn view(&self) -> Map<u32, KeyPlan> {
        self.plans@
    }
}

impl CharMap {
    /// How to type a character, if there is a way.
    pub fn get(&self, ch: char) -> (plan: Option<KeyPlan>)
        ensures
            plan == (if self@.contains_key(ch as u32) {
                Some(self@[ch as u32])
            } else {
                None
            }),
    {
        match self.plans.get(&(ch as u32)) {
            Some(plan) => Some(*plan),
            None => None,
        }
    }

    /// Whether there is a way to type a character.
    pub fn contains_key(&self, ch: char) -> (yes: bool)
        ensures
            yes == self@.contains_key(ch as u32),
    {
        self.plans.contains_key(&(ch as u32))
    }
}

/// Whether a map holds the ways of the keymap that come before `(k, j)`, and
/// of two ways to one character the first.
spec fn inverts_up_to(keymap: &Keymap, map: Map<u32, KeyPlan>, k: int, j: int) -> bool {
    &&& forall|c: u32, k2: int, j2: int| #[trigger]
        keymap.types(k2, j2, c) && before(k2, j2, k, j) ==> map.contains_key(c)
    &&& forall|c: u32| #[trigger]
        map.contains_key(c) ==> exists|k2: int, j2: int| #[trigger]
            keymap.first_way(k2, j2, c) && before(k2, j2, k, j) && map[c] == keymap.plan(k2, j2)
}

/// Whether a map is the inverse of a keymap: it holds the characters that the
/// keymap can type, each with its first way.
pub open spec fn inverts(keymap: &Keymap, map: Map<u32, KeyPlan>) -> bool {
    &&& forall|c: u32, k: int, j: int| #[trigger]
        keymap.types(k, j, c) ==> map.contains_key(c)
    &&& forall|c: u32| #[trigger]
        map.contains_key(c) ==> exists|k: int, j: int| #[trigger]
            keymap.first_way(k, j, c) && map[c] == keymap.plan(k, j)
}

/// Two maps that are the inverse of one keymap are one map.
pub proof fn law_the_inverse_is_unique(
    keymap: &Keymap,
    map: Map<u32, KeyPlan>,
    other: Map<u32, KeyPlan>,
)
    requires
        inverts(keymap, map),
        inverts(keymap, other),
    ensures
        map == other,
{
    assert forall|c: u32| map.contains_key(c) == other.contains_key(c) && (map.contains_key(c)
        ==> map[c] == other[c]) by {
        if map.contains_key(c) {
            let (k, j) = choose|k: int, j: int| #[trigger]
                keymap.first_way(k, j, c) && map[c] == keymap.plan(k, j);
            assert(keymap.types(k, j, c));
        }
        if other.contains_key(c) {
            let (k, j) = choose|k: int, j: int| #[trigger]
                keymap.first_way(k, j, c) && other[c] == keymap.plan(k, j);
            assert(keymap.types(k, j, c));
        }
    }
    assert(map =~= other);
}

/// The inverse of a keymap.
pub open spec fn inverse(keymap: &Keymap) -> Map<u32, KeyPlan> {
    choose|map: Map<u32, KeyPlan>| inverts(keymap, map)
}

/// The lowest keycode wins, and a vendor key never does: a character is typed by
/// a text key, and no text key that types it has a lower keycode.
pub proof fn law_the_lowest_text_key_wins(keymap: &Keymap, map: Map<u32, KeyPlan>, c: u32)
    requires
        keymap.wf(),
        inverts(keymap, map),
        map.contains_key(c),
    ensures
        exists|k: int|
            0 <= k < keymap.keys@.len() && !vendor((#[trigger] keymap.keys@[k]).syms@)
                && keymap.keycode(k) == map[c].keycode,
        forall|k: int, j: int| #[trigger]
            keymap.types(k, j, c) ==> map[c].keycode <= keymap.keycode(k),
{
    let (k, j) = choose|k: int, j: int| #[trigger]
        keymap.first_way(k, j, c) && map[c] == keymap.plan(k, j);
    assert(!vendor(keymap.keys@[k].syms@));
}

/// Invert the keymap: for every character it can produce, remember which key
/// and modifiers produce it.
///
/// Keys are considered in keycode order, plainest modifier combination first.
/// Order matters more than it looks: `#` is shift+3 on the main block, but it
/// is *also* the unmodified keysym of the `XF86NumericPound` media key. Taking
/// the unmodified spelling first would pick the media key, and pressing that
/// types nothing and may fire a media action instead. Lowest keycode wins, so
/// the main typing block is always preferred.
pub fn build_char_map(keymap: &Keymap) -> (map: CharMap)
    requires
        keymap.wf(),
    ensures
        inverts(keymap, map@),
        map@ == inverse(keymap),
{
    let combos: Vec<Combination> = combinations(keymap.shift_mask, keymap.level3_mask);
    let mut plans: HashMap<u32, KeyPlan> = HashMap::new();
    let mut k: usize = 0;
    while k < keymap.keys.len()
        invariant
            keymap.wf(),
            combos@ == keymap.combos(),
            k <= keymap.keys@.len(),
            inverts_up_to(keymap, plans@, k as int, 0),
        decreases keymap.keys@.len() - k,
    {
        if !is_vendor_key(&keymap.keys[k]) {
            let mut j: usize = 0;
            while j < combos.len()
                invariant
                    keymap.wf(),
                    combos@ == keymap.combos(),
                    k < keymap.keys@.len(),
                    j <= combos@.len(),
                    !vendor(keymap.keys@[k as int].syms@),
                    inverts_up_to(keymap, plans@, k as int, j as int),
                decreases combos@.len() - j,
            {
                // Return and Tab arrive as their own keysyms and stay.
                let c: u32 = as_text(keymap.keys[k].produces[j]);
                if is_typeable(c) {
                    assert(keymap.types(k as int, j as int, c));
                    if !plans.contains_key(&c) {
                        let plan = KeyPlan {
                            keycode: keymap.min_keycode + k as u32,
                            shift: combos[j].shift,
                            level3: combos[j].level3,
                        };
                        plans.insert(c, plan);
                        assert(keymap.first_way(k as int, j as int, c));
                    }
                }
                j = j + 1;
            }
        }
        k = k + 1;
    }
    proof {
        assert(inverts(keymap, plans@));
        law_the_inverse_is_unique(keymap, plans@, inverse(keymap));
    }
    CharMap { plans }
}

/// The modifier keys we know how to press, located in the current keymap.
#[derive(Debug, Clone, Copy, PartialEq, Eq, Structural)]
pub struct ModKeys {
    pub shift: Option<u32>,
    pub level3: Option<u32>,
}

/// Whether these unmodified keysyms press shift.
pub open spec fn shifts(syms: Seq<u32>) -> bool {
    syms.contains(KEY_SHIFT_L) || syms.contains(KEY_SHIFT_R)
}

/// Whether these unmodified keysyms reach the third level.
pub open spec fn reaches_level3(syms: Seq<u32>) -> bool {
    syms.contains(KEY_ISO_LEVEL3_SHIFT) || syms.contains(KEY_MODE_SWITCH)
}

/// Whether `found` is the keycode of the first key of which `presses` holds, or
/// `None` where it holds of no key.
pub open spec fn first_key(
    keymap: &Keymap,
    presses: spec_fn(Seq<u32>) -> bool,
    found: Option<u32>,
) -> bool {
    match found {
        Some(keycode) => exists|k: int|
            {
                &&& 0 <= k < keymap.keys@.len()
                &&& keycode == keymap.keycode(k)
                &&& presses((#[trigger] keymap.keys@[k]).syms@)
                &&& forall|k2: int| 0 <= k2 < k ==> !presses((#[trigger] keymap.keys@[k2]).syms@)
            },
        None => forall|k: int|
            0 <= k < keymap.keys@.len() ==> !presses((#[trigger] keymap.keys@[k]).syms@),
    }
}

/// Whether these are the modifier keys of a keymap: of the keys that press one,
/// the one with the lowest keycode.
pub open spec fn presses_mods(keymap: &Keymap, found: ModKeys) -> bool {
    &&& first_key(keymap, |syms: Seq<u32>| shifts(syms), found.shift)
    &&& first_key(keymap, |syms: Seq<u32>| reaches_level3(syms), found.level3)
}

/// The modifier keys of a keymap.
pub open spec fn mod_keys(keymap: &Keymap) -> ModKeys {
    choose|found: ModKeys| presses_mods(keymap, found)
}

proof fn lemma_first_key(
    keymap: &Keymap,
    presses: spec_fn(Seq<u32>) -> bool,
    found: Option<u32>,
    other: Option<u32>,
)
    requires
        first_key(keymap, presses, found),
        first_key(keymap, presses, other),
    ensures
        found == other,
{
    match (found, other) {
        (Some(a), Some(b)) => {
            let k = choose|k: int|
                {
                    &&& 0 <= k < keymap.keys@.len()
                    &&& a == keymap.keycode(k)
                    &&& presses((#[trigger] keymap.keys@[k]).syms@)
                    &&& forall|k2: int|
                        0 <= k2 < k ==> !presses((#[trigger] keymap.keys@[k2]).syms@)
                };
            let m = choose|m: int|
                {
                    &&& 0 <= m < keymap.keys@.len()
                    &&& b == keymap.keycode(m)
                    &&& presses((#[trigger] keymap.keys@[m]).syms@)
                    &&& forall|k2: int|
                        0 <= k2 < m ==> !presses((#[trigger] keymap.keys@[k2]).syms@)
                };
            assert(keymap.keys@[k] == keymap.keys@[k] && keymap.keys@[m] == keymap.keys@[m]);
        },
        _ => {},
    }
}

/// A keymap has one pair of modifier keys.
pub proof fn law_the_modifier_keys_are_unique(keymap: &Keymap, found: ModKeys, other: ModKeys)
    requires
        presses_mods(keymap, found),
        presses_mods(keymap, other),
    ensures
        found == other,
{
    lemma_first_key(keymap, |syms: Seq<u32>| shifts(syms), found.shift, other.shift);
    lemma_first_key(keymap, |syms: Seq<u32>| reaches_level3(syms), found.level3, other.level3);
}

fn has_sym(syms: &Vec<u32>, a: u32, b: u32) -> (yes: bool)
    ensures
        yes == (syms@.contains(a) || syms@.contains(b)),
{
    let mut i: usize = 0;
    while i < syms.len()
        invariant
            i <= syms@.len(),
            forall|j: int| 0 <= j < i ==> #[trigger] syms@[j] != a && syms@[j] != b,
        decreases syms@.len() - i,
    {
        if syms[i] == a || syms[i] == b {
            return true;
        }
        i = i + 1;
    }
    false
}

/// Find the keys that press the modifiers we need: of the keys that press one,
/// the one with the lowest keycode.
pub fn find_mod_keys(keymap: &Keymap) -> (found: ModKeys)
    requires
        keymap.wf(),
    ensures
        presses_mods(keymap, found),
        found == mod_keys(keymap),
{
    let mut found = ModKeys { shift: None, level3: None };
    let mut k: usize = 0;
    while k < keymap.keys.len()
        invariant
            keymap.wf(),
            k <= keymap.keys@.len(),
            found.shift is None ==> forall|k2: int|
                0 <= k2 < k ==> !shifts((#[trigger] keymap.keys@[k2]).syms@),
            found.shift is Some ==> first_key(
                keymap,
                |syms: Seq<u32>| shifts(syms),
                found.shift,
            ),
            found.level3 is None ==> forall|k2: int|
                0 <= k2 < k ==> !reaches_level3((#[trigger] keymap.keys@[k2]).syms@),
            found.level3 is Some ==> first_key(
                keymap,
                |syms: Seq<u32>| reaches_level3(syms),
                found.level3,
            ),
        decreases keymap.keys@.len() - k,
    {
        let keycode: u32 = keymap.min_keycode + k as u32;
        let key = &keymap.keys[k];
        if found.shift.is_none() && has_sym(&key.syms, KEY_SHIFT_L, KEY_SHIFT_R) {
            found.shift = Some(keycode);
        }
        if found.level3.is_none() && has_sym(&key.syms, KEY_ISO_LEVEL3_SHIFT, KEY_MODE_SWITCH) {
            found.level3 = Some(keycode);
        }
        k = k + 1;
    }
    proof {
        assert(presses_mods(keymap, found));
        law_the_modifier_keys_are_unique(keymap, found, mod_keys(keymap));
    }
    found
}

} // verus!
