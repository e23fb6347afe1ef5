//! Keyboard state and what the held keys do.
use vstd::prelude::*;
use crate::faces::{step, Step};

verus! {

/// A key of the keyboard: the ones the game reacts to by name, every
/// other one by its key code.
#[derive(Clone, Copy, PartialEq, Eq, Structural, Debug)]
pub enum Key {
    KeyW,
    KeyS,
    KeyA,
    KeyD,
    Space,
    ControlLeft,
    ArrowLeft,
    ArrowRight,
    ArrowUp,
    ArrowDown,
    Escape,
    Other(u32),
}

/// What the game does after a key event.
#[derive(Clone, Copy, PartialEq, Eq, Structural, Debug)]
pub enum KeyAction {
    /// Leave the game.
    Exit,
    /// Go on.
    Continue,
}

/// The keys that move the player, in the order their moves are applied.
pub open spec fn movement_keys() -> Seq<Key> {
    seq![Key::KeyW, Key::KeyS, Key::KeyA, Key::KeyD, Key::Space, Key::ControlLeft]
}

/// The keys that turn the player, in the order their turns are applied.
pub open spec fn rotation_keys() -> Seq<Key> {
    seq![Key::ArrowLeft, Key::ArrowRight, Key::ArrowUp, Key::ArrowDown]
}

/// The move of a movement key, in the player's frame (x to the right, y up,
/// z ahead), one unit per unit of speed and time.
pub open spec fn movement_of(k: Key) -> Step {
    match k {
        Key::KeyW => step(0, 0, 1),
        Key::KeyS => step(0, 0, -1),
        Key::KeyA => step(-1, 0, 0),
        Key::KeyD => step(1, 0, 0),
        Key::Space => step(0, 1, 0),
        _ => step(0, -1, 0),
    }
}

/// The turn of a rotation key as (pitch, roll, yaw), in half units per unit
/// of time.
pub open spec fn rotation_of(k: Key) -> Step {
    match k {
        Key::ArrowLeft => step(0, 0, -1),
        Key::ArrowRight => step(0, 0, 1),
        Key::ArrowUp => step(1, 0, 0),
        _ => step(-1, 0, 0),
    }
}

/// No two entries of `s` are for the same key.
pub open spec fn unique_keys(s: Seq<(Key, bool)>) -> bool {
    forall|i: int, j: int| 0 <= i < s.len() && 0 <= j < s.len() && i != j ==> #[trigger] s[i].0 != #[trigger] s[j].0
}

/// Some entry of `s` is for key `k`.
pub open spec fn has_key(s: Seq<(Key, bool)>, k: Key) -> bool {
    exists|i: int| 0 <= i < s.len() && #[trigger] s[i].0 == k
}

/// The map from key to last recorded state that a list of entries
/// describes.
pub open spec fn entries_map(s: Seq<(Key, bool)>) -> Map<Key, bool> {
    Map::new(
        |k: Key| has_key(s, k),
        |k: Key| s[choose|i: int| 0 <= i < s.len() && #[trigger] s[i].0 == k].1,
    )
}

/// In a list without repeated keys, each entry's key maps to its state.
proof fn lemma_entries_at(s: Seq<(Key, bool)>, i: int)
    requires
        unique_keys(s),
        0 <= i < s.len(),
    ensures
        entries_map(s).dom().contains(s[i].0),
        entries_map(s)[s[i].0] == s[i].1,
{
    let k = s[i].0;
    assert(has_key(s, k));
    let c = choose|j: int| 0 <= j < s.len() && #[trigger] s[j].0 == k;
    assert(s[c].0 == k);
    assert(c == i);
}

/// Index of the entry for `k` in `s`, if any.
fn entry_of(s: &Vec<(Key, bool)>, k: Key) -> (r: Option<usize>)
    ensures
        match r {
            Some(i) => i < s@.len() && s@[i as int].0 == k,
            None => !has_key(s@, k),
        },
{
    let mut i: usize = 0;
    while i < s.len()
        invariant
            i <= s@.len(),
            forall|j: int| 0 <= j < i ==> #[trigger] s@[j].0 != k,
        decreases s@.len() - i,
    {
        if s[i].0 == k {
            return Some(i);
        }
        i = i + 1;
    }
    None
}

/// The last recorded state of every key that has had an event.
pub struct Keyboard {
    entries: Vec<(Key, bool)>,
}

impl View for Keyboard {
    type V = Map<Key, bool>;

    closed spec fn view(&self) -> Map<Key, bool> {
        entries_map(self.entries@)
    }
}

impl Keyboard {
    #[verifier::type_invariant]
    spec fn inv(self) -> bool {
        unique_keys(self.entries@)
    }

    /// Whether key `k` is held down: its last recorded event pressed it.
    pub open spec fn held(self, k: Key) -> bool {
        self@.dom().contains(k) && self@[k]
    }

    /// A keyboard on which no key has had an event.
    pub fn new() -> (kb: Keyboard)
        ensures
            kb@ == Map::<Key, bool>::empty(),
    {
        let kb = Keyboard { entries: Vec::new() };
        assert(kb@ =~= Map::<Key, bool>::empty());
        kb
    }

    /// Whether key `k` is held down: its last recorded state is pressed.
    pub fn is_held(&self, k: Key) -> (r: bool)
        ensures
            r == self.held(k),
    {
        proof {
            use_type_invariant(self);
        }
        match entry_of(&self.entries, k) {
            Some(i) => {
                proof {
                    lemma_entries_at(self.entries@, i as int);
                }
                self.entries[i].1
            },
            None => false,
        }
    }

    /// Takes in a key press (`pressed`) or release: pressing Escape leaves
    /// the game; any other event records the key's new state.
    pub fn key_event(&mut self, key: Key, pressed: bool) -> (action: KeyAction)
        ensures
            action == (if key == Key::Escape && pressed { KeyAction::Exit } else { KeyAction::Continue }),
            action == KeyAction::Exit ==> final(self)@ == old(self)@,
            action == KeyAction::Continue ==> final(self)@ == old(self)@.insert(key, pressed),
    {
        proof {
            use_type_invariant(&*self);
        }
        if key == Key::Escape && pressed {
            return KeyAction::Exit;
        }
        let ghost s = self.entries@;
        let mut entries: Vec<(Key, bool)> = Vec::new();
        std::mem::swap(&mut entries, &mut self.entries);
        let found = entry_of(&entries, key);
        match found {
            Some(i) => {
                entries.set(i, (key, pressed));
            },
            None => {
                entries.push((key, pressed));
            },
        }
        proof {
            let s2 = entries@;
            assert(unique_keys(s2));
            assert forall|k: Key| #[trigger] entries_map(s2).dom().contains(k) <==> entries_map(s).insert(key, pressed).dom().contains(k) by {
                if has_key(s, k) && k != key {
                    let j = choose|j: int| 0 <= j < s.len() && #[trigger] s[j].0 == k;
                    assert(s2[j].0 == k);
                }
                if has_key(s2, k) && k != key {
                    let j = choose|j: int| 0 <= j < s2.len() && #[trigger] s2[j].0 == k;
                    assert(s[j].0 == k);
                }
                if k == key {
                    match found {
                        Some(i) => assert(s2[i as int].0 == k),
                        None => assert(s2[s.len() as int].0 == k),
                    }
                }
            }
            assert forall|k: Key| #[trigger] entries_map(s2).dom().contains(k) implies entries_map(s2)[k] == entries_map(s).insert(key, pressed)[k] by {
                let j = choose|j: int| 0 <= j < s2.len() && #[trigger] s2[j].0 == k;
                lemma_entries_at(s2, j);
                if k != key {
                    assert(s[j].0 == k);
                    lemma_entries_at(s, j);
                }
            }
            assert(entries_map(s2) =~= entries_map(s).insert(key, pressed));
        }
        self.entries = entries;
        KeyAction::Continue
    }

    /// The moves of the held movement keys, in the order W, S, A, D, Space,
    /// left Control.
    pub fn movement_steps(&self) -> (r: Vec<Step>)
        ensures
            r@ == held_keys(*self, movement_keys()).map_values(|k: Key| movement_of(k)),
            r@ == step_if_held(*self, Key::KeyW, step(0, 0, 1)) + step_if_held(*self, Key::KeyS, step(0, 0, -1))
                + step_if_held(*self, Key::KeyA, step(-1, 0, 0)) + step_if_held(*self, Key::KeyD, step(1, 0, 0))
                + step_if_held(*self, Key::Space, step(0, 1, 0)) + step_if_held(*self, Key::ControlLeft, step(0, -1, 0)),
    {
        proof {
            lemma_movement_table(*self);
        }
        let mut r: Vec<Step> = Vec::new();
        let mut i: usize = 0;
        while i < 6
            invariant
                i <= 6,
                r@ == held_keys(*self, movement_keys().take(i as int)).map_values(|k: Key| movement_of(k)),
            decreases 6 - i,
        {
            let k = movement_key(i);
            let ghost before = held_keys(*self, movement_keys().take(i as int));
            assert(movement_keys().take(i + 1).drop_last() =~= movement_keys().take(i as int));
            if self.is_held(k) {
                r.push(movement_step(k));
                assert(r@ =~= before.push(k).map_values(|k: Key| movement_of(k)));
            }
            i = i + 1;
        }
        assert(movement_keys().take(6) =~= movement_keys());
        r
    }

    /// The turns of the held arrow keys, in the order left, right, up, down.
    pub fn rotation_steps(&self) -> (r: Vec<Step>)
        ensures
            r@ == held_keys(*self, rotation_keys()).map_values(|k: Key| rotation_of(k)),
            r@ == step_if_held(*self, Key::ArrowLeft, step(0, 0, -1)) + step_if_held(*self, Key::ArrowRight, step(0, 0, 1))
                + step_if_held(*self, Key::ArrowUp, step(1, 0, 0)) + step_if_held(*self, Key::ArrowDown, step(-1, 0, 0)),
    {
        proof {
            lemma_rotation_table(*self);
        }
        let mut r: Vec<Step> = Vec::new();
        let mut i: usize = 0;
        while i < 4
            invariant
                i <= 4,
                r@ == held_keys(*self, rotation_keys().take(i as int)).map_values(|k: Key| rotation_of(k)),
            decreases 4 - i,
        {
            let k = rotation_key(i);
            let ghost before = held_keys(*self, rotation_keys().take(i as int));
            assert(rotation_keys().take(i + 1).drop_last() =~= rotation_keys().take(i as int));
            if self.is_held(k) {
                r.push(rotation_step(k));
                assert(r@ =~= before.push(k).map_values(|k: Key| rotation_of(k)));
            }
            i = i + 1;
        }
        assert(rotation_keys().take(4) =~= rotation_keys());
        r
    }
}

/// The keys of `keys` that are held on `kb`, in order.
pub open spec fn held_keys(kb: Keyboard, keys: Seq<Key>) -> Seq<Key>
    decreases keys.len(),
{
    if keys.len() == 0 {
        Seq::empty()
    } else {
        let r = held_keys(kb, keys.drop_last());
        if kb.held(keys.last()) {
            r.push(keys.last())
        } else {
            r
        }
    }
}

/// The step of key `k` if `k` is held on `kb`, and nothing otherwise.
pub open spec fn step_if_held(kb: Keyboard, k: Key, s: Step) -> Seq<Step> {
    if kb@.dom().contains(k) && kb@[k] {
        seq![s]
    } else {
        Seq::empty()
    }
}

/// The held keys of `keys` are exactly the keys of `keys`, kept in their
/// order, whose last recorded event pressed them: a released key, or a key
/// with no event, gives no move and no turn.
pub proof fn lemma_held_keys(kb: Keyboard, keys: Seq<Key>)
    ensures
        held_keys(kb, keys) == keys.filter(|k: Key| kb@.dom().contains(k) && kb@[k]),
        forall|i: int|
            0 <= i < held_keys(kb, keys).len() ==> kb@.dom().contains(#[trigger] held_keys(kb, keys)[i])
                && kb@[held_keys(kb, keys)[i]] && keys.contains(held_keys(kb, keys)[i]),
        forall|i: int|
            0 <= i < keys.len() && kb@.dom().contains(#[trigger] keys[i]) && kb@[keys[i]]
                ==> held_keys(kb, keys).contains(keys[i]),
    decreases keys.len(),
{
    reveal(Seq::filter);
    if keys.len() > 0 {
        let rest = keys.drop_last();
        lemma_held_keys(kb, rest);
        let r = held_keys(kb, rest);
        let h = held_keys(kb, keys);
        assert forall|i: int| 0 <= i < h.len() implies kb@.dom().contains(#[trigger] h[i]) && kb@[h[i]]
            && keys.contains(h[i]) by {
            if i < r.len() {
                assert(h[i] == r[i]);
                let j = choose|j: int| 0 <= j < rest.len() && rest[j] == r[i];
                assert(keys[j] == rest[j]);
            } else {
                assert(h[i] == keys.last());
                assert(keys[keys.len() - 1] == keys.last());
            }
        }
        assert forall|i: int|
            0 <= i < keys.len() && kb@.dom().contains(#[trigger] keys[i]) && kb@[keys[i]]
            implies h.contains(keys[i]) by {
            if i < keys.len() - 1 {
                assert(rest[i] == keys[i]);
                let j = choose|j: int| 0 <= j < r.len() && r[j] == rest[i];
                assert(h[j] == r[j]);
            } else {
                assert(h[h.len() - 1] == keys[i]);
            }
        }
    }
}

/// Mapping the held keys of `keys` is mapping those of all but the last key
/// and then adding the last key's image if it is held.
proof fn lemma_held_map_last(kb: Keyboard, keys: Seq<Key>, f: spec_fn(Key) -> Step)
    requires
        keys.len() > 0,
    ensures
        held_keys(kb, keys).map_values(f) == held_keys(kb, keys.drop_last()).map_values(f) + step_if_held(
            kb,
            keys.last(),
            f(keys.last()),
        ),
{
    let r = held_keys(kb, keys.drop_last());
    if kb@.dom().contains(keys.last()) && kb@[keys.last()] {
        assert(r.push(keys.last()).map_values(f) =~= r.map_values(f) + seq![f(keys.last())]);
    } else {
        assert(r.map_values(f) =~= r.map_values(f) + Seq::<Step>::empty());
    }
}

/// Held arrow keys turn the player as (pitch, roll, yaw) in half units:
/// left by (0, 0, -1), right by (0, 0, 1), up by (1, 0, 0) and down by
/// (-1, 0, 0), in that order; no other key turns the player.
pub proof fn lemma_rotation_table(kb: Keyboard)
    ensures
        held_keys(kb, rotation_keys()).map_values(|k: Key| rotation_of(k)) == step_if_held(kb, Key::ArrowLeft, step(0, 0, -1))
            + step_if_held(kb, Key::ArrowRight, step(0, 0, 1)) + step_if_held(kb, Key::ArrowUp, step(1, 0, 0))
            + step_if_held(kb, Key::ArrowDown, step(-1, 0, 0)),
        forall|k: Key|
            #[trigger] held_keys(kb, rotation_keys()).contains(k) <==> (k == Key::ArrowLeft || k == Key::ArrowRight
                || k == Key::ArrowUp || k == Key::ArrowDown) && kb@.dom().contains(k) && kb@[k],
{
    let keys = rotation_keys();
    lemma_held_keys(kb, keys);
    let k3 = keys.drop_last();
    let k2 = k3.drop_last();
    let k1 = k2.drop_last();
    let k0 = k1.drop_last();
    assert(k3 =~= seq![Key::ArrowLeft, Key::ArrowRight, Key::ArrowUp]);
    assert(k2 =~= seq![Key::ArrowLeft, Key::ArrowRight]);
    assert(k1 =~= seq![Key::ArrowLeft]);
    assert(k0 =~= Seq::<Key>::empty());
    assert(held_keys(kb, k0) =~= Seq::<Key>::empty());
    let f = |k: Key| rotation_of(k);
    lemma_held_map_last(kb, k1, f);
    lemma_held_map_last(kb, k2, f);
    lemma_held_map_last(kb, k3, f);
    lemma_held_map_last(kb, keys, f);
    assert(held_keys(kb, k0).map_values(f) =~= Seq::<Step>::empty());
    assert(held_keys(kb, keys).map_values(f) =~= step_if_held(kb, Key::ArrowLeft, step(0, 0, -1))
        + step_if_held(kb, Key::ArrowRight, step(0, 0, 1)) + step_if_held(kb, Key::ArrowUp, step(1, 0, 0))
        + step_if_held(kb, Key::ArrowDown, step(-1, 0, 0)));
    assert forall|k: Key| #[trigger] held_keys(kb, keys).contains(k) <==> (k == Key::ArrowLeft || k
        == Key::ArrowRight || k == Key::ArrowUp || k == Key::ArrowDown) && kb@.dom().contains(k) && kb@[k] by {
        if held_keys(kb, keys).contains(k) {
            let i = choose|i: int| 0 <= i < held_keys(kb, keys).len() && held_keys(kb, keys)[i] == k;
            assert(keys.contains(held_keys(kb, keys)[i]));
        }
        if k == Key::ArrowLeft {
            assert(keys[0] == k);
        } else if k == Key::ArrowRight {
            assert(keys[1] == k);
        } else if k == Key::ArrowUp {
            assert(keys[2] == k);
        } else if k == Key::ArrowDown {
            assert(keys[3] == k);
        }
    }
}

/// Held movement keys move the player in its own frame (x to the right, y
/// up, z ahead): W by (0, 0, 1), S by (0, 0, -1), A by (-1, 0, 0), D by
/// (1, 0, 0), Space by (0, 1, 0) and left Control by (0, -1, 0), in that
/// order; no other key moves the player.
pub proof fn lemma_movement_table(kb: Keyboard)
    ensures
        held_keys(kb, movement_keys()).map_values(|k: Key| movement_of(k)) == step_if_held(kb, Key::KeyW, step(0, 0, 1))
            + step_if_held(kb, Key::KeyS, step(0, 0, -1)) + step_if_held(kb, Key::KeyA, step(-1, 0, 0))
            + step_if_held(kb, Key::KeyD, step(1, 0, 0)) + step_if_held(kb, Key::Space, step(0, 1, 0))
            + step_if_held(kb, Key::ControlLeft, step(0, -1, 0)),
        forall|k: Key|
            #[trigger] held_keys(kb, movement_keys()).contains(k) <==> (k == Key::KeyW || k == Key::KeyS
                || k == Key::KeyA || k == Key::KeyD || k == Key::Space || k == Key::ControlLeft)
                && kb@.dom().contains(k) && kb@[k],
{
    let keys = movement_keys();
    lemma_held_keys(kb, keys);
    let k5 = keys.drop_last();
    let k4 = k5.drop_last();
    let k3 = k4.drop_last();
    let k2 = k3.drop_last();
    let k1 = k2.drop_last();
    let k0 = k1.drop_last();
    assert(k5 =~= seq![Key::KeyW, Key::KeyS, Key::KeyA, Key::KeyD, Key::Space]);
    assert(k4 =~= seq![Key::KeyW, Key::KeyS, Key::KeyA, Key::KeyD]);
    assert(k3 =~= seq![Key::KeyW, Key::KeyS, Key::KeyA]);
    assert(k2 =~= seq![Key::KeyW, Key::KeyS]);
    assert(k1 =~= seq![Key::KeyW]);
    assert(k0 =~= Seq::<Key>::empty());
    assert(held_keys(kb, k0) =~= Seq::<Key>::empty());
    let f = |k: Key| movement_of(k);
    lemma_held_map_last(kb, k1, f);
    lemma_held_map_last(kb, k2, f);
    lemma_held_map_last(kb, k3, f);
    lemma_held_map_last(kb, k4, f);
    lemma_held_map_last(kb, k5, f);
    lemma_held_map_last(kb, keys, f);
    assert(held_keys(kb, k0).map_values(f) =~= Seq::<Step>::empty());
    assert(held_keys(kb, keys).map_values(f) =~= step_if_held(kb, Key::KeyW, step(0, 0, 1))
        + step_if_held(kb, Key::KeyS, step(0, 0, -1)) + step_if_held(kb, Key::KeyA, step(-1, 0, 0))
        + step_if_held(kb, Key::KeyD, step(1, 0, 0)) + step_if_held(kb, Key::Space, step(0, 1, 0))
        + step_if_held(kb, Key::ControlLeft, step(0, -1, 0)));
    assert forall|k: Key| #[trigger] held_keys(kb, keys).contains(k) <==> (k == Key::KeyW || k == Key::KeyS
        || k == Key::KeyA || k == Key::KeyD || k == Key::Space || k == Key::ControlLeft) && kb@.dom().contains(k)
        && kb@[k] by {
        if held_keys(kb, keys).contains(k) {
            let i = choose|i: int| 0 <= i < held_keys(kb, keys).len() && held_keys(kb, keys)[i] == k;
            assert(keys.contains(held_keys(kb, keys)[i]));
        }
        if k == Key::KeyW {
            assert(keys[0] == k);
        } else if k == Key::KeyS {
            assert(keys[1] == k);
        } else if k == Key::KeyA {
            assert(keys[2] == k);
        } else if k == Key::KeyD {
            assert(keys[3] == k);
        } else if k == Key::Space {
            assert(keys[4] == k);
        } else if k == Key::ControlLeft {
            assert(keys[5] == k);
        }
    }
}

/// The `i`-th movement key.
fn movement_key(i: usize) -> (k: Key)
    requires
        i < 6,
    ensures
        k == movement_keys()[i as int],
{
    if i == 0 {
        Key::KeyW
    } else if i == 1 {
        Key::KeyS
    } else if i == 2 {
        Key::KeyA
    } else if i == 3 {
        Key::KeyD
    } else if i == 4 {
        Key::Space
    } else {
        Key::ControlLeft
    }
}

/// The `i`-th rotation key.
fn rotation_key(i: usize) -> (k: Key)
    requires
        i < 4,
    ensures
        k == rotation_keys()[i as int],
{
    if i == 0 {
        Key::ArrowLeft
    } else if i == 1 {
        Key::ArrowRight
    } else if i == 2 {
        Key::ArrowUp
    } else {
        Key::ArrowDown
    }
}

/// The move of movement key `k`.
fn movement_step(k: Key) -> (s: Step)
    ensures
        s == movement_of(k),
{
    match k {
        Key::KeyW => Step { x: 0, y: 0, z: 1 },
        Key::KeyS => Step { x: 0, y: 0, z: -1 },
        Key::KeyA => Step { x: -1, y: 0, z: 0 },
        Key::KeyD => Step { x: 1, y: 0, z: 0 },
        Key::Space => Step { x: 0, y: 1, z: 0 },
        _ => Step { x: 0, y: -1, z: 0 },
    }
}

/// The turn of rotation key `k`.
fn rotation_step(k: Key) -> (s: Step)
    ensures
        s == rotation_of(k),
{
    match k {
        Key::ArrowLeft => Step { x: 0, y: 0, z: -1 },
        Key::ArrowRight => Step { x: 0, y: 0, z: 1 },
        Key::ArrowUp => Step { x: 1, y: 0, z: 0 },
        _ => Step { x: -1, y: 0, z: 0 },
    }
}

} // verus!
