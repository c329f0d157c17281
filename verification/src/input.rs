//! Keyboard state across frames: which keys went down this frame, which are
//! held, and which came up this frame.
//!
//! Keys are identified by a `u32` code chosen by the caller; the mapping from
//! platform key codes to these numbers is the caller's business.

use vstd::prelude::*;
use std::collections::HashSet;

verus! {

/// A keyboard event, already reduced to the key it concerns.
#[derive(Clone, Copy, Debug)]
pub enum KeyEvent {
    Pressed(u32),
    Released(u32),
}

/// The three key sets that describe the keyboard at a point in time.
#[verifier::ext_equal]
pub struct KeySets {
    pub pressed: Set<u32>,
    pub held: Set<u32>,
    pub released: Set<u32>,
}

/// The key sets after the start of a new frame: keys that went down last
/// frame join the held keys, and the per-frame sets are emptied.
pub open spec fn next_frame(k: KeySets) -> KeySets {
    KeySets { pressed: Set::empty(), held: k.held.union(k.pressed), released: Set::empty() }
}

/// The key sets after one keyboard event.
///
/// A press of a key that is not held marks it as just pressed and held; a
/// press of a key that is already held (a repeat) changes nothing. A release
/// drops the key from the held keys and marks it as just released.
pub open spec fn after_event(k: KeySets, e: KeyEvent) -> KeySets {
    match e {
        KeyEvent::Pressed(key) => if k.held.contains(key) {
            k
        } else {
            KeySets { pressed: k.pressed.insert(key), held: k.held.insert(key), released: k.released }
        },
        KeyEvent::Released(key) => KeySets {
            pressed: k.pressed,
            held: k.held.remove(key),
            released: k.released.insert(key),
        },
    }
}

/// Keyboard state of the running application.
pub struct InputState {
    keys_pressed: HashSet<u32>,
    keys_held: HashSet<u32>,
    keys_released: HashSet<u32>,
}

impl View for InputState {
    type V = KeySets;

    closed spec fn view(&self) -> KeySets {
        KeySets {
            pressed: self.keys_pressed@,
            held: self.keys_held@,
            released: self.keys_released@,
        }
    }
}

impl Default for InputState {
    /// No key pressed, held or released, as `new` makes it.
    fn default() -> (s: Self)
        ensures
            s@.pressed == Set::<u32>::empty(),
            s@.held == Set::<u32>::empty(),
            s@.released == Set::<u32>::empty(),
    {
        Self::new()
    }
}

impl InputState {
    /// No key pressed, held or released.
    pub fn new() -> (s: Self)
        ensures
            s@.pressed == Set::<u32>::empty(),
            s@.held == Set::<u32>::empty(),
            s@.released == Set::<u32>::empty(),
    {
        InputState { keys_pressed: HashSet::new(), keys_held: HashSet::new(), keys_released: HashSet::new() }
    }

    /// The key went down during the current frame.
    pub fn is_just_pressed(&self, key: u32) -> (r: bool)
        ensures
            r == self@.pressed.contains(key),
    {
        broadcast use vstd::std_specs::hash::group_hash_axioms;
        self.keys_pressed.contains(&key)
    }

    /// The key is down.
    pub fn is_held(&self, key: u32) -> (r: bool)
        ensures
            r == self@.held.contains(key),
    {
        broadcast use vstd::std_specs::hash::group_hash_axioms;
        self.keys_held.contains(&key)
    }

    /// The key came up during the current frame.
    pub fn is_just_released(&self, key: u32) -> (r: bool)
        ensures
            r == self@.released.contains(key),
    {
        broadcast use vstd::std_specs::hash::group_hash_axioms;
        self.keys_released.contains(&key)
    }

    /// Starts a new frame.
    pub fn begin_frame(&mut self)
        ensures
            final(self)@ == next_frame(old(self)@),
    {
        broadcast use vstd::std_specs::hash::group_hash_axioms;
        let mut pressed: HashSet<u32> = HashSet::new();
        std::mem::swap(&mut pressed, &mut self.keys_pressed);
        let ghost held0 = self.keys_held@;
        assert(held0 == old(self).keys_held@);
        for key in it: pressed.iter()
            invariant
                it.seq().unref().to_set() == pressed@,
                pressed@ == old(self).keys_pressed@,
                self.keys_pressed@ == Set::<u32>::empty(),
                forall|k: u32|
                    #[trigger] self.keys_held@.contains(k) <==> (held0.contains(k) || exists|i: int|
                        0 <= i < it.index() && it.seq().unref()[i] == k),
            ensures
                self.keys_held@ == held0.union(pressed@),
                self.keys_pressed@ == Set::<u32>::empty(),
        {
            let ghost idx = it.index();
            self.keys_held.insert(*key);
            assert(it.seq().unref()[idx] == *key);
        }
        self.keys_released.clear();
        assert(self@ =~= next_frame(old(self)@));
    }

    /// Applies one keyboard event.
    pub fn process_event(&mut self, event: KeyEvent)
        ensures
            final(self)@ == after_event(old(self)@, event),
    {
        broadcast use vstd::std_specs::hash::group_hash_axioms;
        match event {
            KeyEvent::Pressed(key) => {
                if !self.keys_held.contains(&key) {
                    self.keys_pressed.insert(key);
                    self.keys_held.insert(key);
                }
            },
            KeyEvent::Released(key) => {
                self.keys_held.remove(&key);
                self.keys_released.insert(key);
            },
        }
    }
}

/// Every key reported as just pressed is either still held or was released
/// again during the same frame.
pub open spec fn pressed_accounted_for(k: KeySets) -> bool {
    forall|key: u32| #[trigger] k.pressed.contains(key) ==> k.held.contains(key) || k.released.contains(key)
}

/// A fresh keyboard state accounts for its pressed keys, and so does every
/// state reached from it by keyboard events and frame starts.
pub proof fn lemma_pressed_accounted_for_is_kept(k: KeySets, e: KeyEvent)
    requires
        pressed_accounted_for(k),
    ensures
        pressed_accounted_for(after_event(k, e)),
        pressed_accounted_for(next_frame(k)),
        pressed_accounted_for(
            KeySets { pressed: Set::empty(), held: Set::empty(), released: Set::empty() },
        ),
{
}

/// Starting a frame twice in a row has the same effect as starting it once.
pub proof fn lemma_next_frame_idempotent(k: KeySets)
    ensures
        next_frame(next_frame(k)) =~= next_frame(k),
{
}

/// A frame start never lets go of a held key, and everything pressed during
/// the frame that ends is held in the next one.
pub proof fn lemma_next_frame_keeps_keys(k: KeySets, key: u32)
    ensures
        k.held.contains(key) ==> next_frame(k).held.contains(key),
        k.pressed.contains(key) ==> next_frame(k).held.contains(key),
{
}

/// Pressing a key that is up and then releasing it within one frame leaves
/// it up, reported both as just pressed and as just released.
pub proof fn lemma_tap_within_frame(k: KeySets, key: u32)
    requires
        !k.held.contains(key),
    ensures
        ({
            let after = after_event(after_event(k, KeyEvent::Pressed(key)), KeyEvent::Released(key));
            &&& !after.held.contains(key)
            &&& after.pressed.contains(key)
            &&& after.released.contains(key)
        }),
{
}

/// Holding a key down and receiving repeated presses for it changes nothing.
pub proof fn lemma_repeat_press_ignored(k: KeySets, key: u32)
    requires
        k.held.contains(key),
    ensures
        after_event(k, KeyEvent::Pressed(key)) == k,
{
}

/// What one event does to one key, and that it leaves every other key
/// alone: a press of a key that is up makes it just pressed and held; a
/// release makes the key up and just released, without touching whether it
/// counts as just pressed.
pub proof fn lemma_event_effects(k: KeySets, key: u32, other: u32)
    requires
        other != key,
    ensures
        !k.held.contains(key) ==> {
            let a = after_event(k, KeyEvent::Pressed(key));
            &&& a.pressed.contains(key)
            &&& a.held.contains(key)
            &&& a.released.contains(key) == k.released.contains(key)
        },
        ({
            let a = after_event(k, KeyEvent::Released(key));
            &&& !a.held.contains(key)
            &&& a.released.contains(key)
            &&& a.pressed.contains(key) == k.pressed.contains(key)
        }),
        forall|e: KeyEvent| (e == KeyEvent::Pressed(key) || e == KeyEvent::Released(key)) ==> {
            let a = #[trigger] after_event(k, e);
            &&& a.pressed.contains(other) == k.pressed.contains(other)
            &&& a.held.contains(other) == k.held.contains(other)
            &&& a.released.contains(other) == k.released.contains(other)
        },
{
}

/// A frame start empties the per-frame sets, and a key is held afterwards
/// exactly when it was held or just pressed before.
pub proof fn lemma_next_frame_effects(k: KeySets, key: u32)
    ensures
        !next_frame(k).pressed.contains(key),
        !next_frame(k).released.contains(key),
        next_frame(k).held.contains(key) == (k.held.contains(key) || k.pressed.contains(key)),
{
}

} // verus!
