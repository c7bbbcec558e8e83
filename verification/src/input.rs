//! Keyboard state tracking and mouse subscription bookkeeping.
//!
//! Keys are identified by an integer code chosen by the window layer. Each
//! key moves through the states `Idle -> Down -> Held -> Up -> Idle`: a press
//! makes it `Down` for one frame, the frame update turns `Down` into `Held`
//! and `Up` into `Idle`.

use vstd::prelude::*;
use std::collections::HashMap;
use std::collections::HashSet;
use vstd::std_specs::iter::IteratorSpec;

verus! {

/// A mouse button as reported by the window layer.
#[derive(Copy, Clone, Debug, PartialEq, Eq, Structural)]
pub enum MouseButton {
    Left,
    Middle,
    Right,
    Back,
    Forward,
    Other(u16),
}

/// Where a key is in its press cycle.
#[derive(Copy, Clone, Debug, PartialEq, Eq, Structural)]
pub enum PressState {
    Idle,
    Down,
    Held,
    Up,
}

/// What is known about one key.
#[derive(Copy, Clone, Debug)]
pub struct KeyData {
    pub state: PressState,
}

impl KeyData {
    /// A key that has never been touched, or was released a frame ago.
    pub fn none() -> (k: KeyData)
        ensures
            k.state == PressState::Idle,
    {
        KeyData { state: PressState::Idle }
    }
}


/// Identifies one mouse subscription; ids are handed out in increasing order.
#[derive(Clone, Copy, Debug, PartialEq, Eq, Hash, Structural)]
pub struct SubscriptionId(u64);

impl SubscriptionId {
    /// The number behind this id.
    pub closed spec fn value(self) -> u64 {
        self.0
    }

    /// The number behind this id.
    pub fn raw(&self) -> (r: u64)
        ensures
            r == self.value(),
    {
        self.0
    }
}

/// The kind of mouse event that a subscription listens to.
#[derive(Clone, Copy, Debug, PartialEq, Eq, Structural)]
pub enum MouseEventKind {
    Down,
    Up,
    Move,
}

/// A handle to a live mouse subscription, used to cancel it.
#[derive(Clone, Copy, Debug)]
pub struct MouseSubscription {
    pub id: SubscriptionId,
    pub kind: MouseEventKind,
}

/// The state a key is in after the key has been pressed.
///
/// A key that is already down or held stays as it is, so holding a key does
/// not report a fresh press on each repeat.
pub open spec fn pressed_state(s: PressState) -> PressState {
    if s == PressState::Down || s == PressState::Held {
        s
    } else {
        PressState::Down
    }
}

/// The state a key is in after one frame has passed.
pub open spec fn advanced_state(s: PressState) -> PressState {
    match s {
        PressState::Up => PressState::Idle,
        PressState::Down => PressState::Held,
        _ => s,
    }
}

/// The state of `key` in a key map; keys never seen are `Idle`.
pub open spec fn state_of(keys: Map<u32, PressState>, key: u32) -> PressState {
    if keys.contains_key(key) {
        keys[key]
    } else {
        PressState::Idle
    }
}

/// Whether a state counts as the key being pressed.
pub open spec fn is_active_state(s: PressState) -> bool {
    s == PressState::Down || s == PressState::Held
}

/// Keyboard states and the registry of live mouse subscriptions.
///
/// The callbacks themselves are kept by the caller, keyed by the
/// `SubscriptionId` that this registry hands out.
pub struct InputHandler {
    keys: HashMap<u32, KeyData>,
    next_sub_id: u64,
    mouse_down_subs: HashSet<u64>,
    mouse_up_subs: HashSet<u64>,
    mouse_move_subs: HashSet<u64>,
}

impl InputHandler {
    /// Every live subscription id is below the next id to hand out, so the
    /// next id is always fresh.
    pub open spec fn wf(&self) -> bool {
        forall|k: MouseEventKind, i: u64|
            #[trigger] self.subscriptions(k).contains(i) ==> i < self.next_id_value()
    }

    /// The press state of every key that has been seen.
    pub closed spec fn key_states(&self) -> Map<u32, PressState> {
        self.keys@.map_values(|d: KeyData| d.state)
    }

    /// The id that the next subscription will get.
    pub closed spec fn next_id_value(&self) -> u64 {
        self.next_sub_id
    }

    /// The ids of the live subscriptions of one kind.
    pub closed spec fn subscriptions(&self, kind: MouseEventKind) -> Set<u64> {
        match kind {
            MouseEventKind::Down => self.mouse_down_subs@,
            MouseEventKind::Up => self.mouse_up_subs@,
            MouseEventKind::Move => self.mouse_move_subs@,
        }
    }

    /// An empty handler: no key seen, no subscription.
    pub fn new() -> (h: InputHandler)
        ensures
            h.key_states() == Map::<u32, PressState>::empty(),
            h.wf(),
            h.next_id_value() == 0,
            forall|k: MouseEventKind| #[trigger] h.subscriptions(k) == Set::<u64>::empty(),
    {
        let h = InputHandler {
            keys: HashMap::with_capacity(104),
            next_sub_id: 0,
            mouse_down_subs: HashSet::new(),
            mouse_up_subs: HashSet::new(),
            mouse_move_subs: HashSet::new(),
        };
        assert(h.key_states() =~= Map::<u32, PressState>::empty());
        h
    }

    /// The codes of all keys that have been seen, each once.
    fn key_list(&self) -> (ks: Vec<u32>)
        ensures
            ks@.to_set() == self.keys@.dom(),
            ks@.no_duplicates(),
    {
        let ghost all = vstd::std_specs::hash::spec_keys_iter(&self.keys).remaining().unref();
        let mut ks: Vec<u32> = Vec::new();
        for k in it: self.keys.keys()
            invariant
                it.seq().unref() == all,
                ks@ == all.take(it.index()),
        {
            ks.push(*k);
        }
        assert(ks@ =~= all);
        ks
    }

    /// The record kept for `key`; a key never seen is `Idle`.
    pub fn get_key(&self, key: u32) -> (d: KeyData)
        ensures
            d.state == state_of(self.key_states(), key),
    {
        match self.keys.get(&key) {
            Some(d) => *d,
            None => KeyData::none(),
        }
    }

    /// Whether `key` is pressed, freshly or held.
    pub fn is_key_active(&self, key: u32) -> (b: bool)
        ensures
            b == is_active_state(state_of(self.key_states(), key)),
    {
        let state = self.get_key(key).state;
        state == PressState::Down || state == PressState::Held
    }

    /// Whether `key` went down in the current frame.
    pub fn is_key_down(&self, key: u32) -> (b: bool)
        ensures
            b == (state_of(self.key_states(), key) == PressState::Down),
    {
        self.get_key(key).state == PressState::Down
    }

    /// Records a press of `key`.
    fn activate_key(&mut self, key: u32)
        ensures
            final(self).key_states() == old(self).key_states().insert(
                key,
                pressed_state(state_of(old(self).key_states(), key)),
            ),
            final(self).next_id_value() == old(self).next_id_value(),
            forall|k: MouseEventKind| #[trigger] final(self).subscriptions(k) == old(self).subscriptions(k),
    {
        let current = self.get_key(key);
        if current.state != PressState::Down && current.state != PressState::Held {
            self.keys.insert(key, KeyData { state: PressState::Down });
        } else {
            self.keys.insert(key, current);
        }
        assert(self.key_states() =~= old(self).key_states().insert(
            key,
            pressed_state(state_of(old(self).key_states(), key)),
        ));
    }

    /// Records a release of `key`.
    fn deactivate_key(&mut self, key: u32)
        ensures
            final(self).key_states() == old(self).key_states().insert(key, PressState::Up),
            final(self).next_id_value() == old(self).next_id_value(),
            forall|k: MouseEventKind| #[trigger] final(self).subscriptions(k) == old(self).subscriptions(k),
    {
        self.keys.insert(key, KeyData { state: PressState::Up });
        assert(self.key_states() =~= old(self).key_states().insert(key, PressState::Up));
    }

    /// Moves every key one frame on: `Down` becomes `Held`, `Up` becomes `Idle`.
    pub fn update_key_state(&mut self)
        ensures
            final(self).key_states() == old(self).key_states().map_values(
                |s: PressState| advanced_state(s),
            ),
            final(self).next_id_value() == old(self).next_id_value(),
            forall|k: MouseEventKind| #[trigger] final(self).subscriptions(k) == old(self).subscriptions(k),
    {
        let ks = self.key_list();
        let ghost start = self.key_states();
        let mut j: usize = 0;
        while j < ks.len()
            invariant
                0 <= j <= ks.len(),
                ks@.to_set() == start.dom(),
                ks@.no_duplicates(),
                self.key_states().dom() == start.dom(),
                forall|k: u32| #[trigger] start.contains_key(k) ==> self.key_states()[k] == (
                    if ks@.take(j as int).contains(k) { advanced_state(start[k]) } else { start[k] }),
                self.next_id_value() == old(self).next_id_value(),
                self.mouse_down_subs@ == old(self).mouse_down_subs@,
                self.mouse_up_subs@ == old(self).mouse_up_subs@,
                self.mouse_move_subs@ == old(self).mouse_move_subs@,
                start == old(self).key_states(),
            decreases ks.len() - j,
        {
            let key = ks[j];
            assert(ks@.to_set().contains(key));
            let current = self.get_key(key);
            let next = match current.state {
                PressState::Up => PressState::Idle,
                PressState::Down => PressState::Held,
                s => s,
            };
            self.keys.insert(key, KeyData { state: next });
            proof {
                let pre = ks@.take(j as int);
                let post = ks@.take(j + 1);
                assert(post =~= pre.push(key));
                assert forall|k: u32| #[trigger] start.contains_key(k) implies self.key_states()[k] == (
                    if post.contains(k) { advanced_state(start[k]) } else { start[k] }) by {
                    if k == key {
                        assert(post[j as int] == key);
                        assert(!pre.contains(key)) by {
                            if pre.contains(key) {
                                let i = choose|i: int| 0 <= i < pre.len() && #[trigger] pre[i] == key;
                                assert(ks@[i] == ks@[j as int]);
                            }
                        }
                    } else {
                        assert(post.contains(k) == pre.contains(k)) by {
                            if post.contains(k) {
                                let i = choose|i: int| 0 <= i < post.len() && #[trigger] post[i] == k;
                                assert(pre[i] == k);
                            }
                            if pre.contains(k) {
                                let i = choose|i: int| 0 <= i < pre.len() && #[trigger] pre[i] == k;
                                assert(post[i] == k);
                            }
                        }
                    }
                }
                assert(self.key_states().dom() =~= start.dom());
            }
            j = j + 1;
        }
        proof {
            assert(ks@.take(ks.len() as int) =~= ks@);
            assert forall|k: u32| #[trigger] start.contains_key(k) implies ks@.contains(k) by {
                assert(ks@.to_set().contains(k));
            }
            assert(self.key_states() =~= start.map_values(|s: PressState| advanced_state(s)));
        }
    }

    /// The per-frame step: advances every key by one frame.
    pub fn main_loop(&mut self)
        ensures
            final(self).key_states() == old(self).key_states().map_values(
                |s: PressState| advanced_state(s),
            ),
            final(self).next_id_value() == old(self).next_id_value(),
            forall|k: MouseEventKind| #[trigger] final(self).subscriptions(k) == old(self).subscriptions(k),
    {
        self.update_key_state();
    }

    /// The id that the next subscription will get.
    pub fn next_free_id(&self) -> (n: u64)
        ensures
            n == self.next_id_value(),
    {
        self.next_sub_id
    }

    /// Hands out the next subscription id.
    fn next_id(&mut self) -> (id: SubscriptionId)
        requires
            old(self).next_id_value() < u64::MAX,
        ensures
            id.value() == old(self).next_id_value(),
            final(self).next_id_value() == old(self).next_id_value() + 1,
            final(self).key_states() == old(self).key_states(),
            forall|k: MouseEventKind| #[trigger] final(self).subscriptions(k) == old(self).subscriptions(k),
    {
        let id = SubscriptionId(self.next_sub_id);
        self.next_sub_id = self.next_sub_id + 1;
        id
    }

    /// Registers a subscription to mouse-button presses.
    ///
    /// The caller keeps the callback under the returned id.
    pub fn on_mouse_down(&mut self) -> (sub: MouseSubscription)
        requires
            old(self).wf(),
            old(self).next_id_value() < u64::MAX,
        ensures
            final(self).wf(),
            sub.kind == MouseEventKind::Down,
            sub.id.value() == old(self).next_id_value(),
            !old(self).subscriptions(MouseEventKind::Down).contains(sub.id.value()),
            final(self).next_id_value() == old(self).next_id_value() + 1,
            final(self).subscriptions(MouseEventKind::Down) == old(self).subscriptions(
                MouseEventKind::Down,
            ).insert(sub.id.value()),
            final(self).subscriptions(MouseEventKind::Up) == old(self).subscriptions(MouseEventKind::Up),
            final(self).subscriptions(MouseEventKind::Move) == old(self).subscriptions(MouseEventKind::Move),
            final(self).key_states() == old(self).key_states(),
    {
        let id = self.next_id();
        proof {
            assert(self.subscriptions(MouseEventKind::Down) == old(self).subscriptions(MouseEventKind::Down));
            assert(self.subscriptions(MouseEventKind::Up) == old(self).subscriptions(MouseEventKind::Up));
            assert(self.subscriptions(MouseEventKind::Move) == old(self).subscriptions(MouseEventKind::Move));
        }
        self.mouse_down_subs.insert(id.0);
        proof { self.lemma_wf_after_insert(*old(self), MouseEventKind::Down, id.0); }
        MouseSubscription { id, kind: MouseEventKind::Down }
    }

    /// Registers a subscription to mouse-button releases.
    ///
    /// The caller keeps the callback under the returned id.
    pub fn on_mouse_up(&mut self) -> (sub: MouseSubscription)
        requires
            old(self).wf(),
            old(self).next_id_value() < u64::MAX,
        ensures
            final(self).wf(),
            sub.kind == MouseEventKind::Up,
            sub.id.value() == old(self).next_id_value(),
            !old(self).subscriptions(MouseEventKind::Up).contains(sub.id.value()),
            final(self).next_id_value() == old(self).next_id_value() + 1,
            final(self).subscriptions(MouseEventKind::Up) == old(self).subscriptions(
                MouseEventKind::Up,
            ).insert(sub.id.value()),
            final(self).subscriptions(MouseEventKind::Down) == old(self).subscriptions(MouseEventKind::Down),
            final(self).subscriptions(MouseEventKind::Move) == old(self).subscriptions(MouseEventKind::Move),
            final(self).key_states() == old(self).key_states(),
    {
        let id = self.next_id();
        proof {
            assert(self.subscriptions(MouseEventKind::Down) == old(self).subscriptions(MouseEventKind::Down));
            assert(self.subscriptions(MouseEventKind::Up) == old(self).subscriptions(MouseEventKind::Up));
            assert(self.subscriptions(MouseEventKind::Move) == old(self).subscriptions(MouseEventKind::Move));
        }
        self.mouse_up_subs.insert(id.0);
        proof { self.lemma_wf_after_insert(*old(self), MouseEventKind::Up, id.0); }
        MouseSubscription { id, kind: MouseEventKind::Up }
    }

    /// Registers a subscription to mouse movement.
    ///
    /// The caller keeps the callback under the returned id.
    pub fn on_mouse_move(&mut self) -> (sub: MouseSubscription)
        requires
            old(self).wf(),
            old(self).next_id_value() < u64::MAX,
        ensures
            final(self).wf(),
            sub.kind == MouseEventKind::Move,
            sub.id.value() == old(self).next_id_value(),
            !old(self).subscriptions(MouseEventKind::Move).contains(sub.id.value()),
            final(self).next_id_value() == old(self).next_id_value() + 1,
            final(self).subscriptions(MouseEventKind::Move) == old(self).subscriptions(
                MouseEventKind::Move,
            ).insert(sub.id.value()),
            final(self).subscriptions(MouseEventKind::Down) == old(self).subscriptions(MouseEventKind::Down),
            final(self).subscriptions(MouseEventKind::Up) == old(self).subscriptions(MouseEventKind::Up),
            final(self).key_states() == old(self).key_states(),
    {
        let id = self.next_id();
        proof {
            assert(self.subscriptions(MouseEventKind::Down) == old(self).subscriptions(MouseEventKind::Down));
            assert(self.subscriptions(MouseEventKind::Up) == old(self).subscriptions(MouseEventKind::Up));
            assert(self.subscriptions(MouseEventKind::Move) == old(self).subscriptions(MouseEventKind::Move));
        }
        self.mouse_move_subs.insert(id.0);
        proof { self.lemma_wf_after_insert(*old(self), MouseEventKind::Move, id.0); }
        MouseSubscription { id, kind: MouseEventKind::Move }
    }

    /// A registration keeps the handler well formed.
    proof fn lemma_wf_after_insert(&self, before: InputHandler, kind: MouseEventKind, id: u64)
        requires
            before.wf(),
            id == before.next_id_value(),
            self.next_id_value() == id + 1,
            self.subscriptions(kind) == before.subscriptions(kind).insert(id),
            forall|k: MouseEventKind| k != kind ==> #[trigger] self.subscriptions(k) == before.subscriptions(k),
        ensures
            self.wf(),
    {
        assert forall|k: MouseEventKind, i: u64| #[trigger] self.subscriptions(k).contains(i)
            implies i < self.next_id_value() by {
            if k != kind {
                assert(before.subscriptions(k).contains(i));
            } else if i != id {
                assert(before.subscriptions(k).contains(i));
            }
        }
    }

    /// Cancels a subscription; the other subscriptions stay as they are.
    pub fn unsubscribe_mouse(&mut self, sub: MouseSubscription)
        requires
            old(self).wf(),
        ensures
            final(self).wf(),
            final(self).subscriptions(sub.kind) == old(self).subscriptions(sub.kind).remove(sub.id.value()),
            forall|k: MouseEventKind| k != sub.kind ==> #[trigger] final(self).subscriptions(k)
                == old(self).subscriptions(k),
            final(self).next_id_value() == old(self).next_id_value(),
            final(self).key_states() == old(self).key_states(),
    {
        match sub.kind {
            MouseEventKind::Down => {
                self.mouse_down_subs.remove(&sub.id.0);
            },
            MouseEventKind::Up => {
                self.mouse_up_subs.remove(&sub.id.0);
            },
            MouseEventKind::Move => {
                self.mouse_move_subs.remove(&sub.id.0);
            },
        }
        proof {
            assert forall|k: MouseEventKind, i: u64| #[trigger] self.subscriptions(k).contains(i)
                implies i < self.next_id_value() by {
                assert(old(self).subscriptions(k).contains(i));
            }
        }
    }

    /// Whether `sub` is still live.
    pub fn is_subscribed(&self, sub: MouseSubscription) -> (b: bool)
        ensures
            b == self.subscriptions(sub.kind).contains(sub.id.value()),
    {
        match sub.kind {
            MouseEventKind::Down => self.mouse_down_subs.contains(&sub.id.0),
            MouseEventKind::Up => self.mouse_up_subs.contains(&sub.id.0),
            MouseEventKind::Move => self.mouse_move_subs.contains(&sub.id.0),
        }
    }

    /// Handles a keyboard event: a press or a release of `key`.
    ///
    /// Returns `true` exactly when the event is a press of the key that ends
    /// the program (`is_escape`), which the caller uses to stop its loop.
    pub fn process_key_input(&mut self, key: u32, pressed: bool, is_escape: bool) -> (quit: bool)
        ensures
            quit == (pressed && is_escape),
            final(self).key_states() == old(self).key_states().insert(
                key,
                if pressed {
                    pressed_state(state_of(old(self).key_states(), key))
                } else {
                    PressState::Up
                },
            ),
            final(self).next_id_value() == old(self).next_id_value(),
            forall|k: MouseEventKind| #[trigger] final(self).subscriptions(k) == old(self).subscriptions(k),
    {
        if pressed {
            self.activate_key(key);
            if is_escape {
                return true;
            }
        } else {
            self.deactivate_key(key);
        }
        false
    }
}


/// A key that has just been pressed counts as active, whatever state it was
/// in before.
pub proof fn law_press_makes_active(keys: Map<u32, PressState>, key: u32)
    ensures
        is_active_state(state_of(keys.insert(key, pressed_state(state_of(keys, key))), key)),
{
}

/// A press reports `Down` for exactly one frame: one frame later the key is
/// `Held`. Pressing a key that is already held does not report a new press.
pub proof fn law_down_lasts_one_frame(s: PressState)
    ensures
        advanced_state(pressed_state(s)) == PressState::Held,
        pressed_state(PressState::Held) == PressState::Held,
{
}

/// A released key is `Up` for one frame and then `Idle`.
pub proof fn law_release_then_idle(keys: Map<u32, PressState>, key: u32)
    ensures
        state_of(keys.insert(key, PressState::Up), key) == PressState::Up,
        advanced_state(state_of(keys.insert(key, PressState::Up), key)) == PressState::Idle,
{
}

/// After a frame update no key is `Down` or `Up`, and a second update with
/// no event in between changes nothing.
pub proof fn law_frame_update_settles(s: PressState)
    ensures
        advanced_state(s) != PressState::Down,
        advanced_state(s) != PressState::Up,
        advanced_state(advanced_state(s)) == advanced_state(s),
{
}

/// The frame update acts on every key alike, including keys never seen,
/// which stay `Idle`.
pub proof fn law_frame_update_per_key(keys: Map<u32, PressState>, key: u32)
    ensures
        state_of(keys.map_values(|s: PressState| advanced_state(s)), key) == advanced_state(
            state_of(keys, key),
        ),
{
}

/// In a well-formed handler the next id belongs to no live subscription, so
/// every new subscription gets an id that no live one has.
pub proof fn law_next_id_is_fresh(h: &InputHandler, kind: MouseEventKind)
    requires
        h.wf(),
    ensures
        !h.subscriptions(kind).contains(h.next_id_value()),
{
    if h.subscriptions(kind).contains(h.next_id_value()) {
        assert(h.next_id_value() < h.next_id_value());
    }
}

/// The press and frame transitions, state by state: a press of a key that is
/// not pressed makes it `Down`, a press of a pressed key keeps its state; a
/// frame turns `Down` into `Held` and `Up` into `Idle` and keeps `Held` and
/// `Idle`. Only `Down` and `Held` count as active, and a key never seen is
/// `Idle`.
pub proof fn law_transition_table(keys: Map<u32, PressState>, key: u32)
    ensures
        pressed_state(PressState::Idle) == PressState::Down,
        pressed_state(PressState::Up) == PressState::Down,
        pressed_state(PressState::Down) == PressState::Down,
        pressed_state(PressState::Held) == PressState::Held,
        advanced_state(PressState::Down) == PressState::Held,
        advanced_state(PressState::Up) == PressState::Idle,
        advanced_state(PressState::Held) == PressState::Held,
        advanced_state(PressState::Idle) == PressState::Idle,
        is_active_state(PressState::Down),
        is_active_state(PressState::Held),
        !is_active_state(PressState::Up),
        !is_active_state(PressState::Idle),
        !keys.contains_key(key) ==> state_of(keys, key) == PressState::Idle,
        keys.contains_key(key) ==> state_of(keys, key) == keys[key],
{
}

} // verus!
