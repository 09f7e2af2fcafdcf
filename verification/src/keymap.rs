//! The rebindable key map of the gameplay movement keys.
//!
//! Each backend decodes physical keys into the same semantic actions; this map
//! says which canonical key drives each action.

use crate::text::same_text;
use vstd::prelude::*;

verus! {

/// A canonical, backend-agnostic key.
#[derive(Debug, Clone, Copy, PartialEq, Eq, Hash, Structural)]
pub enum Key {
    A,
    B,
    C,
    D,
    E,
    F,
    G,
    H,
    I,
    J,
    K,
    L,
    M,
    N,
    O,
    P,
    Q,
    R,
    S,
    T,
    U,
    V,
    W,
    X,
    Y,
    Z,
    Up,
    Down,
    Left,
    Right,
    Shift,
    Ctrl,
    Alt,
    Space,
    Tab,
    Enter,
    Escape,
}

/// A rebindable gameplay action.
#[derive(Debug, Clone, Copy, PartialEq, Eq, Hash, Structural)]
pub enum Bindable {
    Forward,
    Backward,
    Left,
    Right,
    Sprint,
    Jump,
    Interact,
}

/// The settings key text of an action.
pub open spec fn setting_text(action: Bindable) -> Seq<char> {
    match action {
        Bindable::Forward => "key_forward"@,
        Bindable::Backward => "key_backward"@,
        Bindable::Left => "key_left"@,
        Bindable::Right => "key_right"@,
        Bindable::Sprint => "key_sprint"@,
        Bindable::Jump => "key_jump"@,
        Bindable::Interact => "key_interact"@,
    }
}

impl Bindable {
    /// Every rebindable action, in settings row order.
    pub const ALL: [Bindable; 7] = [
        Bindable::Forward,
        Bindable::Backward,
        Bindable::Left,
        Bindable::Right,
        Bindable::Sprint,
        Bindable::Jump,
        Bindable::Interact,
    ];

    /// The settings key used in `setting:<key>:rebind` actions.
    pub fn setting_key(self) -> (r: &'static str)
        ensures
            r@ == setting_text(self),
    {
        match self {
            Bindable::Forward => "key_forward",
            Bindable::Backward => "key_backward",
            Bindable::Left => "key_left",
            Bindable::Right => "key_right",
            Bindable::Sprint => "key_sprint",
            Bindable::Jump => "key_jump",
            Bindable::Interact => "key_interact",
        }
    }

    /// The action of a settings key, or `None` where it is no rebind key.
    pub fn from_setting_key(key: &str) -> (r: Option<Bindable>)
        ensures
            r matches Some(b) ==> setting_text(b) == key@,
            r is None ==> forall|b: Bindable| #[trigger] setting_text(b) != key@,
    {
        let mut i: usize = 0;
        while i < 7
            invariant
                i <= 7,
                forall|k: int| 0 <= k < i ==> setting_text(#[trigger] Bindable::ALL[k]) != key@,
            decreases 7 - i,
        {
            let b: Bindable = Bindable::ALL[i];
            if same_text(b.setting_key(), key) {
                return Some(b);
            }
            i = i + 1;
        }
        proof {
            assert forall|b: Bindable| #[trigger] setting_text(b) != key@ by {
                lemma_all_lists_every_action(b);
            }
        }
        None
    }
}

/// Every action stands in [`Bindable::ALL`], at its row.
pub proof fn lemma_all_lists_every_action(b: Bindable)
    ensures
        0 <= row(b) < 7,
        Bindable::ALL[row(b)] == b,
{
}

/// The settings row of an action: its index in [`Bindable::ALL`].
pub open spec fn row(b: Bindable) -> int {
    match b {
        Bindable::Forward => 0,
        Bindable::Backward => 1,
        Bindable::Left => 2,
        Bindable::Right => 3,
        Bindable::Sprint => 4,
        Bindable::Jump => 5,
        Bindable::Interact => 6,
    }
}

/// The settings keys tell the actions apart.
pub proof fn law_setting_key_injective(a: Bindable, b: Bindable)
    requires
        setting_text(a) == setting_text(b),
    ensures
        a == b,
{
    reveal_strlit("key_forward");
    reveal_strlit("key_backward");
    reveal_strlit("key_left");
    reveal_strlit("key_right");
    reveal_strlit("key_sprint");
    reveal_strlit("key_jump");
    reveal_strlit("key_interact");
    assert("key_forward"@[4] == 'f');
    assert("key_backward"@[4] == 'b');
    assert("key_left"@[4] == 'l');
    assert("key_right"@[4] == 'r');
    assert("key_sprint"@[4] == 's');
    assert("key_jump"@[4] == 'j');
    assert("key_interact"@[4] == 'i');
    assert(setting_text(a)[4] == setting_text(b)[4]);
}

/// The canonical map from actions to keys.
#[derive(Debug, Clone, Copy, PartialEq, Eq, Structural)]
pub struct KeyMap {
    pub forward: Key,
    pub backward: Key,
    pub left: Key,
    pub right: Key,
    pub sprint: Key,
    pub jump: Key,
    pub interact: Key,
}

impl KeyMap {
    /// The key bound to an action.
    pub open spec fn bound(self, action: Bindable) -> Key {
        match action {
            Bindable::Forward => self.forward,
            Bindable::Backward => self.backward,
            Bindable::Left => self.left,
            Bindable::Right => self.right,
            Bindable::Sprint => self.sprint,
            Bindable::Jump => self.jump,
            Bindable::Interact => self.interact,
        }
    }

    /// No key is bound to two actions.
    pub open spec fn injective(self) -> bool {
        forall|a: Bindable, b: Bindable|
            #![trigger self.bound(a), self.bound(b)]
            self.bound(a) == self.bound(b) ==> a == b
    }

    /// The first action, in row order, that a key is bound to.
    pub open spec fn holder(self, key: Key) -> Option<Bindable> {
        if self.forward == key {
            Some(Bindable::Forward)
        } else if self.backward == key {
            Some(Bindable::Backward)
        } else if self.left == key {
            Some(Bindable::Left)
        } else if self.right == key {
            Some(Bindable::Right)
        } else if self.sprint == key {
            Some(Bindable::Sprint)
        } else if self.jump == key {
            Some(Bindable::Jump)
        } else if self.interact == key {
            Some(Bindable::Interact)
        } else {
            None
        }
    }

    /// The key bound to an action.
    pub fn get(self, action: Bindable) -> (r: Key)
        ensures
            r == self.bound(action),
    {
        match action {
            Bindable::Forward => self.forward,
            Bindable::Backward => self.backward,
            Bindable::Left => self.left,
            Bindable::Right => self.right,
            Bindable::Sprint => self.sprint,
            Bindable::Jump => self.jump,
            Bindable::Interact => self.interact,
        }
    }

    /// Bind an action to a key; a key bound elsewhere stays bound there too.
    pub fn set(&mut self, action: Bindable, key: Key)
        ensures
            forall|b: Bindable|
                #[trigger] final(self).bound(b) == if b == action {
                    key
                } else {
                    old(self).bound(b)
                },
    {
        match action {
            Bindable::Forward => self.forward = key,
            Bindable::Backward => self.backward = key,
            Bindable::Left => self.left = key,
            Bindable::Right => self.right = key,
            Bindable::Sprint => self.sprint = key,
            Bindable::Jump => self.jump = key,
            Bindable::Interact => self.interact = key,
        }
    }

    /// The action a key is bound to, the first in row order, or `None`.
    pub fn action_for_key(self, key: Key) -> (r: Option<Bindable>)
        ensures
            r == self.holder(key),
            r matches Some(b) ==> self.bound(b) == key && (forall|a: Bindable|
                #[trigger] self.bound(a) == key ==> row(b) <= row(a)),
            r is None ==> forall|a: Bindable| #[trigger] self.bound(a) != key,
    {
        let mut i: usize = 0;
        while i < 7
            invariant
                i <= 7,
                forall|a: Bindable| #[trigger] row(a) < i ==> self.bound(a) != key,
            decreases 7 - i,
        {
            let b: Bindable = Bindable::ALL[i];
            proof {
                lemma_row_of_all(i as int);
            }
            if self.get(b) == key {
                proof {
                    assert forall|a: Bindable| #[trigger] self.bound(a) == key implies row(b) <= row(
                        a,
                    ) by {
                        if row(a) < row(b) {
                        }
                    }
                    self.lemma_holder_is_first(b, key);
                }
                return Some(b);
            }
            proof {
                assert forall|a: Bindable| #[trigger] row(a) < i + 1 implies self.bound(a) != key by {
                    if row(a) == i {
                        lemma_all_lists_every_action(a);
                    }
                }
            }
            i = i + 1;
        }
        proof {
            assert forall|a: Bindable| #[trigger] self.bound(a) != key by {
                lemma_all_lists_every_action(a);
                assert(row(a) < 7);
            }
            assert(row(Bindable::Forward) < 7 && row(Bindable::Backward) < 7 && row(Bindable::Left)
                < 7 && row(Bindable::Right) < 7 && row(Bindable::Sprint) < 7 && row(Bindable::Jump)
                < 7 && row(Bindable::Interact) < 7);
        }
        None
    }

    /// The holder is the first action in row order that has the key.
    proof fn lemma_holder_is_first(self, b: Bindable, key: Key)
        requires
            self.bound(b) == key,
            forall|a: Bindable| #[trigger] row(a) < row(b) ==> self.bound(a) != key,
        ensures
            self.holder(key) == Some(b),
    {
        assert(row(Bindable::Forward) < row(b) ==> self.bound(Bindable::Forward) != key);
        assert(row(Bindable::Backward) < row(b) ==> self.bound(Bindable::Backward) != key);
        assert(row(Bindable::Left) < row(b) ==> self.bound(Bindable::Left) != key);
        assert(row(Bindable::Right) < row(b) ==> self.bound(Bindable::Right) != key);
        assert(row(Bindable::Sprint) < row(b) ==> self.bound(Bindable::Sprint) != key);
        assert(row(Bindable::Jump) < row(b) ==> self.bound(Bindable::Jump) != key);
    }

    /// Bind `action` to `new_key`; the action that held it, if another one did,
    /// takes over the old key.
    pub fn rebind(&mut self, action: Bindable, new_key: Key)
        ensures
            forall|b: Bindable|
                #[trigger] final(self).bound(b) == rebound(*old(self), action, new_key, b),
    {
        let old_key: Key = self.get(action);
        if old_key == new_key {
            return ;
        }
        match self.action_for_key(new_key) {
            Some(other) => {
                if other != action {
                    self.set(other, old_key);
                }
            },
            None => {},
        }
        self.set(action, new_key);
    }
}

/// The action at an index of [`Bindable::ALL`] has that row.
proof fn lemma_row_of_all(i: int)
    requires
        0 <= i < 7,
    ensures
        row(Bindable::ALL[i]) == i,
{
}

/// The bindings before any rebind.
pub open spec fn default_keymap() -> KeyMap {
    KeyMap {
        forward: Key::W,
        backward: Key::S,
        left: Key::A,
        right: Key::D,
        sprint: Key::Shift,
        jump: Key::Space,
        interact: Key::E,
    }
}

impl Default for KeyMap {
    fn default() -> (r: Self)
        ensures
            r == default_keymap(),
    {
        KeyMap {
            forward: Key::W,
            backward: Key::S,
            left: Key::A,
            right: Key::D,
            sprint: Key::Shift,
            jump: Key::Space,
            interact: Key::E,
        }
    }
}

/// The key a persisted map falls back to where it lacks the forward field.
pub fn def_forward() -> (r: Key)
    ensures
        r == default_keymap().forward,
{
    KeyMap::default().forward
}

/// The key a persisted map falls back to where it lacks the backward field.
pub fn def_backward() -> (r: Key)
    ensures
        r == default_keymap().backward,
{
    KeyMap::default().backward
}

/// The key a persisted map falls back to where it lacks the left field.
pub fn def_left() -> (r: Key)
    ensures
        r == default_keymap().left,
{
    KeyMap::default().left
}

/// The key a persisted map falls back to where it lacks the right field.
pub fn def_right() -> (r: Key)
    ensures
        r == default_keymap().right,
{
    KeyMap::default().right
}

/// The key a persisted map falls back to where it lacks the sprint field.
pub fn def_sprint() -> (r: Key)
    ensures
        r == default_keymap().sprint,
{
    KeyMap::default().sprint
}

/// The key a persisted map falls back to where it lacks the jump field.
pub fn def_jump() -> (r: Key)
    ensures
        r == default_keymap().jump,
{
    KeyMap::default().jump
}

/// The key a persisted map falls back to where it lacks the interact field.
pub fn def_interact() -> (r: Key)
    ensures
        r == default_keymap().interact,
{
    KeyMap::default().interact
}

/// The key that `b` is bound to once `action` has been rebound to `new_key`.
pub open spec fn rebound(map: KeyMap, action: Bindable, new_key: Key, b: Bindable) -> Key {
    if b == action {
        new_key
    } else if map.holder(new_key) == Some(b) && map.bound(action) != new_key {
        map.bound(action)
    } else {
        map.bound(b)
    }
}

/// Rebinding keeps each key bound to at most one action.
pub proof fn law_rebind_keeps_keys_distinct(before: KeyMap, after: KeyMap, action: Bindable, key: Key)
    requires
        before.injective(),
        forall|b: Bindable| #[trigger] after.bound(b) == rebound(before, action, key, b),
    ensures
        after.injective(),
{
    before.lemma_injective_holder(key);
    assert forall|a: Bindable, b: Bindable|
        #![trigger after.bound(a), after.bound(b)]
        after.bound(a) == after.bound(b) implies a == b by {
        assert(before.bound(a) == before.bound(b) ==> a == b);
        assert(before.bound(a) == before.bound(action) ==> a == action);
        assert(before.bound(b) == before.bound(action) ==> b == action);
    }
}

impl KeyMap {
    /// In an injective map the holder of a key is whichever action has it.
    proof fn lemma_injective_holder(self, key: Key)
        requires
            self.injective(),
        ensures
            forall|b: Bindable| #[trigger] self.bound(b) == key ==> self.holder(key) == Some(b),
    {
        assert forall|b: Bindable| #[trigger] self.bound(b) == key implies self.holder(key) == Some(
            b,
        ) by {
            let h = self.holder(key);
            assert(h is Some);
            assert(self.bound(h->0) == key);
        }
    }
}

/// In a map whose keys are distinct, looking up the key of an action finds that
/// action.
pub proof fn law_lookup_inverts_binding(map: KeyMap, b: Bindable)
    requires
        map.injective(),
    ensures
        map.holder(map.bound(b)) == Some(b),
{
    map.lemma_injective_holder(map.bound(b));
}

/// A rebind is undone by rebinding the action to its former key.
pub proof fn law_rebind_undone(map: KeyMap, once: KeyMap, twice: KeyMap, action: Bindable, key: Key)
    requires
        map.injective(),
        forall|b: Bindable| #[trigger] once.bound(b) == rebound(map, action, key, b),
        forall|b: Bindable|
            #[trigger] twice.bound(b) == rebound(once, action, map.bound(action), b),
    ensures
        twice == map,
{
    law_rebind_keeps_keys_distinct(map, once, action, key);
    map.lemma_injective_holder(key);
    once.lemma_injective_holder(map.bound(action));
    assert forall|b: Bindable| #[trigger] twice.bound(b) == map.bound(b) by {
        assert(once.bound(b) == rebound(map, action, key, b));
        assert(once.bound(action) == key);
        assert(map.bound(b) == map.bound(action) ==> b == action);
        if b != action && map.bound(b) == key {
            assert(once.bound(b) == map.bound(action));
        }
    }
    assert(twice.bound(Bindable::Forward) == map.bound(Bindable::Forward));
    assert(twice.bound(Bindable::Backward) == map.bound(Bindable::Backward));
    assert(twice.bound(Bindable::Left) == map.bound(Bindable::Left));
    assert(twice.bound(Bindable::Right) == map.bound(Bindable::Right));
    assert(twice.bound(Bindable::Sprint) == map.bound(Bindable::Sprint));
    assert(twice.bound(Bindable::Jump) == map.bound(Bindable::Jump));
    assert(twice.bound(Bindable::Interact) == map.bound(Bindable::Interact));
}

/// The default bindings use distinct keys.
pub proof fn law_default_keys_distinct()
    ensures
        default_keymap().injective(),
{
}

/// An action is bound by the field of its own name.
pub proof fn law_action_is_bound_by_its_field(map: KeyMap)
    ensures
        map.bound(Bindable::Forward) == map.forward,
        map.bound(Bindable::Backward) == map.backward,
        map.bound(Bindable::Left) == map.left,
        map.bound(Bindable::Right) == map.right,
        map.bound(Bindable::Sprint) == map.sprint,
        map.bound(Bindable::Jump) == map.jump,
        map.bound(Bindable::Interact) == map.interact,
{
}

/// The rows of the actions are known by these keys, in this order.
pub proof fn law_actions_are_known_by_their_keys()
    ensures
        setting_text(Bindable::ALL[0]) == "key_forward"@,
        setting_text(Bindable::ALL[1]) == "key_backward"@,
        setting_text(Bindable::ALL[2]) == "key_left"@,
        setting_text(Bindable::ALL[3]) == "key_right"@,
        setting_text(Bindable::ALL[4]) == "key_sprint"@,
        setting_text(Bindable::ALL[5]) == "key_jump"@,
        setting_text(Bindable::ALL[6]) == "key_interact"@,
        Bindable::ALL[0] is Forward,
        Bindable::ALL[1] is Backward,
        Bindable::ALL[2] is Left,
        Bindable::ALL[3] is Right,
        Bindable::ALL[4] is Sprint,
        Bindable::ALL[5] is Jump,
        Bindable::ALL[6] is Interact,
{
}

/// Rebinding an action gives it the key, gives whoever held that key the action's former one,
/// and leaves every other action as it is, where no key is bound twice.
pub proof fn law_rebind_swaps(
    before: KeyMap,
    after: KeyMap,
    action: Bindable,
    key: Key,
    b: Bindable,
)
    requires
        before.injective(),
        forall|x: Bindable| #[trigger] after.bound(x) == rebound(before, action, key, x),
    ensures
        after.bound(action) == key,
        b != action && before.bound(b) == key ==> after.bound(b) == before.bound(action),
        b != action && before.bound(b) != key ==> after.bound(b) == before.bound(b),
{
    before.lemma_injective_holder(key);
    assert(after.bound(action) == rebound(before, action, key, action));
    assert(after.bound(b) == rebound(before, action, key, b));
    assert(before.bound(b) == before.bound(action) ==> b == action);
}

/// The bindings before any rebind.
pub proof fn law_keys_before_any_rebind()
    ensures
        default_keymap().forward is W,
        default_keymap().backward is S,
        default_keymap().left is A,
        default_keymap().right is D,
        default_keymap().sprint is Shift,
        default_keymap().jump is Space,
        default_keymap().interact is E,
{
}

} // verus!
