//! Keys: what the keyboard has, what the game makes of it, and which are held.

use vstd::prelude::*;

verus! {

/// Keys of the keyboard that do something.
#[derive(Clone, Copy, Debug, PartialEq, Eq, Structural)]
pub enum KeyCode {
    KeyA,
    KeyC,
    KeyD,
    KeyE,
    KeyF,
    KeyG,
    KeyI,
    KeyP,
    KeyQ,
    KeyS,
    KeyT,
    KeyV,
    KeyW,
    KeyX,
    KeyZ,
    /// 1 to 9.
    Digit(u8),
    Space,
    ControlLeft,
    ShiftLeft,
    Tab,
    Enter,
    Escape,
    Comma,
    Period,
    BracketLeft,
    BracketRight,
    F2,
    F3,
    F4,
    F5,
    F6,
    /// Any other, by some number of its own.
    Other(u32),
}

/// What the game listens to.
#[derive(Clone, Copy, Debug, PartialEq, Eq, Structural)]
pub enum Key {
    Forward,
    Back,
    Left,
    Right,
    Jump,
    Crouch,
    Sprint,
    ToggleFly,
    ToggleView,
    ToggleMode,
    Interact,
    Photo,
    /// A hotbar slot, from 0.
    Slot(u8),
}

#[derive(Clone, Copy, Debug, PartialEq, Eq, Structural)]
pub enum Button {
    Primary,
    Secondary,
    Middle,
}

/// What the game makes of a key.
pub open spec fn mapped(code: KeyCode) -> Option<Key> {
    match code {
        KeyCode::KeyW => Some(Key::Forward),
        KeyCode::KeyS => Some(Key::Back),
        KeyCode::KeyA => Some(Key::Left),
        KeyCode::KeyD => Some(Key::Right),
        KeyCode::Space => Some(Key::Jump),
        KeyCode::ControlLeft | KeyCode::KeyC => Some(Key::Crouch),
        KeyCode::ShiftLeft => Some(Key::Sprint),
        KeyCode::KeyF => Some(Key::ToggleFly),
        KeyCode::F5 => Some(Key::ToggleView),
        KeyCode::Tab => Some(Key::ToggleMode),
        KeyCode::KeyE => Some(Key::Interact),
        KeyCode::KeyP => Some(Key::Photo),
        KeyCode::Digit(n) => if 1 <= n <= 9 {
            Some(Key::Slot((n - 1) as u8))
        } else {
            None
        },
        _ => None,
    }
}

pub fn map_key(code: KeyCode) -> (k: Option<Key>)
    ensures
        k == mapped(code),
{
    match code {
        KeyCode::KeyW => Some(Key::Forward),
        KeyCode::KeyS => Some(Key::Back),
        KeyCode::KeyA => Some(Key::Left),
        KeyCode::KeyD => Some(Key::Right),
        KeyCode::Space => Some(Key::Jump),
        KeyCode::ControlLeft | KeyCode::KeyC => Some(Key::Crouch),
        KeyCode::ShiftLeft => Some(Key::Sprint),
        KeyCode::KeyF => Some(Key::ToggleFly),
        KeyCode::F5 => Some(Key::ToggleView),
        KeyCode::Tab => Some(Key::ToggleMode),
        KeyCode::KeyE => Some(Key::Interact),
        KeyCode::KeyP => Some(Key::Photo),
        KeyCode::Digit(n) => if 1 <= n && n <= 9 {
            Some(Key::Slot(n - 1))
        } else {
            None
        },
        _ => None,
    }
}

/// Keys held down.
pub struct Input {
    held: Vec<KeyCode>,
}

impl Input {
    /// The keys held.
    pub closed spec fn keys(&self) -> Set<KeyCode> {
        self.held@.to_set()
    }

    pub fn new() -> (i: Input)
        ensures
            i.keys() == Set::<KeyCode>::empty(),
    {
        let i = Input { held: Vec::new() };
        assert(i.held@.to_set() =~= Set::empty());
        i
    }

    fn find(&self, key: KeyCode) -> (r: Option<usize>)
        ensures
            r matches Some(i) ==> i < self.held@.len() && self.held@[i as int] == key,
            r is Some == self.held@.contains(key),
    {
        let mut i: usize = 0;
        while i < self.held.len()
            invariant
                i <= self.held@.len(),
                forall|j: int| 0 <= j < i ==> #[trigger] self.held@[j] != key,
            decreases self.held@.len() - i,
        {
            if self.held[i] == key {
                return Some(i);
            }
            i += 1;
        }
        None
    }

    pub fn press(&mut self, key: KeyCode)
        ensures
            final(self).keys() == old(self).keys().insert(key),
    {
        let ghost was = self.held@;
        if self.find(key).is_none() {
            self.held.push(key);
            proof {
                assert(self.held@.to_set() =~= was.to_set().insert(key)) by {
                    assert(self.held@[was.len() as int] == key);
                    assert forall|k: KeyCode| was.contains(k) implies self.held@.contains(k) by {
                        let i = choose|i: int| 0 <= i < was.len() && was[i] == k;
                        assert(self.held@[i] == k);
                    }
                }
            }
        } else {
            assert(was.to_set() =~= was.to_set().insert(key));
        }
    }

    pub fn release(&mut self, key: KeyCode)
        ensures
            final(self).keys() == old(self).keys().remove(key),
    {
        let mut kept: Vec<KeyCode> = Vec::new();
        let mut i: usize = 0;
        while i < self.held.len()
            invariant
                i <= self.held@.len(),
                self.held@ == old(self).held@,
                forall|k: KeyCode|
                    #[trigger] kept@.contains(k) <==> k != key && self.held@.take(i as int).contains(
                        k,
                    ),
            decreases self.held@.len() - i,
        {
            let k: KeyCode = self.held[i];
            let ghost was = kept@;
            let ghost upto = self.held@.take(i as int);
            if k != key {
                kept.push(k);
            }
            proof {
                let next = self.held@.take(i + 1);
                assert(next =~= upto.push(k));
                assert forall|c: KeyCode| #[trigger] kept@.contains(c) <==> c != key
                    && next.contains(c) by {
                    assert(was.contains(c) <==> c != key && upto.contains(c));
                    lemma_pushed(upto, k, c);
                    lemma_pushed(was, k, c);
                }
            }
            i += 1;
        }
        assert(self.held@.take(self.held@.len() as int) =~= self.held@);
        self.held = kept;
        assert(self.held@.to_set() =~= old(self).held@.to_set().remove(key));
    }

    pub fn held(&self, key: KeyCode) -> (b: bool)
        ensures
            b == self.keys().contains(key),
    {
        self.find(key).is_some()
    }

    pub fn release_all(&mut self)
        ensures
            final(self).keys() == Set::<KeyCode>::empty(),
    {
        self.held = Vec::new();
        assert(self.held@.to_set() =~= Set::empty());
    }

    /// Which way a pair of keys pushes: 1, -1, or 0 for neither or both.
    pub fn axis(&self, pos: KeyCode, neg: KeyCode) -> (a: i32)
        ensures
            a == (if self.keys().contains(pos) {
                1int
            } else {
                0
            }) - (if self.keys().contains(neg) {
                1int
            } else {
                0
            }),
    {
        let mut a: i32 = 0;
        if self.held(pos) {
            a += 1;
        }
        if self.held(neg) {
            a -= 1;
        }
        a
    }
}

proof fn lemma_pushed(s: Seq<KeyCode>, k: KeyCode, c: KeyCode)
    ensures
        s.push(k).contains(c) <==> s.contains(c) || c == k,
{
    if s.contains(c) {
        let i = choose|i: int| 0 <= i < s.len() && s[i] == c;
        assert(s.push(k)[i] == c);
    }
    if c == k {
        assert(s.push(k)[s.len() as int] == c);
    }
    if s.push(k).contains(c) && c != k {
        let i = choose|i: int| 0 <= i < s.push(k).len() && s.push(k)[i] == c;
        assert(s[i] == c);
    }
}

/// Pressing a key twice and letting it go once lets it go.
pub proof fn presses_do_not_pile_up(keys: Set<KeyCode>, k: KeyCode)
    requires
        !keys.contains(k),
    ensures
        keys.insert(k).insert(k).remove(k) == keys,
{
    assert(keys.insert(k).insert(k).remove(k) =~= keys);
}

/// Each thing the game listens to has its keys: one, but for crouching, which
/// has two, and the slots, which have a digit each.
pub proof fn keys_have_their_meaning(code: KeyCode)
    ensures
        mapped(code) == Some(Key::Forward) <==> code is KeyW,
        mapped(code) == Some(Key::Back) <==> code is KeyS,
        mapped(code) == Some(Key::Left) <==> code is KeyA,
        mapped(code) == Some(Key::Right) <==> code is KeyD,
        mapped(code) == Some(Key::Jump) <==> code is Space,
        mapped(code) == Some(Key::Crouch) <==> code is ControlLeft || code is KeyC,
        mapped(code) == Some(Key::Sprint) <==> code is ShiftLeft,
        mapped(code) == Some(Key::ToggleFly) <==> code is KeyF,
        mapped(code) == Some(Key::ToggleView) <==> code is F5,
        mapped(code) == Some(Key::ToggleMode) <==> code is Tab,
        mapped(code) == Some(Key::Interact) <==> code is KeyE,
        mapped(code) == Some(Key::Photo) <==> code is KeyP,
        mapped(code) matches Some(Key::Slot(n)) ==> n < 9 && code == KeyCode::Digit((n + 1) as u8),
        code matches KeyCode::Digit(d) ==> (mapped(code) is Some <==> 1 <= d <= 9),
        code is Digit && mapped(code) is Some ==> mapped(code)->Some_0 is Slot,
{
}

} // verus!
