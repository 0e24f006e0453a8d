//! The input model: translation of native virtual-key codes into the
//! engine's key codes, and the per-frame set of keys currently held down.
//! The host's message loop feeds events in; the decisions — which code a
//! native key maps to, and what the pressed set becomes — live here.
use vstd::prelude::*;

verus! {

/// A key the engine knows. The list covers the keys the terminal renderer
/// reacts to: letters, digits and a few control keys.
#[derive(Clone, Copy, Debug, PartialEq, Eq, PartialOrd, Ord, Hash, Structural)]
pub enum KeyCode {
    A, B, C, D, E, F, G, H, I, J, K, L, M,
    N, O, P, Q, R, S, T, U, V, W, X, Y, Z,
    Key0, Key1, Key2, Key3, Key4, Key5, Key6, Key7, Key8, Key9,
    Space, Return, Escape, Backspace, Tab,
}

/// The key code a native virtual-key byte maps to, if any: letters map by
/// their ASCII codes, digits likewise, and the handful of control keys by
/// their native codes.
pub open spec fn vk_to_keycode_spec(vk: u8) -> Option<KeyCode> {
    if vk == 0x41 { Some(KeyCode::A) }
    else if vk == 0x42 { Some(KeyCode::B) }
    else if vk == 0x43 { Some(KeyCode::C) }
    else if vk == 0x44 { Some(KeyCode::D) }
    else if vk == 0x45 { Some(KeyCode::E) }
    else if vk == 0x46 { Some(KeyCode::F) }
    else if vk == 0x47 { Some(KeyCode::G) }
    else if vk == 0x48 { Some(KeyCode::H) }
    else if vk == 0x49 { Some(KeyCode::I) }
    else if vk == 0x4a { Some(KeyCode::J) }
    else if vk == 0x4b { Some(KeyCode::K) }
    else if vk == 0x4c { Some(KeyCode::L) }
    else if vk == 0x4d { Some(KeyCode::M) }
    else if vk == 0x4e { Some(KeyCode::N) }
    else if vk == 0x4f { Some(KeyCode::O) }
    else if vk == 0x50 { Some(KeyCode::P) }
    else if vk == 0x51 { Some(KeyCode::Q) }
    else if vk == 0x52 { Some(KeyCode::R) }
    else if vk == 0x53 { Some(KeyCode::S) }
    else if vk == 0x54 { Some(KeyCode::T) }
    else if vk == 0x55 { Some(KeyCode::U) }
    else if vk == 0x56 { Some(KeyCode::V) }
    else if vk == 0x57 { Some(KeyCode::W) }
    else if vk == 0x58 { Some(KeyCode::X) }
    else if vk == 0x59 { Some(KeyCode::Y) }
    else if vk == 0x5a { Some(KeyCode::Z) }
    else if vk == 0x30 { Some(KeyCode::Key0) }
    else if vk == 0x31 { Some(KeyCode::Key1) }
    else if vk == 0x32 { Some(KeyCode::Key2) }
    else if vk == 0x33 { Some(KeyCode::Key3) }
    else if vk == 0x34 { Some(KeyCode::Key4) }
    else if vk == 0x35 { Some(KeyCode::Key5) }
    else if vk == 0x36 { Some(KeyCode::Key6) }
    else if vk == 0x37 { Some(KeyCode::Key7) }
    else if vk == 0x38 { Some(KeyCode::Key8) }
    else if vk == 0x39 { Some(KeyCode::Key9) }
    else if vk == 0x20 { Some(KeyCode::Space) }
    else if vk == 0x0d { Some(KeyCode::Return) }
    else if vk == 0x1b { Some(KeyCode::Escape) }
    else if vk == 0x08 { Some(KeyCode::Backspace) }
    else { if vk == 0x09 { Some(KeyCode::Tab) } else { None } }
}

/// Maps a native virtual-key byte to the engine's key code. The mapping is
/// not exhaustive: unmapped keys are dropped.
pub fn vk_to_keycode(vk: u8) -> (r: Option<KeyCode>)
    ensures
        r == vk_to_keycode_spec(vk),
{
    match vk {
        0x41 => Some(KeyCode::A),
        0x42 => Some(KeyCode::B),
        0x43 => Some(KeyCode::C),
        0x44 => Some(KeyCode::D),
        0x45 => Some(KeyCode::E),
        0x46 => Some(KeyCode::F),
        0x47 => Some(KeyCode::G),
        0x48 => Some(KeyCode::H),
        0x49 => Some(KeyCode::I),
        0x4a => Some(KeyCode::J),
        0x4b => Some(KeyCode::K),
        0x4c => Some(KeyCode::L),
        0x4d => Some(KeyCode::M),
        0x4e => Some(KeyCode::N),
        0x4f => Some(KeyCode::O),
        0x50 => Some(KeyCode::P),
        0x51 => Some(KeyCode::Q),
        0x52 => Some(KeyCode::R),
        0x53 => Some(KeyCode::S),
        0x54 => Some(KeyCode::T),
        0x55 => Some(KeyCode::U),
        0x56 => Some(KeyCode::V),
        0x57 => Some(KeyCode::W),
        0x58 => Some(KeyCode::X),
        0x59 => Some(KeyCode::Y),
        0x5a => Some(KeyCode::Z),
        0x30 => Some(KeyCode::Key0),
        0x31 => Some(KeyCode::Key1),
        0x32 => Some(KeyCode::Key2),
        0x33 => Some(KeyCode::Key3),
        0x34 => Some(KeyCode::Key4),
        0x35 => Some(KeyCode::Key5),
        0x36 => Some(KeyCode::Key6),
        0x37 => Some(KeyCode::Key7),
        0x38 => Some(KeyCode::Key8),
        0x39 => Some(KeyCode::Key9),
        0x20 => Some(KeyCode::Space),
        0x0d => Some(KeyCode::Return),
        0x1b => Some(KeyCode::Escape),
        0x08 => Some(KeyCode::Backspace),
        0x09 => Some(KeyCode::Tab),
        _ => None,
    }
}

/// A native key event, already reduced to its virtual-key byte.
#[derive(Clone, Copy, Debug, PartialEq, Eq, Structural)]
pub enum KeyEvent {
    Pressed(u8),
    Released(u8),
}

/// The set of keys currently held down. The host's message loop applies
/// each native event; a frame snapshot then reads the whole set.
pub struct ConsoleInput {
    keys_down: Vec<KeyCode>,
}

impl ConsoleInput {
    /// The mathematical view: the set of keys held down.
    pub closed spec fn keys(self) -> Set<KeyCode> {
        self.keys_down@.to_set()
    }

    /// The held list never repeats a key.
    pub closed spec fn well_formed(self) -> bool {
        forall|i: int, j: int|
            0 <= i < j < self.keys_down@.len()
            ==> self.keys_down@[i] != self.keys_down@[j]
    }

    pub fn new() -> (s: Self)
        ensures
            s.well_formed(),
            s.keys() == Set::<KeyCode>::empty(),
    {
        let s = ConsoleInput { keys_down: Vec::new() };
        proof {
            assert(s.keys_down@.to_set() =~= Set::<KeyCode>::empty());
        }
        s
    }

    fn position_of(&self, key: KeyCode) -> (r: Option<usize>)
        ensures
            match r {
                Some(i) => i < self.keys_down@.len() && self.keys_down@[i as int] == key,
                None => !self.keys().contains(key),
            },
    {
        let n = self.keys_down.len();
        let mut i: usize = 0;
        while i < n
            invariant
                n == self.keys_down@.len(),
                i <= n,
                forall|j: int| 0 <= j < i ==> self.keys_down@[j] != key,
            decreases n - i,
        {
            if self.keys_down[i] == key {
                return Some(i);
            }
            i = i + 1;
        }
        proof {
            assert(!self.keys_down@.to_set().contains(key));
        }
        None
    }

    /// Applies one native key event: a mapped key joins the set on press
    /// and leaves it on release; an unmapped key changes nothing.
    pub fn apply_event(&mut self, event: KeyEvent)
        requires
            old(self).well_formed(),
        ensures
            final(self).well_formed(),
            final(self).keys() == (match event {
                KeyEvent::Pressed(vk) => match vk_to_keycode_spec(vk) {
                    Some(key) => old(self).keys().insert(key),
                    None => old(self).keys(),
                },
                KeyEvent::Released(vk) => match vk_to_keycode_spec(vk) {
                    Some(key) => old(self).keys().remove(key),
                    None => old(self).keys(),
                },
            }),
    {
        match event {
            KeyEvent::Pressed(vk) => {
                match vk_to_keycode(vk) {
                    Some(key) => {
                        match self.position_of(key) {
                            Some(_) => {
                                proof {
                                    assert(self.keys_down@.to_set().contains(key));
                                    assert(old(self).keys().insert(key) =~= old(self).keys());
                                }
                            }
                            None => {
                                let ghost pre = self.keys_down@;
                                self.keys_down.push(key);
                                proof {
                                    pre.lemma_push_to_set_commute(key);
                                    assert(self.keys_down@ == pre.push(key));
                                    assert(self.keys_down@.to_set()
                                        =~= pre.to_set().insert(key));
                                }
                            }
                        }
                    }
                    None => {}
                }
            }
            KeyEvent::Released(vk) => {
                match vk_to_keycode(vk) {
                    Some(key) => {
                        match self.position_of(key) {
                            Some(i) => {
                                let ghost pre = self.keys_down@;
                                self.keys_down.remove(i);
                                proof {
                                    assert(self.keys_down@ == pre.remove(i as int));
                                    assert(self.keys_down@.to_set()
                                        =~= pre.to_set().remove(key)) by {
                                        assert forall|x: KeyCode|
                                            self.keys_down@.to_set().contains(x)
                                            <==> pre.to_set().remove(key).contains(x) by {
                                            lemma_remove_set(pre, i as int, x);
                                            if x != key && pre.to_set().contains(x) {
                                                let j = choose|j: int|
                                                    0 <= j < pre.len() && pre[j] == x;
                                                if j < i as int {
                                                    assert(pre.remove(i as int)[j] == x);
                                                } else {
                                                    assert(j > i as int);
                                                    assert(pre.remove(i as int)[j - 1] == x);
                                                }
                                            }
                                        }
                                    }
                                }
                            }
                            None => {
                                proof {
                                    assert(old(self).keys().remove(key) =~= old(self).keys());
                                }
                            }
                        }
                    }
                    None => {}
                }
            }
        }
    }

    /// The keys currently held, as a list (each key at most once).
    pub fn pressed_keys(&self) -> (r: Vec<KeyCode>)
        ensures
            r@.to_set() == self.keys(),
    {
        let mut out: Vec<KeyCode> = Vec::new();
        let n = self.keys_down.len();
        let mut i: usize = 0;
        while i < n
            invariant
                n == self.keys_down@.len(),
                i <= n,
                out@ == self.keys_down@.take(i as int),
            decreases n - i,
        {
            out.push(self.keys_down[i]);
            proof {
                assert(out@ =~= self.keys_down@.take(i as int + 1));
            }
            i = i + 1;
        }
        proof {
            assert(out@ =~= self.keys_down@);
        }
        out
    }
}

proof fn lemma_remove_set(s: Seq<KeyCode>, i: int, x: KeyCode)
    requires
        0 <= i < s.len(),
    ensures
        s.remove(i).to_set().contains(x) ==> s.to_set().contains(x),
{
    if s.remove(i).to_set().contains(x) {
        let j = choose|j: int| 0 <= j < s.remove(i).len() && s.remove(i)[j] == x;
        if j < i {
            assert(s[j] == x);
        } else {
            assert(s[j + 1] == x);
        }
    }
}

} // verus!
