//! The seat: pointer and keyboard state for the one logical user, and the
//! focus-routing rules that turn raw input into dispatch events.
//!
//! Pointer motion hit-tests the scene; when the window under the pointer
//! changes, the old focus gets a leave event, then the new focus an enter
//! event, then a position update — in that order. Key events update the
//! pressed set and modifier state; the reserved terminate shortcut is
//! consumed locally and never forwarded, everything else goes to the
//! keyboard focus, if any.

use vstd::prelude::*;

use crate::geometry::Point;

verus! {

/// The key code of the reserved terminate-session shortcut.
pub const TERMINATE_KEY: u32 = 1;

/// One raw input event as an input device delivers it.
#[derive(Clone, Copy, PartialEq, Eq, Structural, Debug)]
pub enum InputEvent {
    PointerMotion { position: Point },
    Keyboard { code: u32, pressed: bool },
}

/// One event the core dispatches outward to the protocol collaborator.
#[derive(Clone, Copy, PartialEq, Eq, Structural, Debug)]
pub enum DispatchEvent {
    Leave { window: u64 },
    Enter { window: u64 },
    Motion { window: u64, position: Point },
    Key { window: u64, code: u32, pressed: bool },
}

/// What a key event becomes: consumed as the terminate shortcut, or
/// forwarded to the keyboard focus.
#[derive(Clone, Copy, PartialEq, Eq, Structural, Debug)]
pub enum KeyAction {
    Terminate,
    Forward { window: u64, code: u32, pressed: bool },
}

/// The modifier bit a key code contributes: shift, control, alt, by the
/// usual input-event key codes for their left and right variants.
pub open spec fn modifier_bit(code: u32) -> u32 {
    if code == 42 || code == 54 {
        1u32
    } else if code == 29 || code == 97 {
        2u32
    } else if code == 56 || code == 100 {
        4u32
    } else {
        0u32
    }
}

/// The modifier mask of a set of pressed keys.
pub open spec fn spec_modifiers(s: Seq<u32>) -> u32
    decreases s.len(),
{
    if s.len() == 0 {
        0u32
    } else {
        spec_modifiers(s.drop_last()) | modifier_bit(s.last())
    }
}

/// The dispatch events one pointer motion produces, given the old and the
/// new pointer focus: leave the old window, enter the new one, then report
/// the position — or only the position when the focus did not change.
pub open spec fn spec_motion_events(oldf: Option<u64>, newf: Option<u64>, p: Point)
    -> Seq<DispatchEvent> {
    if oldf == newf {
        match newf {
            Some(w) => seq![DispatchEvent::Motion { window: w, position: p }],
            None => Seq::empty(),
        }
    } else {
        let leaves = match oldf {
            Some(w) => seq![DispatchEvent::Leave { window: w }],
            None => Seq::empty(),
        };
        let enters = match newf {
            Some(w) => seq![
                DispatchEvent::Enter { window: w },
                DispatchEvent::Motion { window: w, position: p },
            ],
            None => Seq::empty(),
        };
        leaves + enters
    }
}

/// The bundled pointer and keyboard state for one logical user; exactly one
/// seat exists for the process lifetime.
pub struct Seat {
    pub pointer: Point,
    pub pointer_focus: Option<u64>,
    pub keyboard_focus: Option<u64>,
    pub modifiers: u32,
    pub pressed: Vec<u32>,
}

impl Seat {
    /// Each pressed key is recorded once, and the modifier mask is exactly
    /// the mask of the pressed set.
    pub open spec fn wf(self) -> bool {
        &&& (forall|i: int, j: int| 0 <= i < j < self.pressed@.len()
            ==> self.pressed@[i] != self.pressed@[j])
        &&& self.modifiers == spec_modifiers(self.pressed@)
    }

    pub fn new() -> (r: Seat)
        ensures
            r.pointer == (Point { x: 0, y: 0 }),
            r.pointer_focus is None,
            r.keyboard_focus is None,
            r.modifiers == 0,
            r.pressed@ == Seq::<u32>::empty(),
            r.wf(),
    {
        Seat {
            pointer: Point { x: 0, y: 0 },
            pointer_focus: None,
            keyboard_focus: None,
            modifiers: 0,
            pressed: Vec::new(),
        }
    }

    /// Move the pointer to `p`, with `hit` the window now under it (as the
    /// scene's hit test found it): update the focus and produce the leave,
    /// enter and motion events the change calls for.
    pub fn motion_to(&mut self, hit: Option<u64>, p: Point) -> (evs: Vec<DispatchEvent>)
        requires
            old(self).wf(),
        ensures
            final(self).wf(),
            final(self).pointer == p,
            final(self).pointer_focus == hit,
            final(self).keyboard_focus == old(self).keyboard_focus,
            final(self).modifiers == old(self).modifiers,
            final(self).pressed@ == old(self).pressed@,
            evs@ == spec_motion_events(old(self).pointer_focus, hit, p),
    {
        let mut evs: Vec<DispatchEvent> = Vec::new();
        let same = match (self.pointer_focus, hit) {
            (Some(a), Some(b)) => a == b,
            (None, None) => true,
            _ => false,
        };
        if same {
            if let Some(w) = hit {
                evs.push(DispatchEvent::Motion { window: w, position: p });
            }
        } else {
            if let Some(w) = self.pointer_focus {
                evs.push(DispatchEvent::Leave { window: w });
            }
            if let Some(w) = hit {
                evs.push(DispatchEvent::Enter { window: w });
                evs.push(DispatchEvent::Motion { window: w, position: p });
            }
        }
        self.pointer = p;
        self.pointer_focus = hit;
        proof {
            assert(evs@ =~= spec_motion_events(old(self).pointer_focus, hit, p));
        }
        evs
    }

    pub fn set_keyboard_focus(&mut self, w: Option<u64>)
        requires
            old(self).wf(),
        ensures
            final(self).wf(),
            final(self).keyboard_focus == w,
            final(self).pointer == old(self).pointer,
            final(self).pointer_focus == old(self).pointer_focus,
            final(self).modifiers == old(self).modifiers,
            final(self).pressed@ == old(self).pressed@,
    {
        self.keyboard_focus = w;
    }

    /// Record a key press or release, refresh the modifier mask, and decide
    /// where the event goes: the terminate shortcut is consumed locally and
    /// never forwarded; any other key is forwarded to the keyboard focus,
    /// or dropped when nothing has focus.
    pub fn key(&mut self, code: u32, pressed: bool) -> (r: Option<KeyAction>)
        requires
            old(self).wf(),
        ensures
            final(self).wf(),
            final(self).pointer == old(self).pointer,
            final(self).pointer_focus == old(self).pointer_focus,
            final(self).keyboard_focus == old(self).keyboard_focus,
            forall|c: u32| final(self).pressed@.contains(c) == if c == code {
                pressed
            } else {
                old(self).pressed@.contains(c)
            },
            r == if code == TERMINATE_KEY && pressed {
                Some(KeyAction::Terminate)
            } else {
                match old(self).keyboard_focus {
                    Some(w) => Some(KeyAction::Forward { window: w, code, pressed }),
                    None => None,
                }
            },
    {
        let ghost p0 = self.pressed@;
        let idx = self.find_pressed(code);
        if pressed {
            if idx.is_none() {
                self.pressed.push(code);
                proof {
                    lemma_distinct_push(p0, code);
                }
            }
        } else {
            if let Some(i) = idx {
                self.pressed.remove(i);
                proof {
                    lemma_distinct_remove(p0, i as int);
                }
            }
        }
        proof {
            assert forall|c: u32| self.pressed@.contains(c) == if c == code {
                pressed
            } else {
                p0.contains(c)
            } by {
                lemma_pressed_update(p0, self.pressed@, code, pressed, c);
            }
        }
        self.refresh_modifiers();
        if code == TERMINATE_KEY && pressed {
            Some(KeyAction::Terminate)
        } else {
            match self.keyboard_focus {
                Some(w) => Some(KeyAction::Forward { window: w, code, pressed }),
                None => None,
            }
        }
    }

    fn find_pressed(&self, code: u32) -> (r: Option<usize>)
        ensures
            match r {
                Some(i) => i < self.pressed@.len() && self.pressed@[i as int] == code,
                None => !self.pressed@.contains(code),
            },
    {
        let n = self.pressed.len();
        let mut i: usize = 0;
        while i < n
            invariant
                n == self.pressed@.len(),
                i <= n,
                forall|j: int| 0 <= j < i ==> self.pressed@[j] != code,
            decreases n - i,
        {
            if self.pressed[i] == code {
                return Some(i);
            }
            i += 1;
        }
        None
    }

    fn refresh_modifiers(&mut self)
        ensures
            final(self).modifiers == spec_modifiers(final(self).pressed@),
            final(self).pressed@ == old(self).pressed@,
            final(self).pointer == old(self).pointer,
            final(self).pointer_focus == old(self).pointer_focus,
            final(self).keyboard_focus == old(self).keyboard_focus,
    {
        let n = self.pressed.len();
        let mut mask: u32 = 0;
        let mut i: usize = 0;
        proof {
            assert(self.pressed@.take(0) =~= Seq::<u32>::empty());
        }
        while i < n
            invariant
                n == self.pressed@.len(),
                i <= n,
                mask == spec_modifiers(self.pressed@.take(i as int)),
            decreases n - i,
        {
            let c = self.pressed[i];
            let b: u32 = if c == 42 || c == 54 {
                1
            } else if c == 29 || c == 97 {
                2
            } else if c == 56 || c == 100 {
                4
            } else {
                0
            };
            mask = mask | b;
            proof {
                assert(self.pressed@.take(i + 1).drop_last() =~= self.pressed@.take(i as int));
                assert(self.pressed@.take(i + 1).last() == self.pressed@[i as int]);
            }
            i += 1;
        }
        proof {
            assert(self.pressed@.take(n as int) =~= self.pressed@);
        }
        self.modifiers = mask;
    }
}

/// Pushing a fresh element keeps the elements distinct.
proof fn lemma_distinct_push(s: Seq<u32>, c: u32)
    requires
        forall|i: int, j: int| 0 <= i < j < s.len() ==> s[i] != s[j],
        !s.contains(c),
    ensures
        forall|i: int, j: int| 0 <= i < j < s.push(c).len() ==> s.push(c)[i] != s.push(c)[j],
{
    let t = s.push(c);
    assert forall|i: int, j: int| 0 <= i < j < t.len() implies t[i] != t[j] by {
        if j == s.len() {
            assert(t[i] == s[i]);
            if s[i] == c {
                assert(s.contains(c));
            }
        } else {
            assert(t[i] == s[i] && t[j] == s[j]);
        }
    }
}

/// Removing an element keeps the rest distinct.
proof fn lemma_distinct_remove(s: Seq<u32>, k: int)
    requires
        forall|i: int, j: int| 0 <= i < j < s.len() ==> s[i] != s[j],
        0 <= k < s.len(),
    ensures
        forall|i: int, j: int| 0 <= i < j < s.remove(k).len()
            ==> s.remove(k)[i] != s.remove(k)[j],
{
    let t = s.remove(k);
    assert forall|i: int, j: int| 0 <= i < j < t.len() implies t[i] != t[j] by {
        let i0 = if i < k { i } else { i + 1 };
        let j0 = if j < k { j } else { j + 1 };
        assert(t[i] == s[i0] && t[j] == s[j0]);
    }
}

/// How membership in the pressed set changes under one press or release.
proof fn lemma_pressed_update(p0: Seq<u32>, p1: Seq<u32>, code: u32, pressed: bool, c: u32)
    requires
        forall|i: int, j: int| 0 <= i < j < p0.len() ==> p0[i] != p0[j],
        pressed ==> (p0.contains(code) ==> p1 == p0),
        pressed ==> (!p0.contains(code) ==> p1 == p0.push(code)),
        !pressed ==> (!p0.contains(code) ==> p1 == p0),
        !pressed ==> (p0.contains(code) ==> exists|k: int|
            0 <= k < p0.len() && p0[k] == code && p1 == p0.remove(k)),
    ensures
        p1.contains(c) == if c == code {
            pressed
        } else {
            p0.contains(c)
        },
{
    if pressed {
        if p0.contains(code) {
            assert(p1 == p0);
        } else {
            assert forall|x: u32| p0.contains(x) implies p1.contains(x) by {
                let i = choose|i: int| 0 <= i < p0.len() && p0[i] == x;
                assert(p1[i] == x);
            }
            if p1.contains(c) {
                let i = choose|i: int| 0 <= i < p1.len() && p1[i] == c;
                if i < p0.len() {
                    assert(p0[i] == c);
                } else {
                    assert(c == code);
                }
            }
            assert(p1[p0.len() as int] == code);
        }
    } else {
        if p0.contains(code) {
            let k = choose|k: int| 0 <= k < p0.len() && p0[k] == code && p1 == p0.remove(k);
            if p1.contains(c) {
                let i = choose|i: int| 0 <= i < p1.len() && p1[i] == c;
                let i0 = if i < k { i } else { i + 1 };
                assert(p0[i0] == c);
                if c == code {
                    assert(p0[i0] == p0[k] && i0 != k);
                }
            }
            if c != code && p0.contains(c) {
                let i = choose|i: int| 0 <= i < p0.len() && p0[i] == c;
                if i < k {
                    assert(p1[i] == c);
                } else {
                    assert(i != k);
                    assert(p1[i - 1] == c);
                }
            }
        }
    }
}

} // verus!
