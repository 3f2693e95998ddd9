//! The scene graph: the ordered collection of mapped windows.
//!
//! Windows are kept in a single sequence in stacking order — index 0 is the
//! bottom of the stack, the last element is the top. A window's z-position is
//! its index, so the stacking order is a strict total order exactly when no
//! window id occurs twice; that is the well-formedness invariant every
//! operation preserves.

use vstd::prelude::*;

use crate::geometry::Point;
use crate::geometry::Rect;

verus! {

/// The role a surface was given when its window entered the scene.
#[derive(Clone, Copy, PartialEq, Eq, Structural, Debug)]
pub enum Role {
    Toplevel,
    Popup,
    Foreign,
}

/// A core-owned placement record: the surface handle it wraps (`id`), where
/// the window sits in the global space, and its role.
#[derive(Clone, Copy, PartialEq, Eq, Structural, Debug)]
pub struct Window {
    pub id: u64,
    pub rect: Rect,
    pub role: Role,
}

/// Whether some window in `s` wraps surface `id`.
pub open spec fn contains_id(s: Seq<Window>, id: u64) -> bool {
    exists|i: int| 0 <= i < s.len() && s[i].id == id
}

/// The index of the window wrapping surface `id`; meaningful only when
/// `contains_id(s, id)` holds and ids are distinct.
pub open spec fn idx_of(s: Seq<Window>, id: u64) -> int {
    choose|i: int| 0 <= i < s.len() && s[i].id == id
}

/// Strict total stacking order: no two windows share a z-position, i.e. no
/// surface id occurs twice in the stack.
pub open spec fn wf_stack(s: Seq<Window>) -> bool {
    forall|i: int, j: int| 0 <= i < j < s.len() ==> s[i].id != s[j].id
}

/// What `map` does to the stack: a new window goes on top; an already-mapped
/// window only has its position updated, and moves to the top only when
/// `activate` is set.
pub open spec fn spec_map(s: Seq<Window>, id: u64, rect: Rect, role: Role, activate: bool)
    -> Seq<Window> {
    if contains_id(s, id) {
        let i = idx_of(s, id);
        let w = Window { id, rect, role: s[i].role };
        if activate {
            s.remove(i).push(w)
        } else {
            s.update(i, w)
        }
    } else {
        s.push(Window { id, rect, role })
    }
}

/// What `unmap` does to the stack: the window leaves, everything else keeps
/// its relative order.
pub open spec fn spec_unmap(s: Seq<Window>, id: u64) -> Seq<Window> {
    if contains_id(s, id) {
        s.remove(idx_of(s, id))
    } else {
        s
    }
}

/// What `raise` does to the stack: the window moves to the top, everything
/// else keeps its relative order.
pub open spec fn spec_raise(s: Seq<Window>, id: u64) -> Seq<Window> {
    if contains_id(s, id) {
        let i = idx_of(s, id);
        s.remove(i).push(s[i])
    } else {
        s
    }
}

/// The role of the window wrapping surface `id`; meaningful only when
/// `contains_id(s, id)` holds and ids are distinct.
pub open spec fn role_of(s: Seq<Window>, id: u64) -> Role {
    s[idx_of(s, id)].role
}

/// Per-output ordered sequence of windows; the ordering is the stacking
/// (z) order, bottom first.
pub struct SceneGraph {
    pub windows: Vec<Window>,
}

impl SceneGraph {
    pub open spec fn wf(self) -> bool {
        wf_stack(self.windows@)
    }

    pub fn new() -> (r: SceneGraph)
        ensures
            r.windows@ == Seq::<Window>::empty(),
            r.wf(),
    {
        SceneGraph { windows: Vec::new() }
    }

    /// The index of the window wrapping `id`, scanning bottom-up.
    fn find(&self, id: u64) -> (r: Option<usize>)
        requires
            self.wf(),
        ensures
            match r {
                Some(i) => i < self.windows@.len() && self.windows@[i as int].id == id
                    && i as int == idx_of(self.windows@, id),
                None => !contains_id(self.windows@, id),
            },
    {
        let n = self.windows.len();
        let mut i: usize = 0;
        while i < n
            invariant
                self.wf(),
                n == self.windows@.len(),
                i <= n,
                forall|j: int| 0 <= j < i ==> self.windows@[j].id != id,
            decreases n - i,
        {
            if self.windows[i].id == id {
                proof {
                    let k = idx_of(self.windows@, id);
                    assert(0 <= k < self.windows@.len() && self.windows@[k].id == id);
                    assert(k == i as int);
                }
                return Some(i);
            }
            i += 1;
        }
        None
    }

    /// The window wrapping surface `id`, if one is mapped.
    pub fn get(&self, id: u64) -> (r: Option<Window>)
        requires
            self.wf(),
        ensures
            match r {
                Some(w) => contains_id(self.windows@, id)
                    && w == self.windows@[idx_of(self.windows@, id)]
                    && w.id == id,
                None => !contains_id(self.windows@, id),
            },
    {
        match self.find(id) {
            Some(i) => Some(self.windows[i]),
            None => None,
        }
    }

    pub fn is_mapped(&self, id: u64) -> (r: bool)
        requires
            self.wf(),
        ensures
            r == contains_id(self.windows@, id),
    {
        self.find(id).is_some()
    }

    /// Map a window, or update the placement of one already mapped.
    /// Mapping an already-mapped window is a membership no-op that updates
    /// position only; `activate` additionally moves it to the top.
    pub fn map(&mut self, id: u64, rect: Rect, role: Role, activate: bool)
        requires
            old(self).wf(),
        ensures
            final(self).windows@ == spec_map(old(self).windows@, id, rect, role, activate),
            final(self).wf(),
    {
        let ghost s0 = self.windows@;
        match self.find(id) {
            Some(i) => {
                let w = Window { id, rect, role: self.windows[i].role };
                if activate {
                    self.windows.remove(i);
                    self.windows.push(w);
                    proof {
                        lemma_wf_remove(s0, i as int);
                        lemma_wf_push(s0.remove(i as int), w);
                        assert(self.windows@ =~= spec_map(s0, id, rect, role, activate));
                    }
                } else {
                    self.windows[i] = w;
                    proof {
                        assert(self.windows@ =~= spec_map(s0, id, rect, role, activate));
                        assert(final(self).wf()) by {
                            assert(forall|a: int, b: int|
                                0 <= a < b < self.windows@.len()
                                    ==> self.windows@[a].id != self.windows@[b].id);
                        }
                    }
                }
            }
            None => {
                self.windows.push(Window { id, rect, role });
                proof {
                    lemma_wf_push(s0, Window { id, rect, role });
                }
            }
        }
    }

    /// Remove a window from the scene; unmapping an unknown window is a no-op.
    pub fn unmap(&mut self, id: u64)
        requires
            old(self).wf(),
        ensures
            final(self).windows@ == spec_unmap(old(self).windows@, id),
            final(self).wf(),
    {
        let ghost s0 = self.windows@;
        match self.find(id) {
            Some(i) => {
                self.windows.remove(i);
                proof {
                    lemma_wf_remove(s0, i as int);
                }
            }
            None => {}
        }
    }

    /// Move a mapped window to the top of the stacking order.
    pub fn raise(&mut self, id: u64)
        requires
            old(self).wf(),
        ensures
            final(self).windows@ == spec_raise(old(self).windows@, id),
            final(self).wf(),
    {
        let ghost s0 = self.windows@;
        match self.find(id) {
            Some(i) => {
                let w = self.windows[i];
                self.windows.remove(i);
                self.windows.push(w);
                proof {
                    lemma_wf_remove(s0, i as int);
                    lemma_wf_push(s0.remove(i as int), s0[i as int]);
                }
            }
            None => {}
        }
    }

    /// The topmost mapped window containing `point`, scanning top-to-bottom
    /// in z-order, or none when no mapped window contains it.
    pub fn hit_test(&self, p: Point) -> (r: Option<u64>)
        ensures
            match r {
                Some(id) => exists|i: int|
                    0 <= i < self.windows@.len() && self.windows@[i].id == id
                        && self.windows@[i].rect.spec_contains(p)
                        && (forall|j: int|
                            i < j < self.windows@.len()
                                ==> !self.windows@[j].rect.spec_contains(p)),
                None => forall|i: int|
                    0 <= i < self.windows@.len() ==> !self.windows@[i].rect.spec_contains(p),
            },
    {
        let mut i = self.windows.len();
        while i > 0
            invariant
                i <= self.windows@.len(),
                forall|j: int| i <= j < self.windows@.len()
                    ==> !self.windows@[j].rect.spec_contains(p),
            decreases i,
        {
            i -= 1;
            if self.windows[i].rect.contains(p) {
                return Some(self.windows[i].id);
            }
        }
        None
    }

    /// The render list for an output: the windows whose placement overlaps
    /// the output's rectangle, bottom-to-top, so a backend can draw them in
    /// painter's order. Each entry carries the window's full placement.
    pub fn render_list(&self, output: Rect) -> (r: Vec<Window>)
        ensures
            r@ == self.windows@.filter(|w: Window| w.rect.spec_overlaps(output)),
    {
        let mut r: Vec<Window> = Vec::new();
        let n = self.windows.len();
        let mut i: usize = 0;
        proof {
            assert(self.windows@.take(0).filter(|w: Window| w.rect.spec_overlaps(output))
                =~= Seq::<Window>::empty());
        }
        while i < n
            invariant
                n == self.windows@.len(),
                i <= n,
                r@ == self.windows@.take(i as int).filter(
                    |w: Window| w.rect.spec_overlaps(output)),
            decreases n - i,
        {
            let ghost pre = self.windows@.take(i as int);
            let w = self.windows[i];
            if w.rect.overlaps(&output) {
                r.push(w);
            }
            proof {
                assert(self.windows@.take(i + 1) =~= pre.push(w));
                pre.lemma_filter_push(w, |x: Window| x.rect.spec_overlaps(output));
            }
            i += 1;
        }
        proof {
            assert(self.windows@.take(n as int) =~= self.windows@);
        }
        r
    }
}

/// One scene-mutating operation, for stating stacking laws over whole
/// operation histories.
pub enum SceneOp {
    MapWindow { id: u64, rect: Rect, role: Role, activate: bool },
    UnmapWindow { id: u64 },
    RaiseWindow { id: u64 },
}

/// The stack that one operation leaves behind.
pub open spec fn scene_step(s: Seq<Window>, op: SceneOp) -> Seq<Window> {
    match op {
        SceneOp::MapWindow { id, rect, role, activate } => spec_map(s, id, rect, role, activate),
        SceneOp::UnmapWindow { id } => spec_unmap(s, id),
        SceneOp::RaiseWindow { id } => spec_raise(s, id),
    }
}

/// The stack that a whole history of operations leaves behind, starting
/// from `s`.
pub open spec fn scene_run(s: Seq<Window>, ops: Seq<SceneOp>) -> Seq<Window>
    decreases ops.len(),
{
    if ops.len() == 0 {
        s
    } else {
        scene_step(scene_run(s, ops.drop_last()), ops.last())
    }
}

/// Each single operation preserves the strict total stacking order.
pub proof fn lemma_scene_step_preserves_wf(s: Seq<Window>, op: SceneOp)
    requires
        wf_stack(s),
    ensures
        wf_stack(scene_step(s, op)),
{
    match op {
        SceneOp::MapWindow { id, rect, role, activate } => {
            if contains_id(s, id) {
                let i = idx_of(s, id);
                let w = Window { id, rect, role: s[i].role };
                if activate {
                    lemma_wf_remove(s, i);
                    lemma_wf_push(s.remove(i), w);
                } else {
                    let t = s.update(i, w);
                    assert forall|a: int, b: int| 0 <= a < b < t.len()
                        implies t[a].id != t[b].id by {
                        assert(t[a].id == s[a].id && t[b].id == s[b].id);
                    }
                }
            } else {
                lemma_wf_push(s, Window { id, rect, role });
            }
        }
        SceneOp::UnmapWindow { id } => {
            if contains_id(s, id) {
                lemma_wf_remove(s, idx_of(s, id));
            }
        }
        SceneOp::RaiseWindow { id } => {
            if contains_id(s, id) {
                let i = idx_of(s, id);
                lemma_wf_remove(s, i);
                lemma_wf_push(s.remove(i), s[i]);
            }
        }
    }
}

/// For any sequence of map, unmap and raise operations applied to a
/// well-formed scene, the stacking remains a strict total order: no two
/// windows ever share a z-position.
pub proof fn lemma_stacking_strict_total_order(s: Seq<Window>, ops: Seq<SceneOp>)
    requires
        wf_stack(s),
    ensures
        wf_stack(scene_run(s, ops)),
    decreases ops.len(),
{
    if ops.len() > 0 {
        lemma_stacking_strict_total_order(s, ops.drop_last());
        lemma_scene_step_preserves_wf(scene_run(s, ops.drop_last()), ops.last());
    }
}

/// Removing any element preserves distinctness of ids.
pub proof fn lemma_wf_remove(s: Seq<Window>, i: int)
    requires
        wf_stack(s),
        0 <= i < s.len(),
    ensures
        wf_stack(s.remove(i)),
        forall|id: u64| id != s[i].id ==> (contains_id(s.remove(i), id) == contains_id(s, id)),
        !contains_id(s.remove(i), s[i].id),
{
    let t = s.remove(i);
    assert forall|a: int, b: int| 0 <= a < b < t.len() implies t[a].id != t[b].id by {
        let a0 = if a < i { a } else { a + 1 };
        let b0 = if b < i { b } else { b + 1 };
        assert(t[a] == s[a0] && t[b] == s[b0]);
    }
    assert forall|id: u64| id != s[i].id implies
        (contains_id(t, id) == contains_id(s, id)) by {
        if contains_id(s, id) {
            let k = choose|k: int| 0 <= k < s.len() && s[k].id == id;
            if k < i {
                assert(t[k].id == id);
            } else {
                assert(t[k - 1].id == id);
            }
        }
        if contains_id(t, id) {
            let k = choose|k: int| 0 <= k < t.len() && t[k].id == id;
            let k0 = if k < i { k } else { k + 1 };
            assert(s[k0].id == id);
        }
    }
    if contains_id(t, s[i].id) {
        let k = choose|k: int| 0 <= k < t.len() && t[k].id == s[i].id;
        let k0 = if k < i { k } else { k + 1 };
        assert(s[k0].id == s[i].id && k0 != i);
    }
}

/// Pushing a window whose id is fresh preserves distinctness of ids.
pub proof fn lemma_wf_push(s: Seq<Window>, w: Window)
    requires
        wf_stack(s),
        !contains_id(s, w.id),
    ensures
        wf_stack(s.push(w)),
{
    let t = s.push(w);
    assert forall|a: int, b: int| 0 <= a < b < t.len() implies t[a].id != t[b].id by {
        if b == s.len() {
            assert(t[a] == s[a]);
            if s[a].id == w.id {
                assert(contains_id(s, w.id));
            }
        } else {
            assert(t[a] == s[a] && t[b] == s[b]);
        }
    }
}

} // verus!
