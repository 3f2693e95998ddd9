//! The compositor context: configuration, scene, seat and outputs, owned as
//! fields and passed by exclusive reference into every operation.
//!
//! `render` is one scheduling pass of the frame loop: every enabled output
//! that is idle, carries pending damage and — when it has no hardware vsync
//! source — whose software frame interval has elapsed, gets a freshly
//! composited buffer submitted to its presenter; everything else is skipped,
//! so backpressure on one output never stalls another.

use vstd::prelude::*;

use crate::compositor::software_due;
use crate::compositor::spec_software_due;
use crate::config::Config;
use crate::errors::CoreError;
use crate::geometry::Point;
use crate::geometry::Rect;
use crate::input::DispatchEvent;
use crate::input::InputEvent;
use crate::input::KeyAction;
use crate::input::Seat;
use crate::input::spec_motion_events;
use crate::presenter::FrameState;
use crate::presenter::Presenter;
use crate::renderer::RendererBackend;
use crate::renderer::select_renderer;
use crate::scene::Role;
use crate::scene::SceneGraph;
use crate::scene::Window;
use crate::scene::contains_id;
use crate::scene::role_of;
use crate::scene::spec_map;
use crate::scene::spec_unmap;

verus! {

/// Renderer failures tolerated on one output before it is disabled.
pub const MAX_RENDER_FAILURES: u32 = 3;

/// A display sink: geometry and mode, its compositing backend, and its
/// presentation state machine.
pub struct Output {
    pub id: u64,
    pub rect: Rect,
    pub refresh_hz: u32,
    pub scale: u32,
    pub has_vsync: bool,
    pub enabled: bool,
    pub render_failures: u32,
    pub damage: bool,
    pub backend: RendererBackend,
    pub presenter: Presenter,
    pub last_submit_ms: u64,
}

impl Output {
    pub open spec fn wf(self) -> bool {
        &&& self.presenter.wf()
        &&& !self.backend.frame_open
    }
}

/// One frame submission the loop hands to the hardware: which output flips
/// to which buffer, gated by which fence.
#[derive(Clone, Copy, PartialEq, Eq, Structural, Debug)]
pub struct Submission {
    pub output: u64,
    pub buffer: u64,
    pub fence: u64,
}

/// Whether some output in `s` is the sink with this id.
pub open spec fn contains_output(s: Seq<Output>, id: u64) -> bool {
    exists|i: int| 0 <= i < s.len() && s[i].id == id
}

/// The index of the output with this id; meaningful when present and ids
/// are distinct.
pub open spec fn output_idx(s: Seq<Output>, id: u64) -> int {
    choose|i: int| 0 <= i < s.len() && s[i].id == id
}

/// Whether output `o` is due a frame at `now_ms`: enabled, idle, damaged,
/// and — without a hardware vsync source — past its software interval.
pub open spec fn frame_due(o: Output, cfg: Config, now_ms: u64) -> bool {
    &&& o.enabled
    &&& o.damage
    &&& o.presenter.is_idle()
    &&& (o.has_vsync || spec_software_due(now_ms, o.last_submit_ms, cfg.fps_limit))
}

/// How many of the first `i` outputs are due a frame; gives each submission
/// of one pass its buffer and fence ids.
pub open spec fn dues_before(s: Seq<Output>, cfg: Config, now_ms: u64, i: int) -> int
    decreases i,
{
    if i <= 0 {
        0
    } else {
        dues_before(s, cfg, now_ms, i - 1) + if frame_due(s[i - 1], cfg, now_ms) {
            1int
        } else {
            0int
        }
    }
}

pub proof fn lemma_dues_before_le(s: Seq<Output>, cfg: Config, now_ms: u64, i: int)
    requires
        i >= 0,
    ensures
        0 <= dues_before(s, cfg, now_ms, i) <= i,
    decreases i,
{
    if i > 0 {
        lemma_dues_before_le(s, cfg, now_ms, i - 1);
    }
}

/// Once an output due a frame has been counted, the running count stays
/// strictly above its submission index.
pub proof fn lemma_dues_before_mono(s: Seq<Output>, cfg: Config, now_ms: u64, j: int, i: int)
    requires
        0 <= j < i,
        frame_due(s[j], cfg, now_ms),
    ensures
        dues_before(s, cfg, now_ms, j) < dues_before(s, cfg, now_ms, i),
    decreases i,
{
    if i == j + 1 {
    } else {
        lemma_dues_before_mono(s, cfg, now_ms, j, i - 1);
    }
}

pub struct State {
    pub config: Config,
    pub scene: SceneGraph,
    pub seat: Seat,
    pub outputs: Vec<Output>,
    pub running: bool,
    /// The buffer allocation pool: ids below this are allocated, and every
    /// buffer a presenter holds came from it.
    pub next_buffer: u64,
    pub next_fence: u64,
}

impl State {
    pub open spec fn wf(self) -> bool {
        &&& self.scene.wf()
        &&& self.seat.wf()
        &&& (forall|i: int| 0 <= i < self.outputs@.len() ==> (#[trigger] self.outputs@[i]).wf())
        &&& (forall|i: int, j: int| 0 <= i < j < self.outputs@.len()
            ==> self.outputs@[i].id != self.outputs@[j].id)
        &&& (forall|i: int, b: u64| 0 <= i < self.outputs@.len()
            ==> #[trigger] self.outputs@[i].presenter.holds(b) ==> b < self.next_buffer)
    }

    pub fn new(config: Config) -> (r: State)
        ensures
            r.config == config,
            r.scene.windows@ == Seq::<Window>::empty(),
            r.seat.pointer_focus is None,
            r.seat.keyboard_focus is None,
            r.outputs@ == Seq::<Output>::empty(),
            r.running == true,
            r.next_buffer == 0,
            r.next_fence == 0,
            r.wf(),
    {
        State {
            config,
            scene: SceneGraph::new(),
            seat: Seat::new(),
            outputs: Vec::new(),
            running: true,
            next_buffer: 0,
            next_fence: 0,
        }
    }

    fn find_output(&self, id: u64) -> (r: Option<usize>)
        requires
            self.wf(),
        ensures
            match r {
                Some(i) => i < self.outputs@.len() && self.outputs@[i as int].id == id
                    && i as int == output_idx(self.outputs@, id),
                None => !contains_output(self.outputs@, id),
            },
    {
        let n = self.outputs.len();
        let mut i: usize = 0;
        while i < n
            invariant
                self.wf(),
                n == self.outputs@.len(),
                i <= n,
                forall|j: int| 0 <= j < i ==> self.outputs@[j].id != id,
            decreases n - i,
        {
            if self.outputs[i].id == id {
                proof {
                    let k = output_idx(self.outputs@, id);
                    assert(0 <= k < self.outputs@.len() && self.outputs@[k].id == id);
                    assert(k == i as int);
                }
                return Some(i);
            }
            i += 1;
        }
        None
    }

    /// Hotplug-add: create an output for the new device, mapped at the
    /// origin of the global space, with the backend the configuration and
    /// the device's capabilities select. A device id already present is
    /// tolerated and changes nothing.
    pub fn handle_device_added(&mut self, id: u64, width: u32, height: u32, refresh_hz: u32,
        has_vsync: bool, vulkan_available: bool)
        requires
            old(self).wf(),
        ensures
            final(self).wf(),
            contains_output(old(self).outputs@, id) ==> *final(self) == *old(self),
            !contains_output(old(self).outputs@, id) ==> {
                &&& final(self).outputs@.len() == old(self).outputs@.len() + 1
                &&& (forall|j: int| 0 <= j < old(self).outputs@.len()
                    ==> final(self).outputs@[j] == old(self).outputs@[j])
                &&& {
                    let o = final(self).outputs@.last();
                    &&& o.id == id
                    &&& o.rect == (Rect { x: 0, y: 0, w: width, h: height })
                    &&& o.refresh_hz == refresh_hz
                    &&& o.scale == 1
                    &&& o.has_vsync == has_vsync
                    &&& o.enabled
                    &&& o.render_failures == 0
                    &&& !o.damage
                    &&& o.backend.ty == crate::renderer::spec_select_renderer(
                        old(self).config.use_vulkan, vulkan_available)
                    &&& !o.backend.frame_open
                    &&& o.presenter.is_idle()
                    &&& o.presenter.front is None
                    &&& o.presenter.release_queue@ == Seq::<FrameState>::empty()
                    &&& o.last_submit_ms == 0
                }
                &&& final(self).scene == old(self).scene
                &&& final(self).config == old(self).config
                &&& final(self).running == old(self).running
                &&& final(self).next_buffer == old(self).next_buffer
                &&& final(self).next_fence == old(self).next_fence
            },
    {
        if self.find_output(id).is_some() {
            return;
        }
        let ty = select_renderer(self.config.use_vulkan, vulkan_available);
        let output = Output {
            id,
            rect: Rect { x: 0, y: 0, w: width, h: height },
            refresh_hz,
            scale: 1,
            has_vsync,
            enabled: true,
            render_failures: 0,
            damage: false,
            backend: RendererBackend { ty, frame_open: false, drawn: Vec::new() },
            presenter: Presenter::new(),
            last_submit_ms: 0,
        };
        self.outputs.push(output);
    }

    /// Hotplug-remove: take the output out of the scheduling set and hand it
    /// back, so the caller can cancel its pending flip, wait (bounded) on
    /// its outstanding fences and release its buffers.
    pub fn handle_device_removed(&mut self, id: u64) -> (r: Option<Output>)
        requires
            old(self).wf(),
        ensures
            final(self).wf(),
            !contains_output(old(self).outputs@, id) ==> r is None
                && *final(self) == *old(self),
            contains_output(old(self).outputs@, id) ==> {
                let k = output_idx(old(self).outputs@, id);
                &&& r matches Some(o) && o == old(self).outputs@[k] && o.wf()
                &&& final(self).outputs@ == old(self).outputs@.remove(k)
                &&& final(self).scene == old(self).scene
                &&& final(self).config == old(self).config
                &&& final(self).running == old(self).running
                &&& final(self).next_buffer == old(self).next_buffer
                &&& final(self).next_fence == old(self).next_fence
            },
    {
        match self.find_output(id) {
            Some(i) => {
                let o = self.outputs.remove(i);
                proof {
                    let s0 = old(self).outputs@;
                    let t = self.outputs@;
                    assert forall|a: int, b: int| 0 <= a < b < t.len()
                        implies t[a].id != t[b].id by {
                        let a0 = if a < i { a } else { a + 1 };
                        let b0 = if b < i { b } else { b + 1 };
                        assert(t[a] == s0[a0] && t[b] == s0[b0]);
                    }
                    assert forall|a: int| 0 <= a < t.len() implies (#[trigger] t[a]).wf() by {
                        let a0 = if a < i { a } else { a + 1 };
                        assert(t[a] == s0[a0]);
                    }
                    assert forall|a: int, b: u64| 0 <= a < t.len()
                        && #[trigger] t[a].presenter.holds(b)
                        implies b < self.next_buffer by {
                        let a0 = if a < i { a } else { a + 1 };
                        assert(t[a] == s0[a0]);
                    }
                }
                Some(o)
            }
            None => None,
        }
    }

    /// Mark every output as needing a redraw.
    fn mark_all_damaged(&mut self)
        requires
            old(self).wf(),
        ensures
            final(self).wf(),
            final(self).outputs@.len() == old(self).outputs@.len(),
            forall|j: int| 0 <= j < old(self).outputs@.len()
                ==> final(self).outputs@[j] == (Output {
                    damage: true,
                    ..old(self).outputs@[j]
                }),
            final(self).scene == old(self).scene,
            final(self).seat == old(self).seat,
            final(self).config == old(self).config,
            final(self).running == old(self).running,
            final(self).next_buffer == old(self).next_buffer,
            final(self).next_fence == old(self).next_fence,
    {
        let n = self.outputs.len();
        let mut i: usize = 0;
        while i < n
            invariant
                n == old(self).outputs@.len(),
                self.outputs@.len() == n,
                i <= n,
                forall|j: int| 0 <= j < i ==> self.outputs@[j] == (Output {
                    damage: true,
                    ..old(self).outputs@[j]
                }),
                forall|j: int| i <= j < n ==> self.outputs@[j] == old(self).outputs@[j],
                self.scene == old(self).scene,
                self.seat == old(self).seat,
                self.config == old(self).config,
                self.running == old(self).running,
                self.next_buffer == old(self).next_buffer,
                self.next_fence == old(self).next_fence,
            decreases n - i,
        {
            let o = &mut self.outputs[i];
            o.damage = true;
            i += 1;
        }
        proof {
            assert forall|a: int| 0 <= a < self.outputs@.len()
                implies (#[trigger] self.outputs@[a]).wf() by {
                assert(old(self).outputs@[a].wf());
            }
            assert forall|a: int, b: u64| 0 <= a < self.outputs@.len()
                && #[trigger] self.outputs@[a].presenter.holds(b)
                implies b < self.next_buffer by {
                assert(old(self).outputs@[a].presenter.holds(b));
            }
        }
    }

    /// A new toplevel surface: wrap it in a window mapped at the origin and
    /// activate it. Announcing an already-mapped toplevel again is a
    /// membership no-op that updates the placement only (and raises it,
    /// being an activation). A surface already mapped under a *different*
    /// role is a role conflict — a protocol violation: the offending
    /// surface's window is destroyed and the violation reported, but the
    /// process continues.
    pub fn new_toplevel_surface(&mut self, surface: u64, width: u32, height: u32)
        -> (r: Result<(), CoreError>)
        requires
            old(self).wf(),
        ensures
            final(self).wf(),
            (!contains_id(old(self).scene.windows@, surface)
                || role_of(old(self).scene.windows@, surface) == Role::Toplevel) ==> r is Ok
                && final(self).scene.windows@ == spec_map(old(self).scene.windows@, surface,
                    Rect { x: 0, y: 0, w: width, h: height }, Role::Toplevel, true),
            contains_id(old(self).scene.windows@, surface)
                && role_of(old(self).scene.windows@, surface) != Role::Toplevel
                ==> r == Result::<(), CoreError>::Err(CoreError::Protocol)
                && final(self).scene.windows@ == spec_unmap(old(self).scene.windows@, surface),
            final(self).outputs@.len() == old(self).outputs@.len(),
            forall|j: int| 0 <= j < old(self).outputs@.len()
                ==> final(self).outputs@[j] == (Output {
                    damage: true,
                    ..old(self).outputs@[j]
                }),
            final(self).seat == old(self).seat,
            final(self).config == old(self).config,
            final(self).running == old(self).running,
            final(self).next_buffer == old(self).next_buffer,
            final(self).next_fence == old(self).next_fence,
    {
        self.map_surface(surface, Rect { x: 0, y: 0, w: width, h: height }, Role::Toplevel, true)
    }

    /// Map `surface` under `role`, or update its placement when it is
    /// already mapped under the same role; a different role is the conflict
    /// that destroys the offending window.
    fn map_surface(&mut self, surface: u64, rect: Rect, role: Role, activate: bool)
        -> (r: Result<(), CoreError>)
        requires
            old(self).wf(),
        ensures
            final(self).wf(),
            (!contains_id(old(self).scene.windows@, surface)
                || role_of(old(self).scene.windows@, surface) == role) ==> r is Ok
                && final(self).scene.windows@ == spec_map(old(self).scene.windows@, surface,
                    rect, role, activate),
            contains_id(old(self).scene.windows@, surface)
                && role_of(old(self).scene.windows@, surface) != role
                ==> r == Result::<(), CoreError>::Err(CoreError::Protocol)
                && final(self).scene.windows@ == spec_unmap(old(self).scene.windows@, surface),
            final(self).outputs@.len() == old(self).outputs@.len(),
            forall|j: int| 0 <= j < old(self).outputs@.len()
                ==> final(self).outputs@[j] == (Output {
                    damage: true,
                    ..old(self).outputs@[j]
                }),
            final(self).seat == old(self).seat,
            final(self).config == old(self).config,
            final(self).running == old(self).running,
            final(self).next_buffer == old(self).next_buffer,
            final(self).next_fence == old(self).next_fence,
    {
        let conflict = match self.scene.get(surface) {
            Some(w) => w.role != role,
            None => false,
        };
        if conflict {
            self.scene.unmap(surface);
            self.mark_all_damaged();
            Err(CoreError::Protocol)
        } else {
            self.scene.map(surface, rect, role, activate);
            self.mark_all_damaged();
            Ok(())
        }
    }

    /// The legacy-window adapter merged a foreign window into the scene as
    /// an ordinary entry, at the placement the adapter supplies; announcing
    /// it again updates the placement only. A surface already mapped under a
    /// different role is the role conflict that destroys it.
    pub fn add_foreign_window(&mut self, surface: u64, rect: Rect) -> (r: Result<(), CoreError>)
        requires
            old(self).wf(),
        ensures
            final(self).wf(),
            (!contains_id(old(self).scene.windows@, surface)
                || role_of(old(self).scene.windows@, surface) == Role::Foreign) ==> r is Ok
                && final(self).scene.windows@ == spec_map(old(self).scene.windows@, surface,
                    rect, Role::Foreign, false),
            contains_id(old(self).scene.windows@, surface)
                && role_of(old(self).scene.windows@, surface) != Role::Foreign
                ==> r == Result::<(), CoreError>::Err(CoreError::Protocol)
                && final(self).scene.windows@ == spec_unmap(old(self).scene.windows@, surface),
            final(self).outputs@.len() == old(self).outputs@.len(),
            forall|j: int| 0 <= j < old(self).outputs@.len()
                ==> final(self).outputs@[j] == (Output {
                    damage: true,
                    ..old(self).outputs@[j]
                }),
            final(self).seat == old(self).seat,
            final(self).config == old(self).config,
            final(self).running == old(self).running,
            final(self).next_buffer == old(self).next_buffer,
            final(self).next_fence == old(self).next_fence,
    {
        self.map_surface(surface, rect, Role::Foreign, false)
    }

    /// A client committed new content: when the surface is mapped and the
    /// damage region is not empty, every output needs a redraw; a commit
    /// with empty damage changes nothing and leads to no flip.
    pub fn surface_commit(&mut self, surface: u64, damage_nonempty: bool)
        requires
            old(self).wf(),
        ensures
            final(self).wf(),
            final(self).scene == old(self).scene,
            final(self).seat == old(self).seat,
            final(self).config == old(self).config,
            final(self).running == old(self).running,
            final(self).next_buffer == old(self).next_buffer,
            final(self).next_fence == old(self).next_fence,
            contains_id(old(self).scene.windows@, surface) && damage_nonempty ==> {
                &&& final(self).outputs@.len() == old(self).outputs@.len()
                &&& (forall|j: int| 0 <= j < old(self).outputs@.len()
                    ==> final(self).outputs@[j] == (Output {
                        damage: true,
                        ..old(self).outputs@[j]
                    }))
            },
            !(contains_id(old(self).scene.windows@, surface) && damage_nonempty)
                ==> *final(self) == *old(self),
    {
        let mapped = self.scene.is_mapped(surface);
        if mapped && damage_nonempty {
            self.mark_all_damaged();
        }
    }

    /// The protocol collaborator destroyed a surface: its window leaves the
    /// scene, and any focus it held is dropped.
    pub fn surface_destroy(&mut self, surface: u64)
        requires
            old(self).wf(),
        ensures
            final(self).wf(),
            final(self).scene.windows@ == spec_unmap(old(self).scene.windows@, surface),
            final(self).seat.pointer_focus == if old(self).seat.pointer_focus == Some(surface) {
                None::<u64>
            } else {
                old(self).seat.pointer_focus
            },
            final(self).seat.keyboard_focus == if old(self).seat.keyboard_focus == Some(surface) {
                None::<u64>
            } else {
                old(self).seat.keyboard_focus
            },
            final(self).seat.pressed@ == old(self).seat.pressed@,
            final(self).seat.modifiers == old(self).seat.modifiers,
            final(self).seat.pointer == old(self).seat.pointer,
            contains_id(old(self).scene.windows@, surface) ==> {
                &&& final(self).outputs@.len() == old(self).outputs@.len()
                &&& (forall|j: int| 0 <= j < old(self).outputs@.len()
                    ==> final(self).outputs@[j] == (Output {
                        damage: true,
                        ..old(self).outputs@[j]
                    }))
            },
            !contains_id(old(self).scene.windows@, surface)
                ==> final(self).outputs@ == old(self).outputs@,
            final(self).config == old(self).config,
            final(self).running == old(self).running,
            final(self).next_buffer == old(self).next_buffer,
            final(self).next_fence == old(self).next_fence,
    {
        let mapped = self.scene.is_mapped(surface);
        if let Some(f) = self.seat.pointer_focus {
            if f == surface {
                self.seat.pointer_focus = None;
            }
        }
        if let Some(f) = self.seat.keyboard_focus {
            if f == surface {
                self.seat.keyboard_focus = None;
            }
        }
        if mapped {
            self.scene.unmap(surface);
            self.mark_all_damaged();
        }
    }
}

/// What one submitted output looks like after a render pass, next to what it
/// was before: freshly composited from the scene, flip pending under the
/// given buffer and fence, damage cleared, everything else untouched.
pub open spec fn submitted_ok(oo: Output, fo: Output, scene: SceneGraph, now_ms: u64,
    buffer: u64, fence: u64) -> bool {
    &&& fo.id == oo.id
    &&& fo.rect == oo.rect
    &&& fo.refresh_hz == oo.refresh_hz
    &&& fo.scale == oo.scale
    &&& fo.has_vsync == oo.has_vsync
    &&& fo.enabled == oo.enabled
    &&& fo.render_failures == oo.render_failures
    &&& !fo.damage
    &&& fo.last_submit_ms == now_ms
    &&& fo.backend.ty == oo.backend.ty
    &&& !fo.backend.frame_open
    &&& fo.backend.drawn@ == scene.windows@.filter(|w: Window| w.rect.spec_overlaps(oo.rect))
    &&& fo.presenter.pending == Some(FrameState { buffer, fence, timestamp: None })
    &&& fo.presenter.front == oo.presenter.front
    &&& fo.presenter.release_queue@ == oo.presenter.release_queue@
    &&& fo.presenter.last_present_time == oo.presenter.last_present_time
}

impl State {
    /// One scheduling pass of the frame loop. Every output that is due a
    /// frame — enabled, presenter idle, damage pending, and past its
    /// software interval when it has no hardware vsync — gets the scene
    /// composited through its backend and the result submitted to its
    /// presenter; all other outputs are left exactly as they are, so a
    /// busy or undamaged output is skipped, never queued behind.
    pub fn render(&mut self, now_ms: u64) -> (subs: Vec<Submission>)
        requires
            old(self).wf(),
            old(self).next_buffer + old(self).outputs@.len() <= u64::MAX,
            old(self).next_fence + old(self).outputs@.len() <= u64::MAX,
        ensures
            final(self).wf(),
            final(self).outputs@.len() == old(self).outputs@.len(),
            forall|j: int| 0 <= j < old(self).outputs@.len()
                && frame_due(old(self).outputs@[j], old(self).config, now_ms)
                ==> submitted_ok(old(self).outputs@[j], #[trigger] final(self).outputs@[j],
                    old(self).scene, now_ms,
                    (old(self).next_buffer + dues_before(old(self).outputs@, old(self).config,
                        now_ms, j)) as u64,
                    (old(self).next_fence + dues_before(old(self).outputs@, old(self).config,
                        now_ms, j)) as u64),
            forall|j: int| 0 <= j < old(self).outputs@.len()
                && !frame_due(old(self).outputs@[j], old(self).config, now_ms)
                ==> #[trigger] final(self).outputs@[j] == old(self).outputs@[j],
            final(self).next_buffer == old(self).next_buffer
                + dues_before(old(self).outputs@, old(self).config, now_ms,
                    old(self).outputs@.len() as int),
            final(self).next_fence == old(self).next_fence
                + dues_before(old(self).outputs@, old(self).config, now_ms,
                    old(self).outputs@.len() as int),
            subs@.len() == dues_before(old(self).outputs@, old(self).config, now_ms,
                old(self).outputs@.len() as int),
            forall|j: int| 0 <= j < old(self).outputs@.len()
                && frame_due(#[trigger] old(self).outputs@[j], old(self).config, now_ms)
                ==> subs@[dues_before(old(self).outputs@, old(self).config, now_ms, j)]
                    == (Submission {
                        output: old(self).outputs@[j].id,
                        buffer: (old(self).next_buffer + dues_before(old(self).outputs@,
                            old(self).config, now_ms, j)) as u64,
                        fence: (old(self).next_fence + dues_before(old(self).outputs@,
                            old(self).config, now_ms, j)) as u64,
                    }),
            final(self).scene == old(self).scene,
            final(self).seat == old(self).seat,
            final(self).config == old(self).config,
            final(self).running == old(self).running,
    {
        let ghost s0 = old(self).outputs@;
        let ghost cfg = old(self).config;
        let mut subs: Vec<Submission> = Vec::new();
        let n = self.outputs.len();
        let mut i: usize = 0;
        while i < n
            invariant
                n == s0.len(),
                self.outputs@.len() == n,
                i <= n,
                cfg == old(self).config,
                s0 == old(self).outputs@,
                self.scene == old(self).scene,
                self.seat == old(self).seat,
                self.config == old(self).config,
                self.running == old(self).running,
                old(self).next_buffer + s0.len() <= u64::MAX,
                old(self).next_fence + s0.len() <= u64::MAX,
                self.next_buffer == old(self).next_buffer + dues_before(s0, cfg, now_ms, i as int),
                self.next_fence == old(self).next_fence + dues_before(s0, cfg, now_ms, i as int),
                subs@.len() == dues_before(s0, cfg, now_ms, i as int),
                forall|j: int| i <= j < n ==> #[trigger] self.outputs@[j] == s0[j],
                forall|j: int| 0 <= j < i && !frame_due(s0[j], cfg, now_ms)
                    ==> #[trigger] self.outputs@[j] == s0[j],
                forall|j: int| 0 <= j < i && frame_due(s0[j], cfg, now_ms)
                    ==> submitted_ok(s0[j], #[trigger] self.outputs@[j], old(self).scene, now_ms,
                        (old(self).next_buffer + dues_before(s0, cfg, now_ms, j)) as u64,
                        (old(self).next_fence + dues_before(s0, cfg, now_ms, j)) as u64),
                forall|j: int| 0 <= j < i && frame_due(#[trigger] s0[j], cfg, now_ms)
                    ==> subs@[dues_before(s0, cfg, now_ms, j)] == (Submission {
                        output: s0[j].id,
                        buffer: (old(self).next_buffer + dues_before(s0, cfg, now_ms, j)) as u64,
                        fence: (old(self).next_fence + dues_before(s0, cfg, now_ms, j)) as u64,
                    }),
                forall|j: int| 0 <= j < n ==> (#[trigger] self.outputs@[j]).wf(),
                forall|j: int| 0 <= j < n ==> (#[trigger] self.outputs@[j]).id == s0[j].id,
                forall|j: int, b: u64| 0 <= j < n
                    ==> #[trigger] self.outputs@[j].presenter.holds(b) ==> b < self.next_buffer,
                self.scene.wf(),
                self.seat.wf(),
                forall|a: int, b: int| 0 <= a < b < n ==> s0[a].id != s0[b].id,
            decreases n - i,
        {
            let ghost pre_outputs = self.outputs@;
            let ghost pre_nb = self.next_buffer;
            let ghost pre_subs = subs@;
            proof {
                lemma_dues_before_le(s0, cfg, now_ms, i as int);
            }
            let due = {
                let o = &self.outputs[i];
                o.enabled && o.damage && o.presenter.idle()
                    && (o.has_vsync || software_due(now_ms, o.last_submit_ms,
                        self.config.fps_limit))
            };
            proof {
                assert(due == frame_due(s0[i as int], cfg, now_ms));
            }
            if due {
                let rect = self.outputs[i].rect;
                let id = self.outputs[i].id;
                let list = self.scene.render_list(rect);
                let buffer = self.next_buffer;
                let fence = self.next_fence;
                self.next_buffer = self.next_buffer + 1;
                self.next_fence = self.next_fence + 1;
                let o = &mut self.outputs[i];
                o.backend.begin_frame();
                o.backend.draw_all(&list);
                o.backend.end_frame();
                let _ = o.presenter.submit(buffer, fence);
                o.damage = false;
                o.last_submit_ms = now_ms;
                subs.push(Submission { output: id, buffer, fence });
                proof {
                    assert(buffer == pre_nb
                        && pre_nb == old(self).next_buffer + dues_before(s0, cfg, now_ms, i as int));
                    assert(dues_before(s0, cfg, now_ms, i + 1)
                        == dues_before(s0, cfg, now_ms, i as int) + 1);
                    assert(self.outputs@[i as int].backend.drawn@
                        =~= old(self).scene.windows@.filter(
                            |w: Window| w.rect.spec_overlaps(rect)));
                    assert(submitted_ok(s0[i as int], self.outputs@[i as int], old(self).scene,
                        now_ms, buffer, fence));
                    assert(subs@[dues_before(s0, cfg, now_ms, i as int)]
                        == (Submission { output: s0[i as int].id, buffer, fence }));
                    assert forall|j: int| 0 <= j < i && frame_due(#[trigger] s0[j], cfg, now_ms)
                        implies subs@[dues_before(s0, cfg, now_ms, j)] == (Submission {
                            output: s0[j].id,
                            buffer: (old(self).next_buffer
                                + dues_before(s0, cfg, now_ms, j)) as u64,
                            fence: (old(self).next_fence
                                + dues_before(s0, cfg, now_ms, j)) as u64,
                        }) by {
                        lemma_dues_before_le(s0, cfg, now_ms, j);
                        assert(dues_before(s0, cfg, now_ms, j) < pre_subs.len()) by {
                            lemma_dues_before_mono(s0, cfg, now_ms, j, i as int);
                        }
                        assert(subs@[dues_before(s0, cfg, now_ms, j)]
                            == pre_subs[dues_before(s0, cfg, now_ms, j)]);
                    }
                    assert forall|j: int, b: u64| 0 <= j < n
                        && #[trigger] self.outputs@[j].presenter.holds(b)
                        implies b < self.next_buffer by {
                        if j != i {
                            assert(self.outputs@[j] == pre_outputs[j]);
                            assert(pre_outputs[j].presenter.holds(b));
                            assert(b < pre_nb);
                        } else {
                            let p_new = self.outputs@[i as int].presenter;
                            let p_old = pre_outputs[i as int].presenter;
                            assert(p_new.front == p_old.front
                                && p_new.release_queue@ == p_old.release_queue@);
                            if b != buffer {
                                assert(crate::presenter::held_buffers(p_old.pending, p_old.front,
                                    p_old.release_queue@).contains(b));
                                assert(pre_outputs[i as int].presenter.holds(b));
                                assert(b < pre_nb);
                            }
                        }
                    }
                }
            }
            i += 1;
        }
        subs
    }
}

impl State {
    /// The hardware confirmed a page flip on one output: its presenter goes
    /// back to idle, records the timestamp, and queues the previous front
    /// buffer for fence-gated release. An event for an unknown output, or
    /// one with no flip pending, changes nothing.
    pub fn handle_flip_complete(&mut self, output_id: u64, timestamp: u64) -> (r: bool)
        requires
            old(self).wf(),
        ensures
            final(self).wf(),
            !contains_output(old(self).outputs@, output_id) ==> !r && *final(self) == *old(self),
            contains_output(old(self).outputs@, output_id) ==> {
                let k = output_idx(old(self).outputs@, output_id);
                let oo = old(self).outputs@[k];
                let fo = final(self).outputs@[k];
                &&& r == !oo.presenter.is_idle()
                &&& final(self).outputs@.len() == old(self).outputs@.len()
                &&& (forall|j: int| 0 <= j < old(self).outputs@.len() && j != k
                    ==> final(self).outputs@[j] == old(self).outputs@[j])
                &&& (oo.presenter.pending matches Some(p) ==> {
                    &&& fo.presenter.pending is None
                    &&& fo.presenter.front == Some(FrameState {
                        buffer: p.buffer, fence: p.fence, timestamp: Some(timestamp) })
                    &&& fo.presenter.release_queue@ == match oo.presenter.front {
                        Some(f) => oo.presenter.release_queue@.push(f),
                        None => oo.presenter.release_queue@,
                    }
                    &&& fo.presenter.last_present_time == Some(timestamp)
                })
                &&& (oo.presenter.is_idle() ==> fo == oo)
                &&& fo.id == oo.id && fo.rect == oo.rect && fo.damage == oo.damage
                &&& fo.enabled == oo.enabled && fo.backend == oo.backend
                &&& fo.last_submit_ms == oo.last_submit_ms
                &&& fo.refresh_hz == oo.refresh_hz && fo.scale == oo.scale
                &&& fo.has_vsync == oo.has_vsync && fo.render_failures == oo.render_failures
                &&& final(self).scene == old(self).scene
                &&& final(self).seat == old(self).seat
                &&& final(self).config == old(self).config
                &&& final(self).running == old(self).running
                &&& final(self).next_buffer == old(self).next_buffer
                &&& final(self).next_fence == old(self).next_fence
            },
    {
        match self.find_output(output_id) {
            Some(k) => {
                let ghost pre = self.outputs@;
                let o = &mut self.outputs[k];
                let r = o.presenter.on_flip_complete(timestamp);
                proof {
                    assert forall|j: int, b: u64| 0 <= j < self.outputs@.len()
                        && #[trigger] self.outputs@[j].presenter.holds(b)
                        implies b < self.next_buffer by {
                        if j == k {
                            let p_new = self.outputs@[k as int].presenter;
                            let p_old = pre[k as int].presenter;
                            lemma_held_after_flip(p_old, p_new, b);
                            assert(pre[k as int].presenter.holds(b));
                        } else {
                            assert(self.outputs@[j] == pre[j]);
                            assert(pre[j].presenter.holds(b));
                        }
                    }
                }
                r
            }
            None => false,
        }
    }

    /// The GPU signaled some fences: hand back, for one output, every queued
    /// buffer whose render fence is among them. No buffer leaves before its
    /// fence has signaled. An unknown output releases nothing.
    pub fn collect_output_releases(&mut self, output_id: u64, signaled: &Vec<u64>)
        -> (released: Vec<u64>)
        requires
            old(self).wf(),
        ensures
            final(self).wf(),
            !contains_output(old(self).outputs@, output_id)
                ==> released@ == Seq::<u64>::empty() && *final(self) == *old(self),
            contains_output(old(self).outputs@, output_id) ==> {
                let k = output_idx(old(self).outputs@, output_id);
                let oo = old(self).outputs@[k];
                let fo = final(self).outputs@[k];
                &&& final(self).outputs@.len() == old(self).outputs@.len()
                &&& (forall|j: int| 0 <= j < old(self).outputs@.len() && j != k
                    ==> final(self).outputs@[j] == old(self).outputs@[j])
                &&& fo.presenter.release_queue@ == oo.presenter.release_queue@.filter(
                    |f: FrameState| !signaled@.contains(f.fence))
                &&& released@ == oo.presenter.release_queue@.filter(
                    |f: FrameState| signaled@.contains(f.fence))
                    .map_values(|f: FrameState| f.buffer)
                &&& fo.presenter.pending == oo.presenter.pending
                &&& fo.presenter.front == oo.presenter.front
                &&& fo.presenter.last_present_time == oo.presenter.last_present_time
                &&& fo.id == oo.id && fo.rect == oo.rect && fo.damage == oo.damage
                &&& fo.enabled == oo.enabled && fo.backend == oo.backend
                &&& fo.last_submit_ms == oo.last_submit_ms
                &&& fo.refresh_hz == oo.refresh_hz && fo.scale == oo.scale
                &&& fo.has_vsync == oo.has_vsync && fo.render_failures == oo.render_failures
                &&& final(self).scene == old(self).scene
                &&& final(self).seat == old(self).seat
                &&& final(self).config == old(self).config
                &&& final(self).running == old(self).running
                &&& final(self).next_buffer == old(self).next_buffer
                &&& final(self).next_fence == old(self).next_fence
            },
    {
        match self.find_output(output_id) {
            Some(k) => {
                let ghost pre = self.outputs@;
                let o = &mut self.outputs[k];
                let released = o.presenter.collect_releases(signaled);
                proof {
                    assert forall|j: int, b: u64| 0 <= j < self.outputs@.len()
                        && #[trigger] self.outputs@[j].presenter.holds(b)
                        implies b < self.next_buffer by {
                        if j == k {
                            let p_new = self.outputs@[k as int].presenter;
                            let p_old = pre[k as int].presenter;
                            lemma_held_after_filter(p_old, p_new, b,
                                |f: FrameState| !signaled@.contains(f.fence));
                            assert(pre[k as int].presenter.holds(b));
                        } else {
                            assert(self.outputs@[j] == pre[j]);
                            assert(pre[j].presenter.holds(b));
                        }
                    }
                }
                released
            }
            None => Vec::new(),
        }
    }

    /// Compositing a frame failed on one output: fatal to that frame only.
    /// The tick was skipped; after a bounded number of failures the output
    /// is disabled, so one bad output never stalls the others.
    pub fn on_render_failed(&mut self, output_id: u64)
        requires
            old(self).wf(),
        ensures
            final(self).wf(),
            !contains_output(old(self).outputs@, output_id) ==> *final(self) == *old(self),
            contains_output(old(self).outputs@, output_id) ==> {
                let k = output_idx(old(self).outputs@, output_id);
                let oo = old(self).outputs@[k];
                let fo = final(self).outputs@[k];
                &&& final(self).outputs@.len() == old(self).outputs@.len()
                &&& (forall|j: int| 0 <= j < old(self).outputs@.len() && j != k
                    ==> final(self).outputs@[j] == old(self).outputs@[j])
                &&& fo.render_failures == if oo.render_failures < MAX_RENDER_FAILURES {
                    (oo.render_failures + 1) as u32
                } else {
                    oo.render_failures
                }
                &&& fo.enabled == (oo.enabled && fo.render_failures < MAX_RENDER_FAILURES)
                &&& fo.id == oo.id && fo.rect == oo.rect && fo.damage == oo.damage
                &&& fo.presenter == oo.presenter && fo.backend == oo.backend
                &&& fo.last_submit_ms == oo.last_submit_ms
                &&& fo.refresh_hz == oo.refresh_hz && fo.scale == oo.scale
                &&& fo.has_vsync == oo.has_vsync
                &&& final(self).scene == old(self).scene
                &&& final(self).seat == old(self).seat
                &&& final(self).config == old(self).config
                &&& final(self).running == old(self).running
                &&& final(self).next_buffer == old(self).next_buffer
                &&& final(self).next_fence == old(self).next_fence
            },
    {
        match self.find_output(output_id) {
            Some(k) => {
                let ghost pre = self.outputs@;
                let o = &mut self.outputs[k];
                if o.render_failures < MAX_RENDER_FAILURES {
                    o.render_failures = o.render_failures + 1;
                }
                if o.render_failures >= MAX_RENDER_FAILURES {
                    o.enabled = false;
                }
                proof {
                    assert forall|j: int, b: u64| 0 <= j < self.outputs@.len()
                        && #[trigger] self.outputs@[j].presenter.holds(b)
                        implies b < self.next_buffer by {
                        if j == k {
                            assert(pre[k as int].presenter.holds(b));
                        } else {
                            assert(self.outputs@[j] == pre[j]);
                            assert(pre[j].presenter.holds(b));
                        }
                    }
                }
            }
            None => {}
        }
    }
}

/// After a flip completes, the presenter references exactly the buffers it
/// already held: the pending frame became the front, the front joined the
/// release queue.
proof fn lemma_held_after_flip(p_old: Presenter, p_new: Presenter, b: u64)
    requires
        p_old.pending matches Some(pf) ==> {
            &&& p_new.front == Some(FrameState {
                buffer: pf.buffer, fence: pf.fence,
                timestamp: p_new.front.unwrap().timestamp })
            &&& p_new.release_queue@ == match p_old.front {
                Some(f) => p_old.release_queue@.push(f),
                None => p_old.release_queue@,
            }
            &&& p_new.pending is None
        },
        p_old.pending is None ==> p_new.pending == p_old.pending
            && p_new.front == p_old.front && p_new.release_queue@ == p_old.release_queue@,
        p_new.holds(b),
    ensures
        p_old.holds(b),
{
    match p_old.pending {
        Some(pf) => {
            if b == pf.buffer {
            } else {
                match p_old.front {
                    Some(f) => {
                        if b == f.buffer {
                        } else {
                            let q_new = p_new.release_queue@;
                            let q_old = p_old.release_queue@;
                            assert(crate::presenter::held_buffers(p_new.pending, p_new.front,
                                q_new).contains(b));
                            let i = choose|i: int| 0 <= i < q_new.len() && q_new[i].buffer == b;
                            assert(q_new[i] == q_old.push(f)[i]);
                            assert(q_old[i].buffer == b);
                        }
                    }
                    None => {}
                }
            }
        }
        None => {}
    }
}

/// Filtering the release queue only narrows what the presenter references.
proof fn lemma_held_after_filter(p_old: Presenter, p_new: Presenter, b: u64,
    keep: spec_fn(FrameState) -> bool)
    requires
        p_new.pending == p_old.pending,
        p_new.front == p_old.front,
        p_new.release_queue@ == p_old.release_queue@.filter(keep),
        p_new.holds(b),
    ensures
        p_old.holds(b),
{
    let q_old = p_old.release_queue@;
    let q_new = p_new.release_queue@;
    match p_old.pending {
        Some(pf) if b == pf.buffer => {
            return;
        }
        _ => {}
    }
    match p_old.front {
        Some(f) if b == f.buffer => {
            return;
        }
        _ => {}
    }
    let i = choose|i: int| 0 <= i < q_new.len() && q_new[i].buffer == b;
    crate::presenter::lemma_filter_elem_of(q_old, keep, i);
    let j = choose|j: int| 0 <= j < q_old.len() && q_old[j] == q_new[i];
    assert(q_old[j].buffer == b);
}

/// Reset the seat to its initial state, as when input devices are first
/// bound.
pub fn init_input(state: &mut State)
    requires
        old(state).wf(),
    ensures
        final(state).wf(),
        final(state).seat.pointer == (Point { x: 0, y: 0 }),
        final(state).seat.pointer_focus is None,
        final(state).seat.keyboard_focus is None,
        final(state).seat.modifiers == 0,
        final(state).seat.pressed@ == Seq::<u32>::empty(),
        final(state).scene == old(state).scene,
        final(state).outputs@ == old(state).outputs@,
        final(state).config == old(state).config,
        final(state).running == old(state).running,
        final(state).next_buffer == old(state).next_buffer,
        final(state).next_fence == old(state).next_fence,
{
    state.seat = Seat::new();
}

/// Route a pointer motion: hit-test the scene for the topmost mapped window
/// under the new position, update the pointer focus, and produce the leave,
/// enter and motion events the focus change calls for.
pub fn handle_pointer_motion(state: &mut State, position: Point) -> (evs: Vec<DispatchEvent>)
    requires
        old(state).wf(),
    ensures
        final(state).wf(),
        final(state).seat.pointer == position,
        match final(state).seat.pointer_focus {
            Some(id) => exists|i: int|
                0 <= i < old(state).scene.windows@.len()
                    && old(state).scene.windows@[i].id == id
                    && old(state).scene.windows@[i].rect.spec_contains(position)
                    && (forall|j: int| i < j < old(state).scene.windows@.len()
                        ==> !old(state).scene.windows@[j].rect.spec_contains(position)),
            None => forall|i: int| 0 <= i < old(state).scene.windows@.len()
                ==> !old(state).scene.windows@[i].rect.spec_contains(position),
        },
        evs@ == spec_motion_events(old(state).seat.pointer_focus,
            final(state).seat.pointer_focus, position),
        final(state).seat.keyboard_focus == old(state).seat.keyboard_focus,
        final(state).seat.pressed@ == old(state).seat.pressed@,
        final(state).seat.modifiers == old(state).seat.modifiers,
        final(state).scene == old(state).scene,
        final(state).outputs@ == old(state).outputs@,
        final(state).config == old(state).config,
        final(state).running == old(state).running,
        final(state).next_buffer == old(state).next_buffer,
        final(state).next_fence == old(state).next_fence,
{
    let hit = state.scene.hit_test(position);
    state.seat.motion_to(hit, position)
}

/// The dispatch events one key event produces: none when the terminate
/// shortcut consumed it or nothing has keyboard focus, otherwise the key
/// forwarded to the focus.
pub open spec fn spec_key_events(keyboard_focus: Option<u64>, code: u32, pressed: bool)
    -> Seq<DispatchEvent> {
    if code == crate::input::TERMINATE_KEY && pressed {
        Seq::empty()
    } else {
        match keyboard_focus {
            Some(w) => seq![DispatchEvent::Key { window: w, code, pressed }],
            None => Seq::empty(),
        }
    }
}

/// Handle one raw input event, synchronously and in arrival order: pointer
/// motion routes focus through the scene, a key updates the seat and is
/// either consumed by the terminate shortcut — which stops the loop — or
/// forwarded to the keyboard focus.
pub fn process_input(state: &mut State, event: InputEvent) -> (evs: Vec<DispatchEvent>)
    requires
        old(state).wf(),
    ensures
        final(state).wf(),
        final(state).scene == old(state).scene,
        final(state).outputs@ == old(state).outputs@,
        final(state).config == old(state).config,
        final(state).next_buffer == old(state).next_buffer,
        final(state).next_fence == old(state).next_fence,
        event matches InputEvent::PointerMotion { position } ==> {
            &&& final(state).running == old(state).running
            &&& final(state).seat.pointer == position
            &&& final(state).seat.keyboard_focus == old(state).seat.keyboard_focus
            &&& final(state).seat.pressed@ == old(state).seat.pressed@
            &&& final(state).seat.modifiers == old(state).seat.modifiers
            &&& evs@ == spec_motion_events(old(state).seat.pointer_focus,
                final(state).seat.pointer_focus, position)
            &&& match final(state).seat.pointer_focus {
                Some(id) => exists|i: int|
                    0 <= i < old(state).scene.windows@.len()
                        && old(state).scene.windows@[i].id == id
                        && old(state).scene.windows@[i].rect.spec_contains(position)
                        && (forall|j: int| i < j < old(state).scene.windows@.len()
                            ==> !old(state).scene.windows@[j].rect.spec_contains(position)),
                None => forall|i: int| 0 <= i < old(state).scene.windows@.len()
                    ==> !old(state).scene.windows@[i].rect.spec_contains(position),
            }
        },
        event matches InputEvent::Keyboard { code, pressed } ==> {
            &&& final(state).running == (old(state).running
                && !(code == crate::input::TERMINATE_KEY && pressed))
            &&& evs@ == spec_key_events(old(state).seat.keyboard_focus, code, pressed)
            &&& (forall|c: u32| final(state).seat.pressed@.contains(c) == if c == code {
                pressed
            } else {
                old(state).seat.pressed@.contains(c)
            })
            &&& final(state).seat.pointer == old(state).seat.pointer
            &&& final(state).seat.pointer_focus == old(state).seat.pointer_focus
            &&& final(state).seat.keyboard_focus == old(state).seat.keyboard_focus
        },
{
    match event {
        InputEvent::PointerMotion { position } => handle_pointer_motion(state, position),
        InputEvent::Keyboard { code, pressed } => {
            let action = state.seat.key(code, pressed);
            match action {
                Some(KeyAction::Terminate) => {
                    self_stop(state);
                    Vec::new()
                }
                Some(KeyAction::Forward { window, code, pressed }) => {
                    let mut evs: Vec<DispatchEvent> = Vec::new();
                    evs.push(DispatchEvent::Key { window, code, pressed });
                    proof {
                        assert(evs@ =~= spec_key_events(old(state).seat.keyboard_focus, code,
                            pressed));
                    }
                    evs
                }
                None => Vec::new(),
            }
        }
    }
}

/// The process-wide shutdown flag, checked once per loop iteration.
fn self_stop(state: &mut State)
    ensures
        final(state).running == false,
        final(state).scene == old(state).scene,
        final(state).seat == old(state).seat,
        final(state).outputs@ == old(state).outputs@,
        final(state).config == old(state).config,
        final(state).next_buffer == old(state).next_buffer,
        final(state).next_fence == old(state).next_fence,
{
    state.running = false;
}

} // verus!
