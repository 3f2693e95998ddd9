use gameframe::config::Config;
use gameframe::config::ConfigError;
use gameframe::config::load_config;
use gameframe::config::save_config;
use gameframe::compositor::frame_interval_ms;
use gameframe::compositor::next_deadline_ms;
use gameframe::compositor::software_due;
use gameframe::errors::CoreError;
use gameframe::errors::fatal_to_process;
use gameframe::geometry::Point;
use gameframe::geometry::Rect;
use gameframe::input::DispatchEvent;
use gameframe::input::InputEvent;
use gameframe::presenter::Presenter;
use gameframe::presenter::SubmitError;
use gameframe::renderer::RendererType;
use gameframe::renderer::init_renderer;
use gameframe::renderer::select_renderer;
use gameframe::scene::Role;
use gameframe::scene::SceneGraph;
use gameframe::state::MAX_RENDER_FAILURES;
use gameframe::state::State;
use gameframe::state::handle_pointer_motion;
use gameframe::state::process_input;

fn rect(x: i32, y: i32, w: u32, h: u32) -> Rect {
    Rect { x, y, w, h }
}

fn ids(s: &SceneGraph) -> Vec<u64> {
    s.windows.iter().map(|w| w.id).collect()
}

// A tiny deterministic pseudo-random generator for randomized placements
// and interleavings.
struct Lcg(u64);

impl Lcg {
    fn next(&mut self) -> u64 {
        self.0 = self.0.wrapping_mul(6364136223846793005).wrapping_add(1442695040888963407);
        self.0 >> 33
    }
}

#[test]
fn stacking_stays_strict_total_order() {
    let mut s = SceneGraph::new();
    s.map(1, rect(0, 0, 10, 10), Role::Toplevel, true);
    s.map(2, rect(5, 5, 10, 10), Role::Toplevel, true);
    s.map(3, rect(0, 0, 4, 4), Role::Popup, true);
    assert_eq!(ids(&s), vec![1, 2, 3]);
    // Re-mapping window 1 without activation updates position only.
    s.map(1, rect(2, 2, 10, 10), Role::Toplevel, false);
    assert_eq!(ids(&s), vec![1, 2, 3]);
    assert_eq!(s.windows[0].rect, rect(2, 2, 10, 10));
    // Re-mapping with activation moves it to the top.
    s.map(1, rect(3, 3, 10, 10), Role::Toplevel, true);
    assert_eq!(ids(&s), vec![2, 3, 1]);
    s.unmap(2);
    assert_eq!(ids(&s), vec![3, 1]);
    s.raise(3);
    assert_eq!(ids(&s), vec![1, 3]);
    // No id ever occurs twice, whatever the history.
    let mut rng = Lcg(7);
    for _ in 0..500 {
        let id = rng.next() % 8;
        match rng.next() % 3 {
            0 => s.map(id, rect(0, 0, 5, 5), Role::Toplevel, rng.next() % 2 == 0),
            1 => s.unmap(id),
            _ => s.raise(id),
        }
        let v = ids(&s);
        for i in 0..v.len() {
            for j in i + 1..v.len() {
                assert_ne!(v[i], v[j]);
            }
        }
    }
}

#[test]
fn hit_test_returns_topmost() {
    let mut s = SceneGraph::new();
    s.map(1, rect(0, 0, 100, 100), Role::Toplevel, true);
    s.map(2, rect(50, 50, 100, 100), Role::Toplevel, true);
    assert_eq!(s.hit_test(Point { x: 10, y: 10 }), Some(1));
    assert_eq!(s.hit_test(Point { x: 60, y: 60 }), Some(2));
    assert_eq!(s.hit_test(Point { x: 500, y: 500 }), None);
    // Edges: left/top inclusive, right/bottom exclusive.
    assert_eq!(s.hit_test(Point { x: 0, y: 0 }), Some(1));
    assert_eq!(s.hit_test(Point { x: 100, y: 100 }), Some(2));
    assert_eq!(s.hit_test(Point { x: 150, y: 150 }), None);
}

#[test]
fn hit_test_randomized_overlaps() {
    let mut rng = Lcg(42);
    for _ in 0..50 {
        let mut s = SceneGraph::new();
        let n = 1 + (rng.next() % 6) as usize;
        for id in 0..n as u64 {
            let x = (rng.next() % 200) as i32;
            let y = (rng.next() % 200) as i32;
            let w = 1 + (rng.next() % 100) as u32;
            let h = 1 + (rng.next() % 100) as u32;
            s.map(id, rect(x, y, w, h), Role::Toplevel, true);
        }
        for _ in 0..20 {
            let p = Point { x: (rng.next() % 300) as i32, y: (rng.next() % 300) as i32 };
            // Reference answer: scan from the top of the stack.
            let mut expect = None;
            for w in s.windows.iter().rev() {
                let inside = w.rect.x <= p.x
                    && (p.x as i64) < w.rect.x as i64 + w.rect.w as i64
                    && w.rect.y <= p.y
                    && (p.y as i64) < w.rect.y as i64 + w.rect.h as i64;
                if inside {
                    expect = Some(w.id);
                    break;
                }
            }
            assert_eq!(s.hit_test(p), expect);
        }
    }
}

#[test]
fn presenter_never_two_flips_pending() {
    let mut p = Presenter::new();
    assert!(p.submit(0, 100).is_ok());
    assert_eq!(p.submit(1, 101), Err(SubmitError::Busy));
    assert!(p.pending.is_some());
    assert!(p.on_flip_complete(5));
    assert!(p.pending.is_none());
    assert!(p.submit(1, 101).is_ok());
    // Randomized interleaving: a submit is accepted only from idle, and at
    // no point is more than one flip in flight.
    let mut rng = Lcg(3);
    let mut next_buf = 2u64;
    for t in 0..1000u64 {
        if rng.next() % 2 == 0 {
            let was_pending = p.pending.is_some();
            let r = p.submit(next_buf, next_buf + 100);
            if was_pending {
                assert_eq!(r, Err(SubmitError::Busy));
            } else {
                assert!(r.is_ok());
                next_buf += 1;
            }
        } else {
            p.on_flip_complete(t);
        }
        assert!(p.pending.is_none() || p.pending.is_some());
        // The single slot is the only place a flip can wait.
        if p.submit(next_buf, next_buf + 100) == Err(SubmitError::Busy) {
            assert!(p.pending.is_some());
        } else {
            next_buf += 1;
        }
    }
}

#[test]
fn buffers_wait_for_their_fences() {
    let mut p = Presenter::new();
    // Frame 0 on buffer 10 with fence 20; flip completes, frame 1 follows.
    assert!(p.submit(10, 20).is_ok());
    assert!(p.on_flip_complete(1));
    assert!(p.submit(11, 21).is_ok());
    assert!(p.on_flip_complete(2));
    assert!(p.submit(12, 22).is_ok());
    assert!(p.on_flip_complete(3));
    // Buffers 10 and 11 were flipped away and wait for fences 20 and 21.
    assert_eq!(p.release_queue.len(), 2);
    // Fences signal out of submission order: 21 first.
    let released = p.collect_releases(&vec![21]);
    assert_eq!(released, vec![11]);
    assert_eq!(p.release_queue.len(), 1);
    assert_eq!(p.release_queue[0].buffer, 10);
    // Nothing signaled, nothing released.
    let released = p.collect_releases(&vec![99]);
    assert_eq!(released, Vec::<u64>::new());
    // Now fence 20 signals and buffer 10 may go.
    let released = p.collect_releases(&vec![20, 99]);
    assert_eq!(released, vec![10]);
    assert!(p.release_queue.is_empty());
}

#[test]
fn teardown_cancels_and_releases() {
    let mut p = Presenter::new();
    assert!(p.submit(1, 50).is_ok());
    assert!(p.on_flip_complete(1));
    assert!(p.submit(2, 51).is_ok());
    p.cancel();
    assert!(p.pending.is_none());
    assert!(p.front.is_none());
    // Fence-gated release still applies after cancellation...
    let released = p.collect_releases(&vec![51]);
    assert_eq!(released, vec![2]);
    // ...and only the bounded-wait timeout path force-releases the rest.
    let released = p.force_release();
    assert_eq!(released, vec![1]);
    assert!(p.release_queue.is_empty());
}

#[test]
fn config_round_trip() {
    let cases = [
        Config { use_vulkan: false, fps_limit: 60 },
        Config { use_vulkan: true, fps_limit: 30 },
        Config { use_vulkan: false, fps_limit: 0 },
        Config { use_vulkan: true, fps_limit: u32::MAX },
        Config { use_vulkan: false, fps_limit: 144 },
    ];
    for cfg in cases {
        let bytes = save_config(&cfg);
        assert_eq!(load_config(&bytes), Ok(cfg));
    }
}

#[test]
fn config_canonical_encoding() {
    let cfg = Config { use_vulkan: false, fps_limit: 60 };
    let bytes = save_config(&cfg);
    assert_eq!(bytes, b"use_vulkan = false\nfps_limit = 60\n".to_vec());
    let cfg = Config { use_vulkan: true, fps_limit: 144 };
    let bytes = save_config(&cfg);
    assert_eq!(bytes, b"use_vulkan = true\nfps_limit = 144\n".to_vec());
}

#[test]
fn config_default_values() {
    let cfg = Config::default();
    assert_eq!(cfg.use_vulkan, false);
    assert_eq!(cfg.fps_limit, 60);
}

#[test]
fn malformed_config_rejected() {
    let cases: &[&[u8]] = &[
        b"",
        b"use_vulkan = maybe\nfps_limit = 60\n",
        b"use_vulkan = false\nfps_limit = \n",
        b"use_vulkan = false\nfps_limit = 60",
        b"use_vulkan = false\nfps_limit = abc\n",
        b"use_vulkan = false\nfps_limit = 4294967296\n",
        b"fps_limit = 60\nuse_vulkan = false\n",
        b"use_vulkan = false\nfps_limit = 60\nextra = 1\n",
    ];
    for s in cases {
        assert_eq!(load_config(&s.to_vec()), Err(ConfigError::Malformed));
    }
}

#[test]
fn hotplug_add_maps_output_at_origin() {
    let mut st = State::new(Config::default());
    st.handle_device_added(7, 1920, 1080, 60, true, false);
    assert_eq!(st.outputs.len(), 1);
    let o = &st.outputs[0];
    assert_eq!(o.id, 7);
    assert_eq!(o.rect, rect(0, 0, 1920, 1080));
    assert!(o.enabled);
    assert_eq!(o.backend.ty, RendererType::OpenGL);
    // The same device id again changes nothing.
    st.handle_device_added(7, 800, 600, 75, true, false);
    assert_eq!(st.outputs.len(), 1);
    assert_eq!(st.outputs[0].rect, rect(0, 0, 1920, 1080));
}

#[test]
fn empty_commit_produces_no_flip() {
    let mut st = State::new(Config::default());
    st.handle_device_added(1, 1920, 1080, 60, true, false);
    assert!(st.new_toplevel_surface(5, 640, 480).is_ok());
    // Mapping damaged the output; one frame goes out.
    let subs = st.render(0);
    assert_eq!(subs.len(), 1);
    assert!(st.handle_flip_complete(1, 16));
    // A commit with empty damage leads to no further submission.
    st.surface_commit(5, false);
    let subs = st.render(32);
    assert!(subs.is_empty());
    // A commit with real damage does.
    st.surface_commit(5, true);
    let subs = st.render(48);
    assert_eq!(subs.len(), 1);
}

#[test]
fn backpressure_skips_output_until_flip_completes() {
    let mut st = State::new(Config::default());
    st.handle_device_added(1, 100, 100, 60, true, false);
    assert!(st.new_toplevel_surface(5, 50, 50).is_ok());
    let subs = st.render(0);
    assert_eq!(subs.len(), 1);
    // Damage again while the flip is still pending: the output is skipped,
    // never queued behind.
    st.surface_commit(5, true);
    assert!(st.render(1).is_empty());
    assert!(st.render(2).is_empty());
    // Once the flip completes the retry succeeds.
    assert!(st.handle_flip_complete(1, 16));
    assert_eq!(st.render(3).len(), 1);
}

#[test]
fn pointer_crossing_yields_one_leave_one_enter() {
    let mut st = State::new(Config::default());
    st.handle_device_added(1, 1920, 1080, 60, true, false);
    assert!(st.add_foreign_window(1000, rect(0, 0, 100, 100)).is_ok());
    assert!(st.add_foreign_window(2000, rect(480, 480, 120, 120)).is_ok());
    let evs = handle_pointer_motion(&mut st, Point { x: 10, y: 10 });
    assert_eq!(evs, vec![
        DispatchEvent::Enter { window: 1000 },
        DispatchEvent::Motion { window: 1000, position: Point { x: 10, y: 10 } },
    ]);
    let evs = handle_pointer_motion(&mut st, Point { x: 500, y: 500 });
    let leaves: Vec<_> = evs.iter().filter(|e| matches!(e, DispatchEvent::Leave { .. })).collect();
    let enters: Vec<_> = evs.iter().filter(|e| matches!(e, DispatchEvent::Enter { .. })).collect();
    assert_eq!(leaves.len(), 1);
    assert_eq!(enters.len(), 1);
    assert_eq!(evs, vec![
        DispatchEvent::Leave { window: 1000 },
        DispatchEvent::Enter { window: 2000 },
        DispatchEvent::Motion { window: 2000, position: Point { x: 500, y: 500 } },
    ]);
    // Motion within the same window reports only the position.
    let evs = handle_pointer_motion(&mut st, Point { x: 510, y: 510 });
    assert_eq!(evs, vec![
        DispatchEvent::Motion { window: 2000, position: Point { x: 510, y: 510 } },
    ]);
}

#[test]
fn fps_cap_spaces_software_frames() {
    assert_eq!(frame_interval_ms(30), 33);
    assert_eq!(frame_interval_ms(60), 16);
    assert_eq!(frame_interval_ms(0), 0);
    let mut st = State::new(Config { use_vulkan: false, fps_limit: 30 });
    // No hardware vsync source: software pacing governs.
    st.handle_device_added(1, 640, 480, 0, false, false);
    assert!(st.new_toplevel_surface(5, 640, 480).is_ok());
    let mut times = Vec::new();
    for now in 0..100u64 {
        let subs = st.render(now);
        if !subs.is_empty() {
            times.push(now);
            st.handle_flip_complete(1, now);
            st.surface_commit(5, true);
        }
    }
    assert_eq!(times, vec![33, 66, 99]);
    for pair in times.windows(2) {
        assert_eq!(pair[1] - pair[0], 33);
    }
}

#[test]
fn hardware_vsync_overrides_software_timer() {
    let mut st = State::new(Config { use_vulkan: false, fps_limit: 30 });
    st.handle_device_added(1, 640, 480, 60, true, false);
    assert!(st.new_toplevel_surface(5, 640, 480).is_ok());
    // With a vsync source, damage plus an idle presenter suffices: the
    // software interval does not hold frames back.
    assert_eq!(st.render(0).len(), 1);
    st.handle_flip_complete(1, 5);
    st.surface_commit(5, true);
    assert_eq!(st.render(6).len(), 1);
}

#[test]
fn terminate_shortcut_stops_the_loop() {
    let mut st = State::new(Config::default());
    assert!(st.running);
    let evs = process_input(&mut st, InputEvent::Keyboard { code: 1, pressed: true });
    assert!(evs.is_empty());
    assert!(!st.running);
}

#[test]
fn keys_forward_to_keyboard_focus() {
    let mut st = State::new(Config::default());
    // No focus: the key is dropped.
    let evs = process_input(&mut st, InputEvent::Keyboard { code: 30, pressed: true });
    assert!(evs.is_empty());
    assert!(st.running);
    st.seat.set_keyboard_focus(Some(9));
    let evs = process_input(&mut st, InputEvent::Keyboard { code: 30, pressed: true });
    assert_eq!(evs, vec![DispatchEvent::Key { window: 9, code: 30, pressed: true }]);
}

#[test]
fn modifier_mask_follows_pressed_set() {
    let mut st = State::new(Config::default());
    process_input(&mut st, InputEvent::Keyboard { code: 42, pressed: true });
    assert_eq!(st.seat.modifiers & 1, 1);
    // Both shifts down, one released: shift still held.
    process_input(&mut st, InputEvent::Keyboard { code: 54, pressed: true });
    process_input(&mut st, InputEvent::Keyboard { code: 42, pressed: false });
    assert_eq!(st.seat.modifiers & 1, 1);
    process_input(&mut st, InputEvent::Keyboard { code: 54, pressed: false });
    assert_eq!(st.seat.modifiers, 0);
    process_input(&mut st, InputEvent::Keyboard { code: 29, pressed: true });
    process_input(&mut st, InputEvent::Keyboard { code: 56, pressed: true });
    assert_eq!(st.seat.modifiers, 6);
}

#[test]
fn renderer_selection_and_init() {
    assert_eq!(select_renderer(true, true), RendererType::Vulkan);
    assert_eq!(select_renderer(true, false), RendererType::OpenGL);
    assert_eq!(select_renderer(false, true), RendererType::OpenGL);
    assert!(init_renderer(RendererType::OpenGL, false).is_ok());
    assert!(init_renderer(RendererType::Vulkan, true).is_ok());
    match init_renderer(RendererType::Vulkan, false) {
        Err(e) => assert_eq!(e, CoreError::DeviceInit),
        Ok(_) => panic!("vulkan init must fail without vulkan support"),
    }
}

#[test]
fn remapping_a_toplevel_updates_placement_only() {
    let mut st = State::new(Config::default());
    assert!(st.new_toplevel_surface(1, 100, 100).is_ok());
    assert!(st.new_toplevel_surface(2, 100, 100).is_ok());
    // Announcing an already-mapped toplevel again is a membership no-op that
    // updates the placement (and raises it, being an activation).
    assert!(st.new_toplevel_surface(1, 200, 150).is_ok());
    assert_eq!(st.scene.windows.len(), 2);
    assert_eq!(ids(&st.scene), vec![2, 1]);
    assert_eq!(st.scene.windows[1].rect, rect(0, 0, 200, 150));
    // The same goes for a foreign window the adapter re-announces.
    assert!(st.add_foreign_window(7, rect(0, 0, 10, 10)).is_ok());
    assert!(st.add_foreign_window(7, rect(5, 5, 20, 20)).is_ok());
    assert_eq!(st.scene.windows.len(), 3);
    assert_eq!(st.scene.windows[2].rect, rect(5, 5, 20, 20));
}

#[test]
fn conflicting_surface_role_is_protocol_violation() {
    let mut st = State::new(Config::default());
    assert!(st.new_toplevel_surface(5, 100, 100).is_ok());
    // A *different* role for the same surface is the conflict: the offending
    // window is destroyed and the violation reported; the process continues.
    assert_eq!(st.add_foreign_window(5, rect(0, 0, 10, 10)), Err(CoreError::Protocol));
    assert_eq!(st.scene.windows.len(), 0);
    assert!(st.running);
    // And the other way around.
    assert!(st.add_foreign_window(6, rect(0, 0, 10, 10)).is_ok());
    assert_eq!(st.new_toplevel_surface(6, 100, 100), Err(CoreError::Protocol));
    assert_eq!(st.scene.windows.len(), 0);
    assert!(st.running);
}

#[test]
fn renderer_failures_disable_output_after_bounded_retries() {
    let mut st = State::new(Config::default());
    st.handle_device_added(1, 100, 100, 60, true, false);
    for _ in 0..MAX_RENDER_FAILURES - 1 {
        st.on_render_failed(1);
        assert!(st.outputs[0].enabled);
    }
    st.on_render_failed(1);
    assert!(!st.outputs[0].enabled);
    // A disabled output is never scheduled again.
    assert!(st.new_toplevel_surface(5, 50, 50).is_ok());
    assert!(st.render(100).is_empty());
}

#[test]
fn failure_on_one_output_never_stalls_another() {
    let mut st = State::new(Config::default());
    st.handle_device_added(1, 100, 100, 60, true, false);
    st.handle_device_added(2, 100, 100, 60, true, false);
    for _ in 0..MAX_RENDER_FAILURES {
        st.on_render_failed(1);
    }
    assert!(st.add_foreign_window(5, rect(0, 0, 50, 50)).is_ok());
    let subs = st.render(0);
    assert_eq!(subs.len(), 1);
    assert_eq!(subs[0].output, 2);
}

#[test]
fn hotplug_remove_hands_output_back_for_draining() {
    let mut st = State::new(Config::default());
    st.handle_device_added(1, 100, 100, 60, true, false);
    assert!(st.new_toplevel_surface(5, 50, 50).is_ok());
    let subs = st.render(0);
    assert_eq!(subs.len(), 1);
    let mut o = st.handle_device_removed(1).expect("output present");
    assert!(st.outputs.is_empty());
    assert!(st.handle_device_removed(1).is_none());
    // The caller cancels the pending flip and drains buffers, fences first.
    o.presenter.cancel();
    let released = o.presenter.collect_releases(&vec![subs[0].fence]);
    assert_eq!(released, vec![subs[0].buffer]);
}

#[test]
fn destroy_drops_focus_and_window() {
    let mut st = State::new(Config::default());
    st.handle_device_added(1, 1000, 1000, 60, true, false);
    assert!(st.add_foreign_window(5, rect(0, 0, 100, 100)).is_ok());
    handle_pointer_motion(&mut st, Point { x: 10, y: 10 });
    st.seat.set_keyboard_focus(Some(5));
    assert_eq!(st.seat.pointer_focus, Some(5));
    st.surface_destroy(5);
    assert_eq!(st.seat.pointer_focus, None);
    assert_eq!(st.seat.keyboard_focus, None);
    assert!(st.scene.windows.is_empty());
}

#[test]
fn error_taxonomy_fatality() {
    assert!(fatal_to_process(&CoreError::Session));
    assert!(fatal_to_process(&CoreError::ConfigLoad));
    assert!(!fatal_to_process(&CoreError::DeviceInit));
    assert!(!fatal_to_process(&CoreError::Renderer));
    assert!(!fatal_to_process(&CoreError::Protocol));
}

#[test]
fn pacing_helpers() {
    assert!(software_due(33, 0, 30));
    assert!(!software_due(32, 0, 30));
    assert!(software_due(0, 0, 0));
    assert_eq!(next_deadline_ms(100, 30), 133);
    assert_eq!(next_deadline_ms(u64::MAX - 10, 30), u64::MAX);
}

#[test]
fn render_composites_the_render_list_in_order() {
    let mut st = State::new(Config::default());
    st.handle_device_added(1, 1000, 1000, 60, true, false);
    assert!(st.add_foreign_window(10, rect(0, 0, 100, 100)).is_ok());
    assert!(st.add_foreign_window(11, rect(50, 50, 100, 100)).is_ok());
    // A window entirely outside the output is not in its render list.
    assert!(st.add_foreign_window(12, rect(5000, 5000, 10, 10)).is_ok());
    let subs = st.render(0);
    assert_eq!(subs.len(), 1);
    let drawn: Vec<u64> = st.outputs[0].backend.drawn.iter().map(|w| w.id).collect();
    assert_eq!(drawn, vec![10, 11]);
}
