//! Per-output presentation state machine: page-flip scheduling and
//! fence-gated buffer release.
//!
//! A `Presenter` is `Idle` when `pending` is empty and `FlipPending`
//! otherwise. `submit` is legal only from `Idle`; submitting while a flip is
//! pending is backpressure and leaves the presenter untouched. A buffer that
//! has been flipped away waits in the release queue and is handed back to the
//! allocation pool only once its render fence has signaled, so the GPU is
//! provably done with it.

use vstd::prelude::*;

verus! {

/// One composited frame on its way to the display: the buffer being
/// presented, the fence of the GPU work that produced it, and the hardware
/// presentation timestamp once known.
#[derive(Clone, Copy, PartialEq, Eq, Structural, Debug)]
pub struct FrameState {
    pub buffer: u64,
    pub fence: u64,
    pub timestamp: Option<u64>,
}

/// Submitting while a flip is already pending is refused; the caller skips
/// this output for the current tick and retries on the next wakeup.
#[derive(Clone, Copy, PartialEq, Eq, Structural, Debug)]
pub enum SubmitError {
    Busy,
}

/// One hardware-facing presentation event for a single output.
pub enum PresenterEvent {
    Submit { buffer: u64, fence: u64 },
    FlipComplete { timestamp: u64 },
}

/// The flip-in-flight slot an event leaves behind, exactly as `submit` and
/// `on_flip_complete` ensure it: a submission while a flip is pending is
/// refused and changes nothing, a completion empties the slot.
pub open spec fn pending_after(p: Option<FrameState>, e: PresenterEvent) -> Option<FrameState> {
    match e {
        PresenterEvent::Submit { buffer, fence } => match p {
            Some(f) => Some(f),
            None => Some(FrameState { buffer, fence, timestamp: None }),
        },
        PresenterEvent::FlipComplete { .. } => None,
    }
}

/// The flip-in-flight slot after a whole interleaving of submit and
/// flip-complete events.
pub open spec fn pending_run(p: Option<FrameState>, evs: Seq<PresenterEvent>)
    -> Option<FrameState>
    decreases evs.len(),
{
    if evs.len() == 0 {
        p
    } else {
        pending_after(pending_run(p, evs.drop_last()), evs.last())
    }
}

/// How many flips are in flight: one while a flip is pending, zero when idle.
pub open spec fn flips_in_flight(p: Option<FrameState>) -> nat {
    if p is Some {
        1nat
    } else {
        0nat
    }
}

/// A presenter never has two flips pending simultaneously for its output,
/// under any interleaving of submit and flip-complete events: each event
/// either refuses (submit while pending), fills the single slot, or empties
/// it, so the number in flight never exceeds one.
pub proof fn lemma_at_most_one_flip_pending(p: Option<FrameState>, evs: Seq<PresenterEvent>)
    requires
        flips_in_flight(p) <= 1,
    ensures
        flips_in_flight(pending_run(p, evs)) <= 1,
    decreases evs.len(),
{
    if evs.len() > 0 {
        lemma_at_most_one_flip_pending(p, evs.drop_last());
    }
}

/// Every buffer the presenter currently references: the pending flip, the
/// buffer on screen, and everything awaiting fence signal.
pub open spec fn held_buffers(pending: Option<FrameState>, front: Option<FrameState>,
    release_queue: Seq<FrameState>) -> Set<u64> {
    let base = Set::new(|b: u64| exists|i: int|
        0 <= i < release_queue.len() && release_queue[i].buffer == b);
    let with_front = match front {
        Some(f) => base.insert(f.buffer),
        None => base,
    };
    match pending {
        Some(f) => with_front.insert(f.buffer),
        None => with_front,
    }
}

pub struct Presenter {
    /// The at-most-one flip in flight.
    pub pending: Option<FrameState>,
    /// The buffer currently on screen, if any frame has completed yet.
    pub front: Option<FrameState>,
    /// Flipped-away buffers whose render fences have not signaled yet.
    pub release_queue: Vec<FrameState>,
    /// Timestamp of the most recent confirmed presentation.
    pub last_present_time: Option<u64>,
}

impl Presenter {
    /// A buffer is owned by at most one slot of the presenter at a time.
    pub open spec fn wf(self) -> bool {
        &&& (forall|i: int, j: int|
            0 <= i < j < self.release_queue@.len()
                ==> self.release_queue@[i].buffer != self.release_queue@[j].buffer)
        &&& (forall|i: int| 0 <= i < self.release_queue@.len() ==> {
            &&& (self.pending matches Some(p)
                ==> (#[trigger] self.release_queue@[i]).buffer != p.buffer)
            &&& (self.front matches Some(f) ==> self.release_queue@[i].buffer != f.buffer)
        })
        &&& (self.pending matches Some(p) ==> self.front matches Some(f)
            ==> p.buffer != f.buffer)
    }

    pub open spec fn holds(self, buffer: u64) -> bool {
        held_buffers(self.pending, self.front, self.release_queue@).contains(buffer)
    }

    /// `Idle` exactly when no flip is in flight.
    pub open spec fn is_idle(self) -> bool {
        self.pending is None
    }

    pub fn new() -> (r: Presenter)
        ensures
            r.pending is None,
            r.front is None,
            r.release_queue@ == Seq::<FrameState>::empty(),
            r.last_present_time is None,
            r.wf(),
    {
        Presenter {
            pending: None,
            front: None,
            release_queue: Vec::new(),
            last_present_time: None,
        }
    }

    pub fn idle(&self) -> (r: bool)
        ensures
            r == self.is_idle(),
    {
        self.pending.is_none()
    }

    /// Issue a page flip for a freshly composited buffer. Legal only from
    /// `Idle`: when a flip is already pending the submission is refused and
    /// the presenter is left exactly as it was.
    pub fn submit(&mut self, buffer: u64, fence: u64) -> (r: Result<(), SubmitError>)
        requires
            old(self).wf(),
            !old(self).holds(buffer),
        ensures
            final(self).wf(),
            old(self).is_idle() ==> r == Result::<(), SubmitError>::Ok(())
                && final(self).pending == Some(FrameState { buffer, fence, timestamp: None })
                && final(self).front == old(self).front
                && final(self).release_queue@ == old(self).release_queue@
                && final(self).last_present_time == old(self).last_present_time,
            !old(self).is_idle() ==> r == Result::<(), SubmitError>::Err(SubmitError::Busy)
                && *final(self) == *old(self),
            final(self).pending == pending_after(old(self).pending,
                PresenterEvent::Submit { buffer, fence }),
    {
        if self.pending.is_some() {
            Err(SubmitError::Busy)
        } else {
            self.pending = Some(FrameState { buffer, fence, timestamp: None });
            Ok(())
        }
    }

    /// The hardware confirmed the flip: the pending frame becomes the front
    /// buffer with its presentation timestamp recorded, and the previous
    /// front buffer joins the release queue to wait for its fence.
    /// A completion event with no flip pending is ignored.
    pub fn on_flip_complete(&mut self, timestamp: u64) -> (r: bool)
        requires
            old(self).wf(),
        ensures
            final(self).wf(),
            r == !old(self).is_idle(),
            old(self).pending matches Some(p) ==> {
                &&& final(self).pending is None
                &&& final(self).front == Some(FrameState {
                    buffer: p.buffer, fence: p.fence, timestamp: Some(timestamp) })
                &&& final(self).release_queue@ == match old(self).front {
                    Some(f) => old(self).release_queue@.push(f),
                    None => old(self).release_queue@,
                }
                &&& final(self).last_present_time == Some(timestamp)
            },
            old(self).is_idle() ==> *final(self) == *old(self),
            final(self).pending == pending_after(old(self).pending,
                PresenterEvent::FlipComplete { timestamp }),
    {
        match self.pending {
            Some(p) => {
                if let Some(f) = self.front {
                    self.release_queue.push(f);
                }
                self.front = Some(FrameState {
                    buffer: p.buffer,
                    fence: p.fence,
                    timestamp: Some(timestamp),
                });
                self.pending = None;
                self.last_present_time = Some(timestamp);
                true
            }
            None => false,
        }
    }

    /// Hand back to the allocation pool every queued buffer whose render
    /// fence has signaled. A buffer leaves the release queue only here, and
    /// only with its fence among the signaled ones — never before the GPU is
    /// done with it.
    pub fn collect_releases(&mut self, signaled: &Vec<u64>) -> (released: Vec<u64>)
        requires
            old(self).wf(),
        ensures
            final(self).wf(),
            final(self).release_queue@ == old(self).release_queue@.filter(
                |f: FrameState| !signaled@.contains(f.fence)),
            released@ == old(self).release_queue@.filter(
                |f: FrameState| signaled@.contains(f.fence)).map_values(|f: FrameState| f.buffer),
            final(self).pending == old(self).pending,
            final(self).front == old(self).front,
            final(self).last_present_time == old(self).last_present_time,
    {
        let ghost q0 = self.release_queue@;
        let ghost keep = |f: FrameState| !signaled@.contains(f.fence);
        let ghost go = |f: FrameState| signaled@.contains(f.fence);
        let mut kept: Vec<FrameState> = Vec::new();
        let mut released: Vec<u64> = Vec::new();
        let ghost mut gone_frames: Seq<FrameState> = Seq::empty();
        let n = self.release_queue.len();
        let mut i: usize = 0;
        proof {
            assert(q0.take(0).filter(keep) =~= Seq::<FrameState>::empty());
            assert(q0.take(0).filter(go) =~= Seq::<FrameState>::empty());
            assert(Seq::<FrameState>::empty().map_values(|f: FrameState| f.buffer)
                =~= Seq::<u64>::empty());
        }
        while i < n
            invariant
                n == q0.len(),
                i <= n,
                self.release_queue@ == q0,
                kept@ == q0.take(i as int).filter(keep),
                gone_frames == q0.take(i as int).filter(go),
                released@ == gone_frames.map_values(|f: FrameState| f.buffer),
                go == |f: FrameState| signaled@.contains(f.fence),
                keep == |f: FrameState| !signaled@.contains(f.fence),
            decreases n - i,
        {
            let ghost pre = q0.take(i as int);
            let f = self.release_queue[i];
            let mut hit = false;
            let m = signaled.len();
            let mut k: usize = 0;
            while k < m
                invariant
                    m == signaled@.len(),
                    k <= m,
                    hit == exists|t: int| 0 <= t < k && signaled@[t] == f.fence,
                decreases m - k,
            {
                if signaled[k] == f.fence {
                    hit = true;
                }
                k += 1;
            }
            proof {
                assert(hit == signaled@.contains(f.fence));
                assert(q0.take(i + 1) =~= pre.push(f));
                pre.lemma_filter_push(f, keep);
                pre.lemma_filter_push(f, go);
            }
            if hit {
                released.push(f.buffer);
                proof {
                    gone_frames = gone_frames.push(f);
                    assert(gone_frames.map_values(|x: FrameState| x.buffer)
                        =~= gone_frames.drop_last().map_values(|x: FrameState| x.buffer)
                            .push(f.buffer));
                    assert(gone_frames.drop_last() =~= pre.filter(go));
                }
            } else {
                kept.push(f);
            }
            i += 1;
        }
        proof {
            assert(q0.take(n as int) =~= q0);
        }
        self.release_queue = kept;
        proof {
            lemma_filter_keeps_wf(q0, keep, self.pending, self.front);
        }
        released
    }

    /// Hotplug-remove or shutdown while a flip may be pending: cancel the
    /// pending state and move every referenced buffer onto the release
    /// queue, so that release still waits for each buffer's fence.
    pub fn cancel(&mut self)
        requires
            old(self).wf(),
        ensures
            final(self).wf(),
            final(self).pending is None,
            final(self).front is None,
            final(self).release_queue@ == match (old(self).pending, old(self).front) {
                (Some(p), Some(f)) => old(self).release_queue@.push(p).push(f),
                (Some(p), None) => old(self).release_queue@.push(p),
                (None, Some(f)) => old(self).release_queue@.push(f),
                (None, None) => old(self).release_queue@,
            },
            final(self).last_present_time == old(self).last_present_time,
    {
        if let Some(p) = self.pending {
            self.release_queue.push(p);
            self.pending = None;
        }
        if let Some(f) = self.front {
            self.release_queue.push(f);
            self.front = None;
        }
    }

    /// The bounded wait for outstanding fences timed out: hand every
    /// remaining buffer back regardless. The caller logs this as a
    /// non-fatal leak risk; it is the one path that does not wait on fences.
    pub fn force_release(&mut self) -> (released: Vec<u64>)
        requires
            old(self).wf(),
        ensures
            final(self).wf(),
            released@ == old(self).release_queue@.map_values(|f: FrameState| f.buffer),
            final(self).release_queue@ == Seq::<FrameState>::empty(),
            final(self).pending == old(self).pending,
            final(self).front == old(self).front,
    {
        let ghost q0 = self.release_queue@;
        let mut released: Vec<u64> = Vec::new();
        let n = self.release_queue.len();
        let mut i: usize = 0;
        proof {
            assert(q0.take(0).map_values(|f: FrameState| f.buffer) =~= Seq::<u64>::empty());
        }
        while i < n
            invariant
                n == q0.len(),
                i <= n,
                self.release_queue@ == q0,
                released@ == q0.take(i as int).map_values(|f: FrameState| f.buffer),
            decreases n - i,
        {
            released.push(self.release_queue[i].buffer);
            proof {
                assert(q0.take(i + 1) =~= q0.take(i as int).push(q0[i as int]));
                assert(q0.take(i + 1).map_values(|f: FrameState| f.buffer)
                    =~= q0.take(i as int).map_values(|f: FrameState| f.buffer)
                        .push(q0[i as int].buffer));
            }
            i += 1;
        }
        proof {
            assert(q0.take(n as int) =~= q0);
        }
        self.release_queue = Vec::new();
        released
    }
}

/// A buffer is never released before its render fence signals: every buffer
/// that `collect_releases` hands back to the pool comes from a queued frame
/// whose fence is among the signaled ones.
pub proof fn lemma_release_waits_for_fence(q: Seq<FrameState>, signaled: Seq<u64>, i: int)
    requires
        0 <= i < q.filter(|f: FrameState| signaled.contains(f.fence))
            .map_values(|f: FrameState| f.buffer).len(),
    ensures
        exists|j: int| 0 <= j < q.len()
            && q.filter(|f: FrameState| signaled.contains(f.fence))
                .map_values(|f: FrameState| f.buffer)[i] == (#[trigger] q[j]).buffer
            && signaled.contains(q[j].fence),
{
    let go = |f: FrameState| signaled.contains(f.fence);
    q.lemma_filter_pred(go, i);
    lemma_filter_elem_of(q, go, i);
    let j = choose|j: int| 0 <= j < q.len() && q[j] == q.filter(go)[i];
    assert(q.filter(go).map_values(|f: FrameState| f.buffer)[i] == q[j].buffer
        && signaled.contains(q[j].fence));
}

/// Every element of a filtered sequence comes from the original sequence.
pub proof fn lemma_filter_elem_of(s: Seq<FrameState>, p: spec_fn(FrameState) -> bool, i: int)
    requires
        0 <= i < s.filter(p).len(),
    ensures
        exists|j: int| 0 <= j < s.len() && s[j] == s.filter(p)[i],
    decreases s.len(),
{
    reveal(Seq::filter);
    if s.len() > 0 {
        let sub = s.drop_last().filter(p);
        if i < sub.len() {
            lemma_filter_elem_of(s.drop_last(), p, i);
            let j = choose|j: int| 0 <= j < s.drop_last().len()
                && s.drop_last()[j] == sub[j] && s.drop_last()[j] == sub[i];
            let j2 = choose|j: int| 0 <= j < s.drop_last().len() && s.drop_last()[j] == sub[i];
            assert(s[j2] == s.filter(p)[i]);
        } else {
            assert(s[s.len() - 1] == s.filter(p)[i]);
        }
    }
}

/// Dropping elements from the release queue cannot break buffer
/// distinctness.
proof fn lemma_filter_keeps_wf(q: Seq<FrameState>, p: spec_fn(FrameState) -> bool,
    pending: Option<FrameState>, front: Option<FrameState>)
    requires
        forall|i: int, j: int| 0 <= i < j < q.len() ==> q[i].buffer != q[j].buffer,
        forall|i: int| 0 <= i < q.len() ==> {
            &&& (pending matches Some(pf) ==> (#[trigger] q[i]).buffer != pf.buffer)
            &&& (front matches Some(ff) ==> q[i].buffer != ff.buffer)
        },
    ensures
        forall|i: int, j: int| 0 <= i < j < q.filter(p).len()
            ==> q.filter(p)[i].buffer != q.filter(p)[j].buffer,
        forall|i: int| 0 <= i < q.filter(p).len() ==> {
            &&& (pending matches Some(pf) ==> (#[trigger] q.filter(p)[i]).buffer != pf.buffer)
            &&& (front matches Some(ff) ==> q.filter(p)[i].buffer != ff.buffer)
        },
    decreases q.len(),
{
    reveal(Seq::filter);
    if q.len() > 0 {
        lemma_filter_keeps_wf(q.drop_last(), p, pending, front);
        let sub = q.drop_last().filter(p);
        assert forall|i: int| 0 <= i < sub.len()
            implies exists|j: int| 0 <= j < q.drop_last().len()
                && q.drop_last()[j] == #[trigger] sub[i] by {
            lemma_filter_elem_of(q.drop_last(), p, i);
        }
        if p(q.last()) {
            assert forall|i: int| 0 <= i < sub.len()
                implies (#[trigger] sub[i]).buffer != q.last().buffer by {
                let j = choose|j: int| 0 <= j < q.drop_last().len()
                    && q.drop_last()[j] == sub[i];
                assert(q[j] == sub[i] && q[j].buffer != q[q.len() - 1].buffer);
            }
        }
        assert forall|i: int| 0 <= i < q.filter(p).len() implies {
            &&& (pending matches Some(pf) ==> (#[trigger] q.filter(p)[i]).buffer != pf.buffer)
            &&& (front matches Some(ff) ==> q.filter(p)[i].buffer != ff.buffer)
        } by {
            if p(q.last()) && i == q.filter(p).len() - 1 {
                assert(q.filter(p)[i] == q.last());
            }
        }
    }
}

} // verus!
