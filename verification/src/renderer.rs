//! The GPU compositing backend abstraction: two interchangeable variants,
//! chosen once when an output is initialized and fixed for its lifetime.
//!
//! A backend composites one frame at a time through the
//! `begin_frame` / `draw` / `end_frame` protocol; what it records here is
//! the protocol state the core depends on — whether a frame is open and
//! which windows the open frame has drawn, in order.

use vstd::prelude::*;

use crate::errors::CoreError;
use crate::scene::Window;

verus! {

/// The two concrete compositing implementations.
#[derive(Debug, Copy, Clone, PartialEq, Eq, Structural)]
pub enum RendererType {
    OpenGL,
    Vulkan,
}

/// Which backend an output gets: the preferred one only when the hardware
/// actually offers it, otherwise the one every device supports.
pub open spec fn spec_select_renderer(use_vulkan: bool, vulkan_available: bool) -> RendererType {
    if use_vulkan && vulkan_available {
        RendererType::Vulkan
    } else {
        RendererType::OpenGL
    }
}

pub fn select_renderer(use_vulkan: bool, vulkan_available: bool) -> (r: RendererType)
    ensures
        r == spec_select_renderer(use_vulkan, vulkan_available),
{
    if use_vulkan && vulkan_available {
        RendererType::Vulkan
    } else {
        RendererType::OpenGL
    }
}

/// One output's compositing backend; the variant never changes for the
/// output's lifetime.
pub struct RendererBackend {
    pub ty: RendererType,
    /// Whether a frame is open, i.e. `begin_frame` was called and
    /// `end_frame` not yet.
    pub frame_open: bool,
    /// The windows drawn into the open frame, in draw order.
    pub drawn: Vec<Window>,
}

/// Set up a backend of the requested variant. Requesting the Vulkan variant
/// on a device without Vulkan support fails, and the failure is fatal only
/// to the output being initialized.
pub fn init_renderer(ty: RendererType, vulkan_available: bool)
    -> (r: Result<RendererBackend, CoreError>)
    ensures
        match r {
            Ok(b) => (ty is OpenGL || vulkan_available) && b.ty == ty && !b.frame_open
                && b.drawn@ == Seq::<Window>::empty(),
            Err(e) => ty is Vulkan && !vulkan_available && e == CoreError::DeviceInit,
        },
{
    match ty {
        RendererType::OpenGL => Ok(RendererBackend {
            ty: RendererType::OpenGL,
            frame_open: false,
            drawn: Vec::new(),
        }),
        RendererType::Vulkan => {
            if vulkan_available {
                Ok(RendererBackend { ty: RendererType::Vulkan, frame_open: false, drawn: Vec::new() })
            } else {
                Err(CoreError::DeviceInit)
            }
        }
    }
}

impl RendererBackend {
    /// Open a new frame; legal only while no frame is open.
    pub fn begin_frame(&mut self)
        requires
            !old(self).frame_open,
        ensures
            final(self).frame_open,
            final(self).drawn@ == Seq::<Window>::empty(),
            final(self).ty == old(self).ty,
    {
        self.frame_open = true;
        self.drawn = Vec::new();
    }

    /// Composite one window into the open frame.
    pub fn draw(&mut self, w: Window)
        requires
            old(self).frame_open,
        ensures
            final(self).frame_open,
            final(self).drawn@ == old(self).drawn@.push(w),
            final(self).ty == old(self).ty,
    {
        self.drawn.push(w);
    }

    /// Composite a whole render list into the open frame, in painter's
    /// order.
    pub fn draw_all(&mut self, list: &Vec<Window>)
        requires
            old(self).frame_open,
        ensures
            final(self).frame_open,
            final(self).ty == old(self).ty,
            final(self).drawn@ == old(self).drawn@ + list@,
    {
        let n = list.len();
        let mut k: usize = 0;
        proof {
            assert(old(self).drawn@ + list@.take(0) =~= old(self).drawn@);
        }
        while k < n
            invariant
                self.frame_open,
                self.ty == old(self).ty,
                n == list@.len(),
                k <= n,
                self.drawn@ == old(self).drawn@ + list@.take(k as int),
            decreases n - k,
        {
            self.draw(list[k]);
            proof {
                assert(old(self).drawn@ + list@.take(k + 1)
                    =~= (old(self).drawn@ + list@.take(k as int)).push(list@[k as int]));
            }
            k += 1;
        }
        proof {
            assert(list@.take(n as int) =~= list@);
        }
    }

    /// Close the frame; what it drew stays readable until the next
    /// `begin_frame`. The buffer the frame composited into must not be
    /// freed or reused until the fence issued for it signals; the presenter
    /// enforces that through its release queue.
    pub fn end_frame(&mut self)
        requires
            old(self).frame_open,
        ensures
            !final(self).frame_open,
            final(self).drawn@ == old(self).drawn@,
            final(self).ty == old(self).ty,
    {
        self.frame_open = false;
    }
}

} // verus!
