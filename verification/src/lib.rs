//! Core of a minimal display compositor: window placement and stacking,
//! input-to-focus routing, per-output page-flip scheduling with fence-gated
//! buffer release, frame pacing, and the persisted configuration format.
//!
//! Everything here is pure state-machine logic over plain values. Hardware
//! access (DRM devices, GPU drivers, the wire protocol) lives outside and
//! feeds this core with events; the core answers with actions.

pub mod compositor;
pub mod config;
pub mod errors;
pub mod geometry;
pub mod input;
pub mod renderer;
pub mod state;
pub mod presenter;
pub mod scene;

pub use geometry::Point;
pub use geometry::Rect;
