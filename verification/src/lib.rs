//! A tiling window manager's core: workspace state, key bindings,
//! layout, and the decisions taken on each X event.
use vstd::prelude::*;

pub mod config;
pub mod text;
pub mod wm;
pub mod x11;

verus! {

/// An X window id.
pub type Window = u32;

} // verus!
