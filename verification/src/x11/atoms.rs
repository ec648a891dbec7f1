//! The EWMH atoms the window manager uses.
use vstd::prelude::*;

verus! {

/// An X atom.
pub type Atom = u32;

/// The interned EWMH atoms.
#[derive(Debug, Clone, Copy, PartialEq, Eq, Structural)]
pub struct Atoms {
    /// `_NET_NUMBER_OF_DESKTOPS`
    pub net_number_of_desktops: Atom,
    /// `_NET_CURRENT_DESKTOP`
    pub net_current_desktop: Atom,
    /// `_NET_WM_WINDOW_TYPE`
    pub net_wm_window_type: Atom,
    /// `_NET_WM_WINDOW_TYPE_DOCK`
    pub net_wm_window_type_dock: Atom,
    /// `_NET_WM_WINDOW_TYPE_DESKTOP`
    pub net_wm_window_type_desktop: Atom,
    /// `_NET_WM_STATE`
    pub net_wm_state: Atom,
    /// `_NET_WM_STATE_ABOVE`
    pub net_wm_state_above: Atom,
    /// `_NET_WM_STATE_STICKY`
    pub net_wm_state_sticky: Atom,
}

} // verus!
