//! What the window manager decides on each X event: which windows it
//! tracks, focuses, re-tiles, and which workspace it shows.
use vstd::prelude::*;

use crate::text::{chars_of, contains_run, law_contains_run_anywhere, lowercase, to_lowercase, contains_text};
use crate::wm::state::{slice_contains, without_docks, WMModel, WMState, WorkspaceSwitch};
use crate::x11::atoms::Atoms;
use crate::Window;

verus! {

/// What a map request asks of the display.
#[derive(Debug, Clone, Copy, PartialEq, Eq, Structural)]
pub enum MapDecision {
    /// A known dock: map it.
    KnownDock,
    /// A new dock or bar, now recorded: map it.
    NewDock,
    /// A dialog or popup, now floating: listen to it and map it.
    Floating,
    /// An ordinary window, now tiled: listen to it, map it and re-tile.
    Tiled,
}

/// How to answer a configure request.
#[derive(Debug, Clone, Copy, PartialEq, Eq, Structural)]
pub enum ConfigureMode {
    /// A dock: grant position, size and border.
    Dock,
    /// A floating window: grant position, size, border and stacking.
    Floating,
    /// A window tiled on the workspace shown: grant position and size, then re-tile.
    Tiled,
    /// Any other window: grant position, size, border and stacking.
    Other,
}

/// A lowercased window class that floats: it names a dialog, a utility
/// or a popup.
pub open spec fn lower_class_floats(c: Seq<char>) -> bool {
    contains_run(c, "dialog"@) || contains_run(c, "utility"@) || contains_run(c, "popup"@)
}

/// A lowercased window class that is a bar: it names polybar.
pub open spec fn lower_class_is_bar(c: Seq<char>) -> bool {
    contains_run(c, "polybar"@)
}

/// A window class that floats: its lowercase form names a dialog, a
/// utility or a popup.
pub open spec fn class_floats(class: Seq<char>) -> bool {
    lower_class_floats(lowercase(class))
}

/// A window class that is a bar: its lowercase form names polybar.
pub open spec fn class_is_bar(class: Seq<char>) -> bool {
    lower_class_is_bar(lowercase(class))
}

/// Whether a lowercased window class floats.
pub fn lowered_class_floats(lower: &str) -> (r: bool)
    ensures
        r == lower_class_floats(lower@),
{
    let lc = chars_of(lower);
    has_text(&lc, "dialog") || has_text(&lc, "utility") || has_text(&lc, "popup")
}

/// Whether a lowercased window class is a bar.
pub fn lowered_class_is_bar(lower: &str) -> (r: bool)
    ensures
        r == lower_class_is_bar(lower@),
{
    let lc = chars_of(lower);
    has_text(&lc, "polybar")
}

/// The decision on a map request for `win`, whose class and window types
/// are given.
pub open spec fn map_decision(m: WMModel, win: Window, class: Seq<char>, types: Seq<u32>, dock_type: u32) -> MapDecision {
    if m.docks.contains(win) {
        MapDecision::KnownDock
    } else if types.contains(dock_type) || class_is_bar(class) {
        MapDecision::NewDock
    } else if class_floats(class) {
        MapDecision::Floating
    } else {
        MapDecision::Tiled
    }
}

/// The state after a map request with that decision.
pub open spec fn after_map(m: WMModel, win: Window, d: MapDecision) -> WMModel {
    match d {
        MapDecision::KnownDock => m,
        MapDecision::NewDock => m.add_dock(win),
        MapDecision::Floating => m.add_floating(win),
        MapDecision::Tiled => m.add(win),
    }
}

/// A lowercased class is a bar exactly when "polybar" occurs in it
/// anywhere, with any text before and after it.
pub proof fn law_bar_class_anywhere(c: Seq<char>)
    ensures
        lower_class_is_bar(c) <==> exists|a: Seq<char>, b: Seq<char>| c == #[trigger] (a + "polybar"@ + b),
{
    law_contains_run_anywhere(c, "polybar"@);
}

/// A lowercased class floats exactly when "dialog", "utility" or "popup"
/// occurs in it anywhere, with any text before and after it.
pub proof fn law_floating_class_anywhere(c: Seq<char>)
    ensures
        lower_class_floats(c) <==> {
            ||| exists|a: Seq<char>, b: Seq<char>| c == #[trigger] (a + "dialog"@ + b)
            ||| exists|a: Seq<char>, b: Seq<char>| c == #[trigger] (a + "utility"@ + b)
            ||| exists|a: Seq<char>, b: Seq<char>| c == #[trigger] (a + "popup"@ + b)
        },
{
    law_contains_run_anywhere(c, "dialog"@);
    law_contains_run_anywhere(c, "utility"@);
    law_contains_run_anywhere(c, "popup"@);
}

/// A window not yet known as a dock whose lowercased class holds
/// "polybar" anywhere is taken as a new dock, whatever its window types:
/// it is recorded among the docks, and is neither tiled nor floating;
/// nothing else changes.
pub proof fn law_polybar_window_is_dock(
    m: WMModel,
    win: Window,
    class: Seq<char>,
    types: Seq<u32>,
    dock_type: u32,
    before: Seq<char>,
    after: Seq<char>,
)
    requires
        !m.docks.contains(win),
        lowercase(class) == before + "polybar"@ + after,
    ensures
        map_decision(m, win, class, types, dock_type) == MapDecision::NewDock,
        after_map(m, win, MapDecision::NewDock) == (WMModel { docks: m.docks.push(win), ..m }),
{
    law_bar_class_anywhere(lowercase(class));
}

/// A window that is neither a known dock nor a bar, has no dock window
/// type, and whose lowercased class holds "dialog", "utility" or "popup"
/// anywhere floats: it is marked floating and tiled nowhere new.
pub proof fn law_dialog_window_floats(
    m: WMModel,
    win: Window,
    class: Seq<char>,
    types: Seq<u32>,
    dock_type: u32,
    before: Seq<char>,
    name: Seq<char>,
    after: Seq<char>,
)
    requires
        !m.docks.contains(win),
        !types.contains(dock_type),
        !class_is_bar(class),
        name == "dialog"@ || name == "utility"@ || name == "popup"@,
        lowercase(class) == before + name + after,
    ensures
        map_decision(m, win, class, types, dock_type) == MapDecision::Floating,
        after_map(m, win, MapDecision::Floating) == (WMModel { floating: m.floating.insert(win), ..m }),
{
    law_floating_class_anywhere(lowercase(class));
}

/// Whether `needle` (a literal) occurs in `hay`.
fn has_text(hay: &Vec<char>, needle: &str) -> (r: bool)
    ensures
        r == contains_run(hay@, needle@),
{
    let n = chars_of(needle);
    contains_text(hay, &n)
}

/// Handles a request to map `win`, a window of class `class` with the EWMH
/// window types `window_types`: records it as a dock, a floating window
/// or a tiled window, and says what the display has to do.
pub fn map_request(
    state: &mut WMState,
    win: Window,
    class: &str,
    window_types: &[u32],
    atoms: &Atoms,
) -> (r: MapDecision)
    requires
        old(state)@.well_formed(),
    ensures
        r == map_decision(old(state)@, win, class@, window_types@, atoms.net_wm_window_type_dock),
        final(state)@ == after_map(old(state)@, win, r),
        final(state)@.well_formed(),
{
    if state.is_dock(win) {
        return MapDecision::KnownDock;
    }
    let lower = to_lowercase(class);
    let is_dock = slice_contains(window_types, atoms.net_wm_window_type_dock);
    let is_bar = lowered_class_is_bar(lower.as_str());
    if is_dock || is_bar {
        state.add_dock(win);
        return MapDecision::NewDock;
    }
    let floats = lowered_class_floats(lower.as_str());
    if floats {
        state.add_floating(win);
        MapDecision::Floating
    } else {
        state.add(win);
        MapDecision::Tiled
    }
}

/// The answer to a configure request from `win`.
pub open spec fn configure_mode(m: WMModel, win: Window) -> ConfigureMode {
    if m.docks.contains(win) {
        ConfigureMode::Dock
    } else if m.floating.contains(win) {
        ConfigureMode::Floating
    } else if m.windows().contains(win) {
        ConfigureMode::Tiled
    } else {
        ConfigureMode::Other
    }
}

/// How to answer a configure request from `win`.
pub fn configure_request(state: &WMState, win: Window) -> (r: ConfigureMode)
    requires
        state@.well_formed(),
    ensures
        r == configure_mode(state@, win),
{
    if state.is_dock(win) {
        ConfigureMode::Dock
    } else if state.is_floating(win) {
        ConfigureMode::Floating
    } else if slice_contains(state.windows(), win) {
        ConfigureMode::Tiled
    } else {
        ConfigureMode::Other
    }
}

/// Handles the pointer entering `win`: a tracked window that is no dock
/// gets the focus. Returns whether it did, in which case the display
/// gives it the input focus.
pub fn enter_notify(state: &mut WMState, win: Window) -> (r: bool)
    requires
        old(state)@.well_formed(),
    ensures
        r == (!old(state)@.docks.contains(win) && old(state)@.tracks(win)),
        final(state)@ == (if r {
            old(state)@.focus(win)
        } else {
            old(state)@
        }),
        final(state)@.well_formed(),
{
    if state.is_dock(win) {
        return false;
    }
    if state.contains(win) || state.is_floating(win) {
        state.focus(win);
        true
    } else {
        false
    }
}

/// Whether `win` being mapped calls for re-tiling: it is a real window,
/// no dock, and tiled on the workspace shown.
pub fn map_notify(state: &WMState, win: Window) -> (r: bool)
    requires
        state@.well_formed(),
    ensures
        r == (win != 0 && !state@.docks.contains(win) && state@.windows().contains(win)),
{
    if win == 0 || state.is_dock(win) {
        return false;
    }
    slice_contains(state.windows(), win)
}

/// Handles `win` being unmapped: a floating window, or one tiled on the
/// workspace shown, is forgotten. Returns whether to re-tile (when a tiled
/// window was forgotten).
pub fn unmap_notify(state: &mut WMState, win: Window) -> (r: bool)
    requires
        old(state)@.well_formed(),
    ensures
        ({
            let m = old(state)@;
            if m.docks.contains(win) {
                !r && final(state)@ == m
            } else if m.floating.contains(win) {
                !r && final(state)@ == m.remove(win)
            } else if m.windows().contains(win) {
                r && final(state)@ == m.remove(win)
            } else {
                !r && final(state)@ == m
            }
        }),
        final(state)@.well_formed(),
{
    if state.is_dock(win) {
        return false;
    }
    if state.is_floating(win) {
        state.remove(win);
        return false;
    }
    if slice_contains(state.windows(), win) {
        state.remove(win);
        true
    } else {
        false
    }
}

/// Handles `win` being destroyed: a dock is dropped from the docks, a
/// floating or tiled window is forgotten. Returns whether to re-tile (when
/// the window was tiled on the workspace shown).
pub fn destroy_notify(state: &mut WMState, win: Window) -> (r: bool)
    requires
        old(state)@.well_formed(),
    ensures
        ({
            let m = old(state)@;
            if m.docks.contains(win) {
                !r && final(state)@ == m.remove_dock(win)
            } else if m.floating.contains(win) {
                !r && final(state)@ == m.remove(win)
            } else if m.contains(win) {
                r == m.windows().contains(win) && final(state)@ == m.remove(win)
            } else {
                !r && final(state)@ == m
            }
        }),
        final(state)@.well_formed(),
{
    if state.is_dock(win) {
        state.remove_dock(win);
        return false;
    }
    if state.is_floating(win) {
        state.remove(win);
        return false;
    }
    if state.contains(win) {
        let in_current = slice_contains(state.windows(), win);
        state.remove(win);
        in_current
    } else {
        false
    }
}

/// What a client message of type `message_type`, whose first data word is
/// `data0`, asks of the display: a `_NET_CURRENT_DESKTOP` request asks to
/// show that workspace. Nothing changes yet: the caller hides and shows the
/// windows listed and commits the switch in steps (`switch_workspace`, then
/// `focus_first`).
pub fn client_message(
    state: &WMState,
    message_type: u32,
    data0: u32,
    atoms: &Atoms,
) -> (r: Option<WorkspaceSwitch>)
    requires
        state@.well_formed(),
    ensures
        r is Some <==> (message_type == atoms.net_current_desktop && state@.switch_applies(
            data0 as int,
        )),
        r matches Some(p) ==> {
            &&& p.unmap@ == without_docks(state@.windows(), state@.docks)
            &&& p.map@ == without_docks(state@.workspaces[data0 as int], state@.docks)
            &&& p.workspace == data0
            &&& p.desktop == data0
        },
{
    if message_type == atoms.net_current_desktop {
        state.plan_switch(data0 as usize)
    } else {
        None
    }
}

} // verus!
