//! Key bindings: reading binding strings such as `super+shift+q` and
//! deciding what a key press asks for.
use vstd::prelude::*;

use crate::config::{Config, CustomKey};
use crate::text::{
    chars_of, lowercase, parse_unsigned, parse_usize, pieces, split_bounds, split_on, text_eq,
    to_lowercase, trim, trim_bounds,
};
use crate::wm::state::{WMModel, WMState};
use crate::Window;

verus! {

/// The modifier bit of the Super (Mod4) key.
pub const MOD_KEY: u16 = 0x0040;

/// The modifier bit of Shift.
pub const SHIFT_MASK: u16 = 0x0001;

/// The modifier bit of Control.
pub const CONTROL_MASK: u16 = 0x0004;

/// The modifier bit of Alt (Mod1).
pub const ALT_MASK: u16 = 0x0008;

/// The modifier bit that a binding token stands for, or 0 when it names no
/// modifier.
pub open spec fn modifier_bit(tok: Seq<char>) -> u16 {
    if tok == "super"@ || tok == "mod4"@ {
        MOD_KEY
    } else if tok == "shift"@ {
        SHIFT_MASK
    } else if tok == "ctrl"@ || tok == "control"@ {
        CONTROL_MASK
    } else if tok == "alt"@ || tok == "mod1"@ {
        ALT_MASK
    } else {
        0
    }
}

/// Whether a binding token names a modifier.
pub open spec fn is_modifier(tok: Seq<char>) -> bool {
    tok == "super"@ || tok == "mod4"@ || tok == "shift"@ || tok == "ctrl"@ || tok == "control"@
        || tok == "alt"@ || tok == "mod1"@
}

/// The tokens of a binding: its `+`-separated parts, trimmed and lowercased.
pub open spec fn binding_tokens(b: Seq<char>) -> Seq<Seq<char>> {
    split_on(b, '+').map_values(|p: Seq<char>| lowercase(trim(p)))
}

/// The modifier mask that the tokens name together.
pub open spec fn tokens_mask(toks: Seq<Seq<char>>) -> u16
    decreases toks.len(),
{
    if toks.len() == 0 {
        0
    } else {
        tokens_mask(toks.drop_last()) | modifier_bit(toks.last())
    }
}

/// The last token that names no modifier, or the empty text.
pub open spec fn tokens_key(toks: Seq<Seq<char>>) -> Seq<char>
    decreases toks.len(),
{
    if toks.len() == 0 {
        Seq::empty()
    } else if is_modifier(toks.last()) {
        tokens_key(toks.drop_last())
    } else {
        toks.last()
    }
}

/// The keycode of a key name (0 for a name that is not known).
pub open spec fn keycode_of_name(name: Seq<char>) -> u8 {
    if name == "q"@ {
        0x18
    } else if name == "w"@ {
        0x1a
    } else if name == "e"@ {
        0x1c
    } else if name == "r"@ {
        0x1b
    } else if name == "j"@ {
        0x2c
    } else if name == "k"@ {
        0x2e
    } else if name == "l"@ {
        0x2f
    } else if name == "return"@ || name == "enter"@ {
        0x24
    } else if name == "space"@ {
        0x41
    } else {
        0
    }
}

/// The modifier mask and keycode that a binding names.
pub open spec fn binding_of(b: Seq<char>) -> (u16, u8) {
    (tokens_mask(binding_tokens(b)), keycode_of_name(tokens_key(binding_tokens(b))))
}

/// The workspace that a digit key selects.
pub open spec fn workspace_of_keycode(keycode: u8) -> Option<usize> {
    if 0x0a <= keycode <= 0x12 {
        Some((keycode - 0x0a) as usize)
    } else {
        None
    }
}

/// The modifier bit that `tok` names, or 0.
pub fn modifier_of(tok: &str) -> (r: u16)
    ensures
        r == modifier_bit(tok@),
        (r != 0) == is_modifier(tok@),
{
    if text_eq(tok, "super") || text_eq(tok, "mod4") {
        MOD_KEY
    } else if text_eq(tok, "shift") {
        SHIFT_MASK
    } else if text_eq(tok, "ctrl") || text_eq(tok, "control") {
        CONTROL_MASK
    } else if text_eq(tok, "alt") || text_eq(tok, "mod1") {
        ALT_MASK
    } else {
        0
    }
}

/// The keycode of a key name such as `q` or `return` (0 when unknown).
pub fn key_name_to_keycode(key: &str) -> (r: u8)
    ensures
        r == keycode_of_name(key@),
{
    if text_eq(key, "q") {
        0x18
    } else if text_eq(key, "w") {
        0x1a
    } else if text_eq(key, "e") {
        0x1c
    } else if text_eq(key, "r") {
        0x1b
    } else if text_eq(key, "j") {
        0x2c
    } else if text_eq(key, "k") {
        0x2e
    } else if text_eq(key, "l") {
        0x2f
    } else if text_eq(key, "return") || text_eq(key, "enter") {
        0x24
    } else if text_eq(key, "space") {
        0x41
    } else {
        0
    }
}

/// The tokens of a binding.
pub fn binding_token_list(binding: &str) -> (r: Vec<String>)
    ensures
        r.len() == binding_tokens(binding@).len(),
        forall|k: int| 0 <= k < r.len() ==> #[trigger] r[k]@ == binding_tokens(binding@)[k],
{
    let v = chars_of(binding);
    let parts = split_bounds(&v, '+');
    let mut r: Vec<String> = Vec::new();
    for k in 0..parts.len()
        invariant
            v@ == binding@,
            pieces(v@, parts@) == split_on(v@, '+'),
            forall|j: int| 0 <= j < parts.len() ==> (#[trigger] parts[j]).0 <= parts[j].1 <= v.len(),
            r.len() == k,
            forall|j: int| 0 <= j < k ==> #[trigger] r[j]@ == binding_tokens(binding@)[j],
    {
        let (x, y) = parts[k];
        let (a, b) = trim_bounds(&v, x, y);
        let tok = to_lowercase(binding.substring_char(a, b));
        proof {
            assert(pieces(v@, parts@)[k as int] == v@.subrange(x as int, y as int));
        }
        r.push(tok);
    }
    r
}

/// The modifier mask and keycode that binding tokens (already trimmed and
/// lowercased) name: `super`/`mod4`, `shift`, `ctrl`/`control` and
/// `alt`/`mod1` add modifier bits, and the last other token names the key.
pub fn tokens_binding(toks: &[String]) -> (r: (u16, u8))
    ensures
        r == (tokens_mask(toks@.map_values(|t: String| t@)), keycode_of_name(
            tokens_key(toks@.map_values(|t: String| t@)),
        )),
{
    let ghost all = toks@.map_values(|t: String| t@);
    let mut mask: u16 = 0;
    let mut key = String::new();
    proof {
        assert(all.take(0) =~= Seq::<Seq<char>>::empty());
    }
    for k in 0..toks.len()
        invariant
            all == toks@.map_values(|t: String| t@),
            mask == tokens_mask(all.take(k as int)),
            key@ == tokens_key(all.take(k as int)),
    {
        proof {
            assert(all.take(k + 1).drop_last() =~= all.take(k as int));
            assert(all.take(k + 1).last() == toks@[k as int]@);
        }
        let bit = modifier_of(toks[k].as_str());
        if bit != 0 {
            mask = mask | bit;
        } else {
            key = toks[k].clone();
        }
        proof {
            if bit == 0 {
                assert(mask == (mask | 0u16)) by (bit_vector);
            }
        }
    }
    proof {
        assert(all.take(toks.len() as int) =~= all);
    }
    (mask, key_name_to_keycode(key.as_str()))
}

/// The modifier mask that binding tokens (already trimmed and lowercased)
/// name, ignoring any key.
pub fn tokens_modmask(toks: &[String]) -> (r: u16)
    ensures
        r == tokens_mask(toks@.map_values(|t: String| t@)),
{
    let ghost all = toks@.map_values(|t: String| t@);
    let mut mask: u16 = 0;
    proof {
        assert(all.take(0) =~= Seq::<Seq<char>>::empty());
    }
    for k in 0..toks.len()
        invariant
            all == toks@.map_values(|t: String| t@),
            mask == tokens_mask(all.take(k as int)),
    {
        proof {
            assert(all.take(k + 1).drop_last() =~= all.take(k as int));
            assert(all.take(k + 1).last() == toks@[k as int]@);
        }
        let bit = modifier_of(toks[k].as_str());
        mask = mask | bit;
    }
    proof {
        assert(all.take(toks.len() as int) =~= all);
    }
    mask
}

/// The modifier mask and keycode that a binding such as `super+shift+q`
/// names. Parts are separated by `+`, trimmed and lowercased; `super`/`mod4`,
/// `shift`, `ctrl`/`control` and `alt`/`mod1` add modifier bits, and the last
/// other part names the key.
pub fn parse_binding(binding: &str) -> (r: (u16, u8))
    ensures
        r == binding_of(binding@),
{
    let toks = binding_token_list(binding);
    proof {
        assert(toks@.map_values(|t: String| t@) =~= binding_tokens(binding@));
    }
    tokens_binding(toks.as_slice())
}

/// The modifier mask of a binding, ignoring any key it names.
pub fn parse_modmask(s: &str) -> (r: u16)
    ensures
        r == binding_of(s@).0,
{
    let toks = binding_token_list(s);
    proof {
        assert(toks@.map_values(|t: String| t@) =~= binding_tokens(s@));
    }
    tokens_modmask(toks.as_slice())
}

/// Whether a key press with `modmask` and `keycode` matches `binding`.
pub fn matches_key(modmask: u16, keycode: u8, binding: &str) -> (r: bool)
    ensures
        r == (binding_of(binding@) == (modmask, keycode)),
{
    let (bmask, bkey) = parse_binding(binding);
    modmask == bmask && keycode == bkey
}

/// The workspace that a digit key (`1` to `9` on the top row) selects.
pub fn keycode_to_workspace(keycode: u8) -> (r: Option<usize>)
    ensures
        r == workspace_of_keycode(keycode),
{
    if 0x0a <= keycode && keycode <= 0x12 {
        Some((keycode - 0x0a) as usize)
    } else {
        None
    }
}

/// What a key press asks the window manager to do.
#[derive(Debug, Clone, PartialEq, Eq)]
pub enum KeyAction {
    /// Nothing.
    Nothing,
    /// Show workspace `.0` (a no-op when out of range or shown), then re-tile.
    SwitchWorkspace(usize),
    /// Send the focused window to workspace `.0`, then re-tile.
    MoveToWorkspace(usize),
    /// Close window `.0`.
    Close(Window),
    /// Quit the window manager.
    Quit,
    /// Restart the window manager.
    Restart,
    /// Exchange the first two windows of the workspace shown, then re-tile.
    SwapMaster,
    /// Focus the next window.
    FocusNext,
    /// Focus the previous window.
    FocusPrev,
    /// Run the command `.0`.
    Spawn(String),
    /// Change the master ratio, which cannot be changed while running.
    RatioUnsupported,
    /// A custom binding names the unknown action `.0`.
    UnknownAction(String),
}

/// A key action with its texts as character sequences.
pub enum KeyActionView {
    /// Nothing.
    Nothing,
    /// Show a workspace.
    SwitchWorkspace(usize),
    /// Send the focused window to a workspace.
    MoveToWorkspace(usize),
    /// Close a window.
    Close(Window),
    /// Quit.
    Quit,
    /// Restart.
    Restart,
    /// Exchange the first two windows.
    SwapMaster,
    /// Focus the next window.
    FocusNext,
    /// Focus the previous window.
    FocusPrev,
    /// Run a command.
    Spawn(Seq<char>),
    /// Change the master ratio.
    RatioUnsupported,
    /// An unknown custom action.
    UnknownAction(Seq<char>),
}

impl View for KeyAction {
    type V = KeyActionView;

    open spec fn view(&self) -> KeyActionView {
        match self {
            KeyAction::Nothing => KeyActionView::Nothing,
            KeyAction::SwitchWorkspace(i) => KeyActionView::SwitchWorkspace(*i),
            KeyAction::MoveToWorkspace(i) => KeyActionView::MoveToWorkspace(*i),
            KeyAction::Close(w) => KeyActionView::Close(*w),
            KeyAction::Quit => KeyActionView::Quit,
            KeyAction::Restart => KeyActionView::Restart,
            KeyAction::SwapMaster => KeyActionView::SwapMaster,
            KeyAction::FocusNext => KeyActionView::FocusNext,
            KeyAction::FocusPrev => KeyActionView::FocusPrev,
            KeyAction::Spawn(c) => KeyActionView::Spawn(c@),
            KeyAction::RatioUnsupported => KeyActionView::RatioUnsupported,
            KeyAction::UnknownAction(a) => KeyActionView::UnknownAction(a@),
        }
    }
}

/// The argument of a custom binding, empty when it has none.
pub open spec fn arg_text(ck: CustomKey) -> Seq<char> {
    match ck.arg {
        Some(a) => a@,
        None => Seq::empty(),
    }
}

/// The workspace that a custom binding's argument names: a number from 1,
/// counted from 0.
pub open spec fn workspace_arg(arg: Seq<char>) -> Option<usize> {
    match parse_unsigned(arg, 10, usize::MAX as nat) {
        Ok(n) => if n >= 1 {
            Some((n - 1) as usize)
        } else {
            None
        },
        Err(_) => None,
    }
}

/// What a matching custom binding asks for; `focus` is the window a close
/// applies to.
pub open spec fn custom_effect(ck: CustomKey, focus: Option<Window>) -> KeyActionView {
    let a = ck.action@;
    let arg = arg_text(ck);
    if a == "exec"@ {
        KeyActionView::Spawn(arg)
    } else if a == "master_ratio_inc"@ {
        KeyActionView::RatioUnsupported
    } else if a == "workspace"@ {
        match workspace_arg(arg) {
            Some(i) => KeyActionView::SwitchWorkspace(i),
            None => KeyActionView::Nothing,
        }
    } else if a == "move_to_workspace"@ {
        match workspace_arg(arg) {
            Some(i) => KeyActionView::MoveToWorkspace(i),
            None => KeyActionView::Nothing,
        }
    } else if a == "close"@ {
        match focus {
            Some(w) => KeyActionView::Close(w),
            None => KeyActionView::Nothing,
        }
    } else if a == "swap_master"@ {
        KeyActionView::SwapMaster
    } else if a == "quit"@ {
        KeyActionView::Quit
    } else if a == "restart"@ {
        KeyActionView::Restart
    } else {
        KeyActionView::UnknownAction(a)
    }
}

/// What the first custom binding that matches asks for.
pub open spec fn custom_action(
    keys: Seq<CustomKey>,
    modmask: u16,
    keycode: u8,
    focus: Option<Window>,
) -> KeyActionView
    decreases keys.len(),
{
    if keys.len() == 0 {
        KeyActionView::Nothing
    } else if binding_of(keys[0].binding@) == (modmask, keycode) {
        custom_effect(keys[0], focus)
    } else {
        custom_action(keys.drop_first(), modmask, keycode, focus)
    }
}

/// What a key press asks for: `state` is the event's modifier state, of
/// which the low byte counts; `focus` is the window a close applies to.
pub open spec fn key_action(config: Config, focus: Option<Window>, state: u16, keycode: u8) -> KeyActionView {
    let modmask = state & 0xff;
    let kb = config.keybinds;
    let bound = |b: Seq<char>| binding_of(b) == (modmask, keycode);
    if workspace_of_keycode(keycode) is Some && modmask == binding_of(kb.workspace_move@).0 {
        KeyActionView::MoveToWorkspace(workspace_of_keycode(keycode)->0)
    } else if workspace_of_keycode(keycode) is Some && modmask == binding_of(kb.workspace_switch@).0 {
        KeyActionView::SwitchWorkspace(workspace_of_keycode(keycode)->0)
    } else if bound(kb.close_window@) {
        match focus {
            Some(w) => KeyActionView::Close(w),
            None => KeyActionView::Nothing,
        }
    } else if bound(kb.quit@) {
        KeyActionView::Quit
    } else if bound(kb.restart@) {
        KeyActionView::Restart
    } else if bound(kb.swap_master@) {
        KeyActionView::SwapMaster
    } else if bound(kb.focus_next@) {
        KeyActionView::FocusNext
    } else if bound(kb.focus_prev@) {
        KeyActionView::FocusPrev
    } else if bound(kb.terminal@) {
        KeyActionView::Spawn(config.terminal@)
    } else {
        custom_action(config.custom_keys@, modmask, keycode, focus)
    }
}

fn workspace_from_arg(arg: &str) -> (r: Option<usize>)
    ensures
        r == workspace_arg(arg@),
{
    proof {
        crate::text::lemma_parse_bounded(arg@, 10, usize::MAX as nat);
    }
    match parse_usize(arg) {
        Some(n) => if n >= 1 {
            Some(n - 1)
        } else {
            None
        },
        None => None,
    }
}

/// What the first custom binding matching `modmask` and `keycode` asks for,
/// the state left as it is.
pub fn decide_custom(wm: &WMState, modmask: u16, keycode: u8, config: &Config) -> (r: KeyAction)
    requires
        wm@.well_formed(),
    ensures
        r@ == custom_action(config.custom_keys@, modmask, keycode, wm@.focused_or_first()),
{
    let keys = &config.custom_keys;
    let ghost focus = wm@.focused_or_first();
    let mut i: usize = 0;
    proof {
        assert(keys@.subrange(0, keys.len() as int) =~= keys@);
    }
    while i < keys.len()
        invariant
            i <= keys.len(),
            keys@ == config.custom_keys@,
            wm@.well_formed(),
            focus == wm@.focused_or_first(),
            custom_action(keys@, modmask, keycode, focus) == custom_action(
                keys@.subrange(i as int, keys.len() as int),
                modmask,
                keycode,
                focus,
            ),
        decreases keys.len() - i,
    {
        proof {
            let rest = keys@.subrange(i as int, keys.len() as int);
            assert(rest[0] == keys@[i as int]);
            assert(rest.drop_first() =~= keys@.subrange(i + 1, keys.len() as int));
        }
        let ck = &keys[i];
        if matches_key(modmask, keycode, ck.binding.as_str()) {
            let arg = match &ck.arg {
                Some(a) => a.clone(),
                None => String::new(),
            };
            let action = ck.action.as_str();
            proof {
                assert(arg@ == arg_text(*ck));
                assert(custom_action(keys@, modmask, keycode, focus) == custom_effect(*ck, focus));
            }
            if text_eq(action, "exec") {
                return KeyAction::Spawn(arg);
            } else if text_eq(action, "master_ratio_inc") {
                return KeyAction::RatioUnsupported;
            } else if text_eq(action, "workspace") {
                return match workspace_from_arg(arg.as_str()) {
                    Some(idx) => KeyAction::SwitchWorkspace(idx),
                    None => KeyAction::Nothing,
                };
            } else if text_eq(action, "move_to_workspace") {
                return match workspace_from_arg(arg.as_str()) {
                    Some(idx) => KeyAction::MoveToWorkspace(idx),
                    None => KeyAction::Nothing,
                };
            } else if text_eq(action, "close") {
                return match wm.focused_or_first() {
                    Some(w) => KeyAction::Close(*w),
                    None => KeyAction::Nothing,
                };
            } else if text_eq(action, "swap_master") {
                return KeyAction::SwapMaster;
            } else if text_eq(action, "quit") {
                return KeyAction::Quit;
            } else if text_eq(action, "restart") {
                return KeyAction::Restart;
            } else {
                return KeyAction::UnknownAction(ck.action.clone());
            }
        }
        i = i + 1;
    }
    KeyAction::Nothing
}

/// What a key press asks for, the state left as it is. `state` is the
/// event's modifier state (only its low byte counts) and `keycode` the key. A digit key with the
/// workspace-move modifiers sends the focused window, with the
/// workspace-switch modifiers shows a workspace; otherwise the built-in
/// bindings are tried in turn, then the custom ones.
pub fn decide_key(wm: &WMState, state: u16, keycode: u8, config: &Config) -> (r: KeyAction)
    requires
        wm@.well_formed(),
    ensures
        r@ == key_action(*config, wm@.focused_or_first(), state, keycode),
{
    let modmask = state & 0x00ff;
    let kb = &config.keybinds;
    let switch_mod = parse_modmask(kb.workspace_switch.as_str());
    let move_mod = parse_modmask(kb.workspace_move.as_str());
    match keycode_to_workspace(keycode) {
        Some(idx) => {
            if modmask == move_mod {
                return KeyAction::MoveToWorkspace(idx);
            } else if modmask == switch_mod {
                return KeyAction::SwitchWorkspace(idx);
            }
        },
        None => {},
    }
    if matches_key(modmask, keycode, kb.close_window.as_str()) {
        match wm.focused_or_first() {
            Some(w) => KeyAction::Close(*w),
            None => KeyAction::Nothing,
        }
    } else if matches_key(modmask, keycode, kb.quit.as_str()) {
        KeyAction::Quit
    } else if matches_key(modmask, keycode, kb.restart.as_str()) {
        KeyAction::Restart
    } else if matches_key(modmask, keycode, kb.swap_master.as_str()) {
        KeyAction::SwapMaster
    } else if matches_key(modmask, keycode, kb.focus_next.as_str()) {
        KeyAction::FocusNext
    } else if matches_key(modmask, keycode, kb.focus_prev.as_str()) {
        KeyAction::FocusPrev
    } else if matches_key(modmask, keycode, kb.terminal.as_str()) {
        KeyAction::Spawn(config.terminal.clone())
    } else {
        decide_custom(wm, modmask, keycode, config)
    }
}

/// The state after a key action: showing a workspace, sending the focused
/// window away, exchanging the first two windows and moving focus change
/// it; every other action leaves it.
pub open spec fn key_effect(m: WMModel, a: KeyActionView) -> WMModel {
    match a {
        KeyActionView::SwitchWorkspace(i) => m.switch_to(i as int),
        KeyActionView::MoveToWorkspace(i) => m.move_to(i as int),
        KeyActionView::SwapMaster => m.swap_master(),
        KeyActionView::FocusNext => m.shift_focus(1),
        KeyActionView::FocusPrev => m.shift_focus(-1),
        _ => m,
    }
}

/// Carries out the state's part of a key action.
pub fn apply_key_action(wm: &mut WMState, action: &KeyAction)
    requires
        old(wm)@.well_formed(),
    ensures
        final(wm)@ == key_effect(old(wm)@, action@),
        final(wm)@.well_formed(),
{
    match action {
        KeyAction::SwitchWorkspace(idx) => {
            wm.switch_workspace(*idx);
        },
        KeyAction::MoveToWorkspace(idx) => {
            wm.move_to_workspace(*idx);
        },
        KeyAction::SwapMaster => {
            wm.swap_master();
        },
        KeyAction::FocusNext => {
            wm.focus_next();
        },
        KeyAction::FocusPrev => {
            wm.focus_prev();
        },
        _ => {},
    }
}

/// Handles a key press: decides what it asks for (as `decide_key` does)
/// and carries out the state's part of it. Returns the action, whose
/// display part (hiding, showing, focusing, closing windows, running
/// commands) is left to the caller.
pub fn handle_key(wm: &mut WMState, state: u16, keycode: u8, config: &Config) -> (r: KeyAction)
    requires
        old(wm)@.well_formed(),
    ensures
        r@ == key_action(*config, old(wm)@.focused_or_first(), state, keycode),
        final(wm)@ == key_effect(old(wm)@, r@),
        final(wm)@.well_formed(),
{
    let action = decide_key(wm, state, keycode, config);
    apply_key_action(wm, &action);
    action
}

/// Handles a key press through the custom bindings: decides what the first
/// matching one asks for (as `decide_custom` does) and carries out the
/// state's part of it. Returns the action.
pub fn handle_custom(wm: &mut WMState, modmask: u16, keycode: u8, config: &Config) -> (r: KeyAction)
    requires
        old(wm)@.well_formed(),
    ensures
        r@ == custom_action(config.custom_keys@, modmask, keycode, old(wm)@.focused_or_first()),
        final(wm)@ == key_effect(old(wm)@, r@),
        final(wm)@.well_formed(),
{
    let action = decide_custom(wm, modmask, keycode, config);
    apply_key_action(wm, &action);
    action
}

/// How to close a window.
#[derive(Debug, Clone, Copy, PartialEq, Eq, Structural)]
pub enum CloseMethod {
    /// Ask it politely: send `WM_DELETE_WINDOW`.
    Delete,
    /// Disconnect its client.
    Kill,
}

/// How to close a window whose `WM_PROTOCOLS` are `protocols`: ask it to
/// delete itself when it supports `WM_DELETE_WINDOW` (`wm_delete`), else kill
/// its client.
pub fn close_method(protocols: &[u32], wm_delete: u32) -> (r: CloseMethod)
    ensures
        r == (if protocols@.contains(wm_delete) {
            CloseMethod::Delete
        } else {
            CloseMethod::Kill
        }),
{
    if crate::wm::state::slice_contains(protocols, wm_delete) {
        CloseMethod::Delete
    } else {
        CloseMethod::Kill
    }
}

/// The digit keys `1` to `9` select workspaces 0 to 8, one each, and no
/// other key selects a workspace.
pub proof fn law_workspace_keys(keycode: u8, i: usize)
    ensures
        i < 9 ==> workspace_of_keycode((0x0a + i) as u8) == Some(i),
        workspace_of_keycode(keycode) == Some(i) ==> i < 9 && keycode == 0x0a + i,
{
}

/// Each custom action name asks for an action of its own: "exec" runs
/// the argument, "master_ratio_inc" asks for a ratio change, "workspace"
/// shows and "move_to_workspace" sends the focused window to the workspace
/// that the argument numbers from 1 (nothing without such a number),
/// "close" closes the focused window (nothing without one), "swap_master"
/// swaps the first two windows, "quit" quits and "restart" restarts. Any
/// other name is reported back as an unknown action.
pub proof fn law_custom_action_names(ck: CustomKey, focus: Option<Window>)
    ensures
        ck.action@ == "exec"@ ==> custom_effect(ck, focus) == KeyActionView::Spawn(arg_text(ck)),
        ck.action@ == "master_ratio_inc"@ ==> custom_effect(ck, focus) == KeyActionView::RatioUnsupported,
        ck.action@ == "workspace"@ ==> custom_effect(ck, focus) == match workspace_arg(arg_text(ck)) {
            Some(i) => KeyActionView::SwitchWorkspace(i),
            None => KeyActionView::Nothing,
        },
        ck.action@ == "move_to_workspace"@ ==> custom_effect(ck, focus) == match workspace_arg(arg_text(ck)) {
            Some(i) => KeyActionView::MoveToWorkspace(i),
            None => KeyActionView::Nothing,
        },
        ck.action@ == "close"@ ==> custom_effect(ck, focus) == match focus {
            Some(w) => KeyActionView::Close(w),
            None => KeyActionView::Nothing,
        },
        ck.action@ == "swap_master"@ ==> custom_effect(ck, focus) == KeyActionView::SwapMaster,
        ck.action@ == "quit"@ ==> custom_effect(ck, focus) == KeyActionView::Quit,
        ck.action@ == "restart"@ ==> custom_effect(ck, focus) == KeyActionView::Restart,
        ({
            &&& ck.action@ != "exec"@
            &&& ck.action@ != "master_ratio_inc"@
            &&& ck.action@ != "workspace"@
            &&& ck.action@ != "move_to_workspace"@
            &&& ck.action@ != "close"@
            &&& ck.action@ != "swap_master"@
            &&& ck.action@ != "quit"@
            &&& ck.action@ != "restart"@
        }) ==> custom_effect(ck, focus) == KeyActionView::UnknownAction(ck.action@),
{
    reveal_strlit("exec");
    reveal_strlit("master_ratio_inc");
    reveal_strlit("workspace");
    reveal_strlit("move_to_workspace");
    reveal_strlit("close");
    reveal_strlit("swap_master");
    reveal_strlit("quit");
    reveal_strlit("restart");
    assert("exec"@[0] == 'e' && "master_ratio_inc"@[0] == 'm' && "workspace"@[0] == 'w');
    assert("move_to_workspace"@[0] == 'm' && "close"@[0] == 'c' && "swap_master"@[0] == 's');
    assert("quit"@[0] == 'q' && "restart"@[0] == 'r');
    assert("move_to_workspace"@[1] != "master_ratio_inc"@[1]);
}

/// Of the custom bindings, the first one that matches the keys decides:
/// those after it are not looked at.
pub proof fn law_custom_first_match(
    keys: Seq<CustomKey>,
    modmask: u16,
    keycode: u8,
    focus: Option<Window>,
    j: int,
)
    requires
        0 <= j < keys.len(),
        binding_of(keys[j].binding@) == (modmask, keycode),
        forall|i: int| 0 <= i < j ==> binding_of(#[trigger] keys[i].binding@) != (modmask, keycode),
    ensures
        custom_action(keys, modmask, keycode, focus) == custom_effect(keys[j], focus),
    decreases j,
{
    if j > 0 {
        let rest = keys.drop_first();
        assert(binding_of(keys[0].binding@) != (modmask, keycode));
        assert(rest[j - 1] == keys[j]);
        assert forall|i: int| 0 <= i < j - 1 implies binding_of(#[trigger] rest[i].binding@) != (modmask, keycode) by {
            assert(rest[i] == keys[i + 1]);
        }
        law_custom_first_match(rest, modmask, keycode, focus, j - 1);
    }
}

/// When no custom binding matches the keys, they ask for nothing.
pub proof fn law_custom_no_match(keys: Seq<CustomKey>, modmask: u16, keycode: u8, focus: Option<Window>)
    requires
        forall|i: int| 0 <= i < keys.len() ==> binding_of(#[trigger] keys[i].binding@) != (modmask, keycode),
    ensures
        custom_action(keys, modmask, keycode, focus) == KeyActionView::Nothing,
    decreases keys.len(),
{
    if keys.len() > 0 {
        let rest = keys.drop_first();
        assert(binding_of(keys[0].binding@) != (modmask, keycode));
        assert forall|i: int| 0 <= i < rest.len() implies binding_of(#[trigger] rest[i].binding@) != (modmask, keycode) by {
            assert(rest[i] == keys[i + 1]);
        }
        law_custom_no_match(rest, modmask, keycode, focus);
    }
}

/// What a key press asks for, rule by rule: a digit key `1` to `9`
/// (keycodes from 0x0a) with the workspace-move modifiers sends the
/// focused window to that workspace, with the workspace-switch modifiers
/// shows it; otherwise the first built-in binding that the keys match, in
/// the order close, quit, restart, swap master, focus next, focus previous,
/// terminal, asks for its own action; and keys that match none of them go
/// to the custom bindings. Only the low byte of the modifier state counts.
pub proof fn law_key_rules(config: Config, focus: Option<Window>, state: u16, keycode: u8)
    ensures
        ({
            let mm = state & 0xff;
            let kb = config.keybinds;
            let digit = 0x0a <= keycode < 0x0a + 9;
            let hit = |b: Seq<char>| binding_of(b) == (mm, keycode);
            let ws = (keycode - 0x0a) as usize;
            let a = key_action(config, focus, state, keycode);
            &&& (digit && mm == binding_of(kb.workspace_move@).0) ==> a == KeyActionView::MoveToWorkspace(ws)
            &&& (digit && mm != binding_of(kb.workspace_move@).0 && mm == binding_of(kb.workspace_switch@).0)
                ==> a == KeyActionView::SwitchWorkspace(ws)
            &&& (!digit || (mm != binding_of(kb.workspace_move@).0 && mm != binding_of(kb.workspace_switch@).0)) ==> {
                &&& hit(kb.close_window@) ==> a == match focus {
                    Some(w) => KeyActionView::Close(w),
                    None => KeyActionView::Nothing,
                }
                &&& (!hit(kb.close_window@) && hit(kb.quit@)) ==> a == KeyActionView::Quit
                &&& (!hit(kb.close_window@) && !hit(kb.quit@) && hit(kb.restart@)) ==> a == KeyActionView::Restart
                &&& (!hit(kb.close_window@) && !hit(kb.quit@) && !hit(kb.restart@) && hit(kb.swap_master@))
                    ==> a == KeyActionView::SwapMaster
                &&& (!hit(kb.close_window@) && !hit(kb.quit@) && !hit(kb.restart@) && !hit(kb.swap_master@)
                    && hit(kb.focus_next@)) ==> a == KeyActionView::FocusNext
                &&& (!hit(kb.close_window@) && !hit(kb.quit@) && !hit(kb.restart@) && !hit(kb.swap_master@)
                    && !hit(kb.focus_next@) && hit(kb.focus_prev@)) ==> a == KeyActionView::FocusPrev
                &&& (!hit(kb.close_window@) && !hit(kb.quit@) && !hit(kb.restart@) && !hit(kb.swap_master@)
                    && !hit(kb.focus_next@) && !hit(kb.focus_prev@) && hit(kb.terminal@))
                    ==> a == KeyActionView::Spawn(config.terminal@)
                &&& (!hit(kb.close_window@) && !hit(kb.quit@) && !hit(kb.restart@) && !hit(kb.swap_master@)
                    && !hit(kb.focus_next@) && !hit(kb.focus_prev@) && !hit(kb.terminal@))
                    ==> a == custom_action(config.custom_keys@, mm, keycode, focus)
            }
        }),
{
    let digit = 0x0a <= keycode < 0x0a + 9;
    if digit {
        law_workspace_keys(keycode, (keycode - 0x0a) as usize);
    } else {
        assert(workspace_of_keycode(keycode) is None);
    }
}

} // verus!
