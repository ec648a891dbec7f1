//! The window manager's settings and their defaults.
use vstd::prelude::*;

use crate::text::{chars_of, parse_unsigned, parse_unsigned_text, IntError};

verus! {

/// The settings of the window manager.
#[derive(Debug, Clone)]
pub struct Config {
    /// Gap between tiles and around the screen edge, in pixels.
    pub gap: u32,
    /// Border width of tiled windows, in pixels.
    pub border_width: u32,
    /// Border colour, `0xRRGGBB`.
    pub border_color: u32,
    /// Border colour of the focused window, `0xRRGGBB`.
    pub border_focus_color: u32,
    /// The share of the screen width that the master tile takes, as the
    /// IEEE 754 bit pattern of an `f32` (only the program's display side
    /// computes with it).
    pub master_ratio_bits: u32,
    /// The terminal command.
    pub terminal: String,
    /// The built-in key bindings.
    pub keybinds: KeybindsConfig,
    /// The status bar's settings.
    pub bar: BarConfig,
    /// Commands run at start-up.
    pub autostart: Vec<String>,
    /// User-defined key bindings.
    pub custom_keys: Vec<CustomKey>,
}

/// The status bar's settings.
#[derive(Debug, Clone)]
pub struct BarConfig {
    /// Whether the bar is shown.
    pub enabled: bool,
    /// Bar height, in pixels.
    pub height: u32,
    /// Screen edge the bar sits at.
    pub position: BarPosition,
    /// Background colour.
    pub bg_color: u32,
    /// Text colour.
    pub fg_color: u32,
    /// Colour of the active workspace's button.
    pub workspace_active_color: u32,
    /// Colour of the other workspaces' buttons.
    pub workspace_inactive_color: u32,
    /// Text colour of the workspace buttons.
    pub workspace_fg_color: u32,
    /// Whether the clock is shown.
    pub show_time: bool,
    /// Clock format.
    pub time_format: TimeFormat,
    /// X font name.
    pub font: String,
}

/// Screen edge of the bar.
#[derive(Debug, Clone, Copy, PartialEq, Eq, Structural)]
pub enum BarPosition {
    /// Top edge.
    Top,
    /// Bottom edge.
    Bottom,
}

/// Clock format.
#[derive(Debug, Clone, Copy, PartialEq, Eq, Structural)]
pub enum TimeFormat {
    /// 24-hour clock.
    H24,
    /// 12-hour clock.
    H12,
}

/// The built-in key bindings, each written like `super+shift+q`.
#[derive(Debug, Clone)]
pub struct KeybindsConfig {
    /// Close the focused window.
    pub close_window: String,
    /// Quit the window manager.
    pub quit: String,
    /// Exchange the first two windows.
    pub swap_master: String,
    /// Focus the next window.
    pub focus_next: String,
    /// Focus the previous window.
    pub focus_prev: String,
    /// Start the terminal.
    pub terminal: String,
    /// Restart the window manager.
    pub restart: String,
    /// Modifiers that, with a digit key, show a workspace.
    pub workspace_switch: String,
    /// Modifiers that, with a digit key, send the focused window to a workspace.
    pub workspace_move: String,
}

/// A user-defined key binding.
#[derive(Debug, Clone)]
pub struct CustomKey {
    /// The keys, like `super+e`.
    pub binding: String,
    /// The action's name.
    pub action: String,
    /// The action's argument.
    pub arg: Option<String>,
}

impl Default for BarPosition {
    fn default() -> (r: Self)
        ensures
            r == BarPosition::Top,
    {
        BarPosition::Top
    }
}

impl Default for TimeFormat {
    fn default() -> (r: Self)
        ensures
            r == TimeFormat::H24,
    {
        TimeFormat::H24
    }
}

impl Default for KeybindsConfig {
    fn default() -> (r: Self)
        ensures
            r.close_window@ == "super+q"@,
            r.quit@ == "super+shift+q"@,
            r.swap_master@ == "super+w"@,
            r.focus_next@ == "super+j"@,
            r.focus_prev@ == "super+k"@,
            r.terminal@ == "super+return"@,
            r.restart@ == "super+shift+r"@,
            r.workspace_switch@ == "super"@,
            r.workspace_move@ == "super+shift"@,
    {
        KeybindsConfig {
            close_window: String::from_str("super+q"),
            quit: String::from_str("super+shift+q"),
            swap_master: String::from_str("super+w"),
            focus_next: String::from_str("super+j"),
            focus_prev: String::from_str("super+k"),
            terminal: String::from_str("super+return"),
            restart: String::from_str("super+shift+r"),
            workspace_switch: String::from_str("super"),
            workspace_move: String::from_str("super+shift"),
        }
    }
}

impl Default for BarConfig {
    fn default() -> (r: Self)
        ensures
            r.enabled,
            r.height == 24,
            r.position == BarPosition::Top,
            r.bg_color == 0x1a1a2e,
            r.fg_color == 0xffffff,
            r.workspace_active_color == 0x8888ff,
            r.workspace_inactive_color == 0x2a2a3e,
            r.workspace_fg_color == 0xffffff,
            r.show_time,
            r.time_format == TimeFormat::H24,
            r.font@ == "-misc-fixed-medium-r-normal--13-*"@,
    {
        BarConfig {
            enabled: true,
            height: 24,
            position: BarPosition::Top,
            bg_color: 0x1a1a2e,
            fg_color: 0xffffff,
            workspace_active_color: 0x8888ff,
            workspace_inactive_color: 0x2a2a3e,
            workspace_fg_color: 0xffffff,
            show_time: true,
            time_format: TimeFormat::H24,
            font: String::from_str("-misc-fixed-medium-r-normal--13-*"),
        }
    }
}

/// The bit pattern of the `f32` value 0.5.
pub const HALF_RATIO_BITS: u32 = 0x3f00_0000;

impl Default for Config {
    fn default() -> (r: Self)
        ensures
            r.gap == 8,
            r.border_width == 2,
            r.border_color == 0x444444,
            r.border_focus_color == 0x8888ff,
            r.master_ratio_bits == HALF_RATIO_BITS,
            r.terminal@ == "kitty"@,
            r.keybinds.close_window@ == "super+q"@,
            r.keybinds.quit@ == "super+shift+q"@,
            r.keybinds.swap_master@ == "super+w"@,
            r.keybinds.focus_next@ == "super+j"@,
            r.keybinds.focus_prev@ == "super+k"@,
            r.keybinds.terminal@ == "super+return"@,
            r.keybinds.restart@ == "super+shift+r"@,
            r.keybinds.workspace_switch@ == "super"@,
            r.keybinds.workspace_move@ == "super+shift"@,
            r.bar.enabled,
            r.bar.height == 24,
            r.bar.position == BarPosition::Top,
            r.bar.bg_color == 0x1a1a2e,
            r.bar.fg_color == 0xffffff,
            r.bar.workspace_active_color == 0x8888ff,
            r.bar.workspace_inactive_color == 0x2a2a3e,
            r.bar.workspace_fg_color == 0xffffff,
            r.bar.show_time,
            r.bar.time_format == TimeFormat::H24,
            r.bar.font@ == "-misc-fixed-medium-r-normal--13-*"@,
            r.autostart@.len() == 0,
            r.custom_keys@.len() == 0,
    {
        Config {
            gap: 8,
            border_width: 2,
            border_color: 0x444444,
            border_focus_color: 0x8888ff,
            master_ratio_bits: HALF_RATIO_BITS,
            terminal: String::from_str("kitty"),
            keybinds: KeybindsConfig::default(),
            bar: BarConfig::default(),
            autostart: Vec::new(),
            custom_keys: Vec::new(),
        }
    }
}

/// `s` without any number of leading `0x`.
pub open spec fn strip_0x(s: Seq<char>) -> Seq<char>
    decreases s.len(),
{
    if s.len() >= 2 && s[0] == '0' && s[1] == 'x' {
        strip_0x(s.skip(2))
    } else {
        s
    }
}

/// `s` without any number of leading `#`.
pub open spec fn strip_hash(s: Seq<char>) -> Seq<char>
    decreases s.len(),
{
    if s.len() >= 1 && s[0] == '#' {
        strip_hash(s.skip(1))
    } else {
        s
    }
}

/// The colour that a setting's text names: the text without leading `0x`s,
/// then without leading `#`s, read as a hexadecimal `u32`.
pub open spec fn color_value(s: Seq<char>) -> Result<nat, IntError> {
    parse_unsigned(strip_hash(strip_0x(s)), 16, u32::MAX as nat)
}

/// Reads a colour setting such as `0x8888ff` or `#1a1a2e`.
pub fn parse_color(s: &str) -> (r: Result<u32, IntError>)
    ensures
        match color_value(s@) {
            Ok(n) => r == Ok::<u32, IntError>(n as u32),
            Err(e) => r == Err::<u32, IntError>(e),
        },
{
    let v = chars_of(s);
    let len = v.len();
    let mut i: usize = 0;
    proof {
        assert(v@.subrange(0, len as int) =~= v@);
    }
    while len - i >= 2 && v[i] == '0' && v[i + 1] == 'x'
        invariant
            i <= len,
            len == v.len(),
            strip_0x(v@) == strip_0x(v@.subrange(i as int, len as int)),
        decreases len - i,
    {
        proof {
            assert(v@.subrange(i as int, len as int).skip(2) =~= v@.subrange(i + 2, len as int));
        }
        i = i + 2;
    }
    proof {
        let t = v@.subrange(i as int, len as int);
        if t.len() >= 2 {
            assert(t[0] == v@[i as int] && t[1] == v@[i + 1]);
        }
        assert(strip_0x(t) == t);
    }
    let ghost after = v@.subrange(i as int, len as int);
    while i < len && v[i] == '#'
        invariant
            i <= len,
            len == v.len(),
            strip_hash(after) == strip_hash(v@.subrange(i as int, len as int)),
        decreases len - i,
    {
        proof {
            assert(v@.subrange(i as int, len as int).skip(1) =~= v@.subrange(i + 1, len as int));
        }
        i = i + 1;
    }
    proof {
        let t = v@.subrange(i as int, len as int);
        if t.len() >= 1 {
            assert(t[0] == v@[i as int]);
        }
        assert(strip_hash(t) == t);
    }
    let digits = s.substring_char(i, len);
    proof {
        crate::text::lemma_parse_bounded(digits@, 16, u32::MAX as nat);
    }
    match parse_unsigned_text(digits, 16, u32::MAX as u64) {
        Ok(n) => Ok(n as u32),
        Err(e) => Err(e),
    }
}

} // verus!
