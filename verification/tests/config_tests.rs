use orbitwm::config::{parse_color, BarConfig, BarPosition, Config, KeybindsConfig, TimeFormat};
use orbitwm::text::IntError;

#[test]
fn config_defaults() {
    let c = Config::default();
    assert_eq!(c.gap, 8);
    assert_eq!(c.border_width, 2);
    assert_eq!(c.border_color, 0x444444);
    assert_eq!(c.border_focus_color, 0x8888ff);
    assert_eq!(f32::from_bits(c.master_ratio_bits), 0.5);
    assert_eq!(c.terminal, "kitty");
    assert!(c.autostart.is_empty());
    assert!(c.custom_keys.is_empty());
    assert_eq!(c.keybinds.close_window, "super+q");
    assert_eq!(c.bar.height, 24);
}

#[test]
fn keybind_defaults() {
    let k = KeybindsConfig::default();
    assert_eq!(k.quit, "super+shift+q");
    assert_eq!(k.swap_master, "super+w");
    assert_eq!(k.focus_next, "super+j");
    assert_eq!(k.focus_prev, "super+k");
    assert_eq!(k.terminal, "super+return");
    assert_eq!(k.restart, "super+shift+r");
    assert_eq!(k.workspace_switch, "super");
    assert_eq!(k.workspace_move, "super+shift");
}

#[test]
fn bar_defaults() {
    let b = BarConfig::default();
    assert!(b.enabled);
    assert_eq!(b.position, BarPosition::Top);
    assert_eq!(b.bg_color, 0x1a1a2e);
    assert_eq!(b.fg_color, 0xffffff);
    assert_eq!(b.workspace_active_color, 0x8888ff);
    assert_eq!(b.workspace_inactive_color, 0x2a2a3e);
    assert_eq!(b.workspace_fg_color, 0xffffff);
    assert!(b.show_time);
    assert_eq!(b.time_format, TimeFormat::H24);
    assert_eq!(b.font, "-misc-fixed-medium-r-normal--13-*");
    assert_eq!(BarPosition::default(), BarPosition::Top);
    assert_eq!(TimeFormat::default(), TimeFormat::H24);
}

#[test]
fn colors_parse() {
    assert_eq!(parse_color("0x8888ff"), Ok(0x8888ff));
    assert_eq!(parse_color("#1A1a2E"), Ok(0x1a1a2e));
    assert_eq!(parse_color("ffffffff"), Ok(0xffffffff));
    assert_eq!(parse_color("0x0x12"), Ok(0x12));
    assert_eq!(parse_color("0x##7"), Ok(7));
    assert_eq!(parse_color("+ff"), Ok(0xff));
}

#[test]
fn color_errors() {
    assert_eq!(parse_color(""), Err(IntError::Empty));
    assert_eq!(parse_color("0x"), Err(IntError::Empty));
    assert_eq!(parse_color("#"), Err(IntError::Empty));
    assert_eq!(parse_color("+"), Err(IntError::InvalidDigit));
    assert_eq!(parse_color("#0x12"), Err(IntError::InvalidDigit));
    assert_eq!(parse_color("12g4"), Err(IntError::InvalidDigit));
    assert_eq!(parse_color("-1"), Err(IntError::InvalidDigit));
    assert_eq!(parse_color("100000000"), Err(IntError::PosOverflow));
    assert_eq!(parse_color("1000000000z"), Err(IntError::PosOverflow));
}

#[test]
fn color_agrees_with_std() {
    for s in ["ff", "0", "00000000ff", "+1", "fffffffff", "1g", "", "+", "-", "-1", "ABC"] {
        let expect = u32::from_str_radix(s, 16).ok();
        assert_eq!(parse_color(s).ok(), expect, "{s}");
    }
}
