use orbitwm::config::{Config, CustomKey};
use orbitwm::wm::keys::{
    close_method, decide_custom, decide_key, handle_custom, handle_key, key_name_to_keycode, keycode_to_workspace,
    matches_key, parse_binding, parse_modmask, tokens_binding, tokens_modmask, CloseMethod,
    KeyAction, MOD_KEY,
};
use orbitwm::wm::state::WMState;
use orbitwm::x11::grab_keys::grab_keys;

#[test]
fn parse_binding_reads_modifiers_and_key() {
    assert_eq!(parse_binding("super+q"), (0x40, 0x18));
    assert_eq!(parse_binding("super+shift+q"), (0x41, 0x18));
    assert_eq!(parse_binding(" Super + Shift + R "), (0x41, 0x1b));
    assert_eq!(parse_binding("ctrl+alt+return"), (0x0c, 0x24));
    assert_eq!(parse_binding("control+mod1+enter"), (0x0c, 0x24));
    assert_eq!(parse_binding("mod4+space"), (MOD_KEY, 0x41));
    assert_eq!(parse_binding("super"), (0x40, 0));
    assert_eq!(parse_binding("super+x"), (0x40, 0));
    assert_eq!(parse_binding(""), (0, 0));
}

#[test]
fn parse_binding_takes_last_key() {
    assert_eq!(parse_binding("j+k"), (0, 0x2e));
    assert_eq!(parse_binding("super+q+"), (0x40, 0));
}

#[test]
fn parse_modmask_matches_binding_mask() {
    for b in ["super", "super+shift", "alt+ctrl+q", "shift+j", "x"] {
        assert_eq!(parse_modmask(b), parse_binding(b).0);
    }
}

#[test]
fn key_names() {
    assert_eq!(key_name_to_keycode("w"), 0x1a);
    assert_eq!(key_name_to_keycode("e"), 0x1c);
    assert_eq!(key_name_to_keycode("l"), 0x2f);
    assert_eq!(key_name_to_keycode("Q"), 0);
}

#[test]
fn matches_key_compares_both() {
    assert!(matches_key(0x40, 0x18, "super+q"));
    assert!(!matches_key(0x41, 0x18, "super+q"));
    assert!(!matches_key(0x40, 0x19, "super+q"));
}

#[test]
fn workspace_keys() {
    for i in 0..9u8 {
        assert_eq!(keycode_to_workspace(0x0a + i), Some(i as usize));
    }
    assert_eq!(keycode_to_workspace(0x09), None);
    assert_eq!(keycode_to_workspace(0x13), None);
}

#[test]
fn handle_key_workspaces() {
    let c = Config::default();
    let wm = WMState::new();
    assert_eq!(decide_key(&wm, 0x40, 0x0a, &c), KeyAction::SwitchWorkspace(0));
    assert_eq!(decide_key(&wm, 0x41, 0x0b, &c), KeyAction::MoveToWorkspace(1));
    // high bits of the state are ignored
    assert_eq!(decide_key(&wm, 0x2040, 0x12, &c), KeyAction::SwitchWorkspace(8));
}

#[test]
fn handle_key_builtins() {
    let c = Config::default();
    let mut wm = WMState::new();
    assert_eq!(decide_key(&wm, 0x40, 0x18, &c), KeyAction::Nothing);
    wm.add(5);
    assert_eq!(decide_key(&wm, 0x40, 0x18, &c), KeyAction::Close(5));
    assert_eq!(decide_key(&wm, 0x41, 0x18, &c), KeyAction::Quit);
    assert_eq!(decide_key(&wm, 0x41, 0x1b, &c), KeyAction::Restart);
    assert_eq!(decide_key(&wm, 0x40, 0x1a, &c), KeyAction::SwapMaster);
    assert_eq!(decide_key(&wm, 0x40, 0x2c, &c), KeyAction::FocusNext);
    assert_eq!(decide_key(&wm, 0x40, 0x2e, &c), KeyAction::FocusPrev);
    assert_eq!(decide_key(&wm, 0x40, 0x24, &c), KeyAction::Spawn("kitty".to_string()));
    assert_eq!(decide_key(&wm, 0x00, 0x24, &c), KeyAction::Nothing);
}

fn custom(binding: &str, action: &str, arg: Option<&str>) -> CustomKey {
    CustomKey {
        binding: binding.to_string(),
        action: action.to_string(),
        arg: arg.map(|a| a.to_string()),
    }
}

#[test]
fn handle_key_custom_actions() {
    let mut c = Config::default();
    c.custom_keys = vec![
        custom("super+e", "exec", Some("thunar --daemon")),
        custom("alt+e", "workspace", Some("3")),
        custom("alt+w", "move_to_workspace", Some("+2")),
        custom("alt+q", "workspace", Some("0")),
        custom("alt+r", "frobnicate", None),
        custom("alt+j", "master_ratio_inc", None),
        custom("alt+k", "exec", None),
        custom("alt+l", "close", None),
        custom("alt+space", "swap_master", None),
    ];
    let wm = WMState::new();
    assert_eq!(decide_key(&wm, 0x40, 0x1c, &c), KeyAction::Spawn("thunar --daemon".to_string()));
    assert_eq!(decide_key(&wm, 0x08, 0x1c, &c), KeyAction::SwitchWorkspace(2));
    assert_eq!(decide_key(&wm, 0x08, 0x1a, &c), KeyAction::MoveToWorkspace(1));
    assert_eq!(decide_key(&wm, 0x08, 0x18, &c), KeyAction::Nothing);
    assert_eq!(decide_key(&wm, 0x08, 0x1b, &c), KeyAction::UnknownAction("frobnicate".to_string()));
    assert_eq!(decide_key(&wm, 0x08, 0x2c, &c), KeyAction::RatioUnsupported);
    assert_eq!(decide_key(&wm, 0x08, 0x2e, &c), KeyAction::Spawn(String::new()));
    assert_eq!(decide_key(&wm, 0x08, 0x2f, &c), KeyAction::Nothing);
    assert_eq!(decide_custom(&wm, 0x08, 0x41, &c), KeyAction::SwapMaster);
    assert_eq!(decide_custom(&wm, 0x08, 0x42, &c), KeyAction::Nothing);
}

#[test]
fn first_matching_custom_key_wins() {
    let mut c = Config::default();
    c.custom_keys = vec![custom("alt+q", "quit", None), custom("alt+q", "restart", None)];
    let wm = WMState::new();
    assert_eq!(decide_key(&wm, 0x08, 0x18, &c), KeyAction::Quit);
}

#[test]
fn close_methods() {
    assert_eq!(close_method(&[1, 2, 3], 2), CloseMethod::Delete);
    assert_eq!(close_method(&[1, 3], 2), CloseMethod::Kill);
    assert_eq!(close_method(&[], 2), CloseMethod::Kill);
}

#[test]
fn grabs_for_default_config() {
    let c = Config::default();
    let g = grab_keys(&c);
    assert_eq!(g.len(), 18 + 7);
    assert_eq!(g[0], (0x40, 0x0a));
    assert_eq!(g[1], (0x41, 0x0a));
    assert_eq!(g[17], (0x41, 0x12));
    assert_eq!(
        &g[18..],
        &[(0x40, 0x18), (0x41, 0x18), (0x41, 0x1b), (0x40, 0x1a), (0x40, 0x2c), (0x40, 0x2e), (0x40, 0x24)]
    );
}

#[test]
fn grabs_include_custom_keys() {
    let mut c = Config::default();
    c.custom_keys = vec![custom("alt+e", "exec", Some("x")), custom("alt+z", "exec", Some("y"))];
    let g = grab_keys(&c);
    assert_eq!(g.len(), 18 + 7 + 1);
    assert_eq!(g[25], (0x08, 0x1c));
}

#[test]
fn acted_keys_are_grabbed() {
    let mut c = Config::default();
    c.custom_keys = vec![custom("alt+e", "exec", Some("x")), custom("ctrl+l", "quit", None)];
    let mut wm = WMState::new();
    wm.add(3);
    let grabs = grab_keys(&c);
    for state in [0u16, 0x01, 0x04, 0x08, 0x40, 0x41, 0x48] {
        for keycode in 1u8..=255 {
            if decide_key(&wm, state, keycode, &c) != KeyAction::Nothing {
                assert!(grabs.contains(&(state & 0xff, keycode)), "{state:#x} {keycode:#x}");
            }
        }
    }
}

#[test]
fn tokens_fold() {
    let t = |v: &[&str]| v.iter().map(|s| s.to_string()).collect::<Vec<String>>();
    assert_eq!(tokens_binding(&t(&["super", "q"])), (0x40, 0x18));
    assert_eq!(tokens_binding(&t(&["super", "shift", "q"])), (0x41, 0x18));
    assert_eq!(tokens_binding(&t(&["Super", "q"])), (0, 0x18));
    assert_eq!(tokens_binding(&t(&["q", "ctrl"])), (0x04, 0x18));
    assert_eq!(tokens_binding(&t(&[])), (0, 0));
    assert_eq!(tokens_modmask(&t(&["alt", "mod1", "j"])), 0x08);
}

#[test]
fn handle_key_swaps_master() {
    let c = Config::default();
    let mut wm = WMState::new();
    for w in [1, 2, 3] {
        wm.add(w);
    }
    assert_eq!(handle_key(&mut wm, 0x40, 0x1a, &c), KeyAction::SwapMaster);
    assert_eq!(wm.windows(), &[2, 1, 3]);
}

#[test]
fn handle_key_moves_focused_window() {
    let c = Config::default();
    let mut wm = WMState::new();
    wm.add(1);
    wm.add(2);
    wm.focus(2);
    assert_eq!(handle_key(&mut wm, 0x41, 0x0c, &c), KeyAction::MoveToWorkspace(2));
    assert_eq!(wm.workspace(0), &[1]);
    assert_eq!(wm.workspace(2), &[2]);
    assert_eq!(wm.current(), 0);
    assert_eq!(wm.focused(), Some(1));
}

#[test]
fn handle_key_switches_and_focuses() {
    let c = Config::default();
    let mut wm = WMState::new();
    wm.add(1);
    assert_eq!(handle_key(&mut wm, 0x40, 0x0b, &c), KeyAction::SwitchWorkspace(1));
    assert_eq!(wm.current(), 1);
    assert_eq!(wm.focused(), None);
    assert_eq!(handle_key(&mut wm, 0x40, 0x2c, &c), KeyAction::FocusNext);
    assert_eq!(handle_key(&mut wm, 0x41, 0x18, &c), KeyAction::Quit);
    assert_eq!(wm.current(), 1);
}

#[test]
fn handle_custom_switches_workspace() {
    let mut c = Config::default();
    c.custom_keys = vec![custom("super+e", "workspace", Some("3"))];
    let mut wm = WMState::new();
    assert_eq!(handle_custom(&mut wm, 0x40, 0x1c, &c), KeyAction::SwitchWorkspace(2));
    assert_eq!(wm.current(), 2);
    assert_eq!(wm.focused(), None);
}
