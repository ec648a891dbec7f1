use orbitwm::wm::state::WMState;
use orbitwm::x11::atoms::Atoms;
use orbitwm::x11::event::{
    client_message, configure_request, destroy_notify, enter_notify, map_notify, map_request,
    unmap_notify, lowered_class_floats, lowered_class_is_bar, ConfigureMode, MapDecision,
};

fn atoms() -> Atoms {
    Atoms {
        net_number_of_desktops: 100,
        net_current_desktop: 101,
        net_wm_window_type: 102,
        net_wm_window_type_dock: 103,
        net_wm_window_type_desktop: 104,
        net_wm_state: 105,
        net_wm_state_above: 106,
        net_wm_state_sticky: 107,
    }
}

#[test]
fn map_request_classifies() {
    let a = atoms();
    let mut s = WMState::new();
    assert_eq!(map_request(&mut s, 1, "kitty\0kitty\0", &[], &a), MapDecision::Tiled);
    assert_eq!(map_request(&mut s, 2, "Zenity\0Dialog\0", &[], &a), MapDecision::Floating);
    assert_eq!(map_request(&mut s, 3, "xfce4-popup", &[], &a), MapDecision::Floating);
    assert_eq!(map_request(&mut s, 4, "UTILITY", &[], &a), MapDecision::Floating);
    assert_eq!(map_request(&mut s, 5, "Polybar", &[], &a), MapDecision::NewDock);
    assert_eq!(map_request(&mut s, 6, "tint2", &[102, 103], &a), MapDecision::NewDock);
    assert_eq!(map_request(&mut s, 6, "anything", &[], &a), MapDecision::KnownDock);
    assert_eq!(s.windows(), &[1]);
    assert!(s.is_floating(2) && s.is_floating(3) && s.is_floating(4));
    assert_eq!(s.docks(), &[5, 6]);
}

#[test]
fn configure_modes() {
    let a = atoms();
    let mut s = WMState::new();
    map_request(&mut s, 1, "term", &[], &a);
    map_request(&mut s, 2, "dialog", &[], &a);
    map_request(&mut s, 3, "polybar", &[], &a);
    assert_eq!(configure_request(&s, 1), ConfigureMode::Tiled);
    assert_eq!(configure_request(&s, 2), ConfigureMode::Floating);
    assert_eq!(configure_request(&s, 3), ConfigureMode::Dock);
    assert_eq!(configure_request(&s, 4), ConfigureMode::Other);
}

#[test]
fn enter_focuses_tracked_windows_only() {
    let a = atoms();
    let mut s = WMState::new();
    map_request(&mut s, 1, "term", &[], &a);
    map_request(&mut s, 2, "dialog", &[], &a);
    map_request(&mut s, 3, "polybar", &[], &a);
    assert!(enter_notify(&mut s, 1));
    assert_eq!(s.focused(), Some(1));
    assert!(enter_notify(&mut s, 2));
    assert_eq!(s.focused(), Some(2));
    assert!(!enter_notify(&mut s, 3));
    assert!(!enter_notify(&mut s, 4));
    assert_eq!(s.focused(), Some(2));
}

#[test]
fn map_and_unmap_notify() {
    let a = atoms();
    let mut s = WMState::new();
    map_request(&mut s, 1, "term", &[], &a);
    map_request(&mut s, 2, "dialog", &[], &a);
    assert!(map_notify(&s, 1));
    assert!(!map_notify(&s, 0));
    assert!(!map_notify(&s, 2));
    assert!(!unmap_notify(&mut s, 2));
    assert!(!s.is_floating(2));
    assert!(unmap_notify(&mut s, 1));
    assert!(!s.contains(1));
    assert!(!unmap_notify(&mut s, 1));
}

#[test]
fn destroy_notify_forgets() {
    let a = atoms();
    let mut s = WMState::new();
    map_request(&mut s, 1, "term", &[], &a);
    map_request(&mut s, 2, "term", &[], &a);
    map_request(&mut s, 3, "polybar", &[], &a);
    assert!(s.switch_workspace(1));
    map_request(&mut s, 4, "term", &[], &a);
    assert!(!destroy_notify(&mut s, 3));
    assert!(s.docks().is_empty());
    assert!(!destroy_notify(&mut s, 1));
    assert!(!s.contains(1));
    assert!(destroy_notify(&mut s, 4));
    assert!(!destroy_notify(&mut s, 42));
}

#[test]
fn client_message_plans_switch() {
    let a = atoms();
    let mut s = WMState::new();
    map_request(&mut s, 1, "term", &[], &a);
    assert!(client_message(&s, 999, 3, &a).is_none());
    let p = client_message(&s, 101, 3, &a).unwrap();
    assert_eq!(p.unmap, vec![1]);
    assert!(p.map.is_empty());
    assert_eq!(p.workspace, 3);
    assert_eq!(p.desktop, 3);
    // nothing changes until the caller commits the switch
    assert_eq!(s.current(), 0);
    assert!(client_message(&s, 101, 30, &a).is_none());
    assert!(client_message(&s, 101, 0, &a).is_none());
}

#[test]
fn lowered_classes() {
    assert!(lowered_class_floats("zenity\0dialog"));
    assert!(lowered_class_floats("xfce4-popup"));
    assert!(lowered_class_floats("utility"));
    assert!(!lowered_class_floats("Dialog"));
    assert!(lowered_class_is_bar("polybar"));
    assert!(!lowered_class_is_bar("Polybar"));
}
