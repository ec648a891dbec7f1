use orbitwm::wm::state::{WMState, WorkspaceSwitch, WORKSPACE_COUNT};

fn switch(s: &mut WMState, idx: usize) -> Option<WorkspaceSwitch> {
    let plan = s.plan_switch(idx)?;
    assert!(s.switch_workspace(idx));
    Some(plan)
}

fn state_with(wins: &[u32]) -> WMState {
    let mut s = WMState::new();
    for &w in wins {
        s.add(w);
    }
    s
}

#[test]
fn default_is_new() {
    let s = WMState::default();
    assert_eq!(s.current(), 0);
    assert!(s.windows().is_empty());
}

#[test]
fn new_state_is_empty() {
    let s = WMState::new();
    assert_eq!(s.current(), 0);
    assert_eq!(s.focused(), None);
    assert!(s.docks().is_empty());
    for i in 0..WORKSPACE_COUNT {
        assert!(s.workspace(i).is_empty());
    }
    assert!(s.windows().is_empty());
}

#[test]
fn add_appends_once() {
    let mut s = state_with(&[10, 20]);
    assert_eq!(s.windows(), &[10, 20]);
    s.add(10);
    assert_eq!(s.windows(), &[10, 20]);
    assert!(s.contains(10) && s.contains(20) && !s.contains(30));
}

#[test]
fn add_skips_docks() {
    let mut s = WMState::new();
    s.add_dock(7);
    s.add_dock(7);
    assert_eq!(s.docks(), &[7]);
    s.add(7);
    assert!(!s.contains(7));
    assert!(s.is_dock(7));
}

#[test]
fn add_skips_window_tiled_elsewhere() {
    let mut s = state_with(&[1]);
    switch(&mut s, 3);
    s.add(1);
    assert!(s.windows().is_empty());
    assert_eq!(s.workspace(0), &[1]);
}

#[test]
fn remove_forgets_window_and_moves_focus() {
    let mut s = state_with(&[1, 2, 3]);
    s.add_floating(2);
    s.focus_next();
    s.focus_next();
    assert_eq!(s.focused(), Some(3));
    s.remove(3);
    assert!(!s.contains(3));
    assert_eq!(s.focused(), Some(1));
    s.remove(2);
    assert!(!s.is_floating(2));
    assert_eq!(s.windows(), &[1]);
    assert_eq!(s.focused(), Some(1));
}

#[test]
fn remove_undoes_add() {
    let mut s = state_with(&[4, 5]);
    s.add(6);
    s.remove(6);
    assert_eq!(s.windows(), &[4, 5]);
    assert_eq!(s.focused(), None);
}

#[test]
fn remove_keeps_other_focus() {
    let mut s = state_with(&[1, 2]);
    s.focus_next();
    assert_eq!(s.focused(), Some(2));
    s.remove(1);
    assert_eq!(s.focused(), Some(2));
}

#[test]
fn switch_workspace_plans_unmap_and_map() {
    let mut s = state_with(&[1, 2]);
    s.add_dock(9);
    let plan = s.plan_switch(2).expect("switch applies");
    assert_eq!(plan, WorkspaceSwitch { unmap: vec![1, 2], map: vec![], workspace: 2, desktop: 2 });
    // planning changes nothing
    assert_eq!(s.current(), 0);
    assert!(s.show_workspace(2));
    assert_eq!(s.current(), 2);
    assert_eq!(s.focus_first(), None);
    assert_eq!(s.focused(), None);
    s.add(5);
    let back = s.plan_switch(0).expect("switch applies");
    assert_eq!(back, WorkspaceSwitch { unmap: vec![5], map: vec![1, 2], workspace: 0, desktop: 0 });
    assert!(s.show_workspace(0));
    // focus moves only in the last step
    assert_eq!(s.focused(), None);
    assert_eq!(s.focus_first(), Some(1));
    assert_eq!(s.focused(), Some(1));
    assert_eq!(s.workspace(2), &[5]);
}

#[test]
fn switch_workspace_out_of_range_or_same_does_nothing() {
    let mut s = state_with(&[1]);
    assert!(s.plan_switch(0).is_none());
    assert!(s.plan_switch(9).is_none());
    assert!(s.plan_switch(usize::MAX).is_none());
    assert!(!s.switch_workspace(0));
    assert!(!s.switch_workspace(9));
    assert!(!s.show_workspace(0));
    assert_eq!(s.current(), 0);
}

#[test]
fn move_to_workspace_moves_focused() {
    let mut s = state_with(&[1, 2, 3]);
    s.focus_next();
    assert_eq!(s.move_window_to(4), Some(2));
    assert_eq!(s.windows(), &[1, 3]);
    assert_eq!(s.workspace(4), &[2]);
    // focus moves only once the window is hidden
    assert_eq!(s.focused(), Some(2));
    assert_eq!(s.focus_first(), Some(1));
    assert!(s.contains(2));
}

#[test]
fn move_to_workspace_without_windows_or_same() {
    let mut s = WMState::new();
    assert_eq!(s.move_to_workspace(1), None);
    let mut t = state_with(&[8]);
    assert_eq!(t.move_to_workspace(0), None);
    assert_eq!(t.move_to_workspace(9), None);
    assert_eq!(t.windows(), &[8]);
}

#[test]
fn focus_moves_cyclically() {
    let mut s = state_with(&[1, 2, 3]);
    assert_eq!(s.focus_next(), Some(2));
    assert_eq!(s.focus_next(), Some(3));
    assert_eq!(s.focus_next(), Some(1));
    assert_eq!(s.focus_prev(), Some(3));
    assert_eq!(s.focused(), Some(3));
}

#[test]
fn focus_next_then_prev_returns() {
    let mut s = state_with(&[1, 2, 3]);
    s.focus_next();
    let before = s.focused();
    s.focus_next();
    s.focus_prev();
    assert_eq!(s.focused(), before);
    let mut e = WMState::new();
    assert_eq!(e.focus_next(), None);
    assert_eq!(e.focus_prev(), None);
}

#[test]
fn focused_or_first_falls_back() {
    let mut s = state_with(&[1, 2]);
    assert_eq!(s.focused_or_first(), Some(&1));
    s.add_floating(99);
    s.focus(99);
    assert_eq!(s.focused_or_first(), Some(&1));
    s.focus(2);
    assert_eq!(s.focused_or_first(), Some(&2));
}

#[test]
fn swap_master_twice_restores() {
    let mut s = state_with(&[1, 2, 3]);
    assert!(s.swap_master());
    assert_eq!(s.windows(), &[2, 1, 3]);
    assert!(s.swap_master());
    assert_eq!(s.windows(), &[1, 2, 3]);
    let mut one = state_with(&[1]);
    assert!(!one.swap_master());
}

#[test]
fn windows_mut_edits_shown_workspace() {
    let mut s = state_with(&[1, 2]);
    s.windows_mut().reverse();
    assert_eq!(s.windows(), &[2, 1]);
}

#[test]
fn remove_dock_forgets_dock() {
    let mut s = WMState::new();
    s.add_dock(3);
    s.add_dock(4);
    s.remove_dock(3);
    assert_eq!(s.docks(), &[4]);
}

#[test]
fn docks_never_tiled_by_operations() {
    let mut s = WMState::new();
    s.add_dock(7);
    s.add(7);
    s.add(8);
    s.move_to_workspace(1);
    s.swap_master();
    assert!(!s.contains(7));
    assert!(s.is_dock(7));
}

#[test]
fn switch_workspace_focuses_first_window() {
    let mut s = state_with(&[1, 2]);
    s.focus(2);
    assert!(s.switch_workspace(4));
    s.add(7);
    s.add(8);
    s.focus(8);
    assert!(s.switch_workspace(0));
    assert_eq!(s.current(), 0);
    assert_eq!(s.focused(), Some(1));
}

#[test]
fn move_to_workspace_refocuses() {
    let mut s = state_with(&[1]);
    assert_eq!(s.move_to_workspace(5), Some(1));
    assert_eq!(s.focused(), None);
    assert_eq!(s.workspace(5), &[1]);
    let mut t = state_with(&[1, 2, 3]);
    t.focus(2);
    assert_eq!(t.move_to_workspace(1), Some(2));
    assert_eq!(t.focused(), Some(1));
}
