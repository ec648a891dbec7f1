use orbitwm::wm::autostart::{is_nested_display, plan_autostart, AutostartStep};
use orbitwm::wm::bar::{bar_positions, button_height, text_baseline, Align};
use orbitwm::wm::widgets::clock::ClockWidget;
use orbitwm::wm::widgets::workspaces::{WorkspaceButton, WorkspacesWidget, ACTIVE_COLOR, INACTIVE_COLOR};

#[test]
fn clock_formats_time_of_day() {
    let mut c = ClockWidget::new();
    assert_eq!(c.text(), "");
    c.update_time(0);
    assert_eq!(c.text(), "00:00:00");
    c.update_time(3600 * 13 + 60 * 5 + 9);
    assert_eq!(c.text(), "13:05:09");
    c.update_time(3600 * 13 + 60 * 5 + 9 + 86400);
    assert_eq!(c.text(), "13:05:09");
    c.update_time(u64::MAX);
    let s = u64::MAX;
    assert_eq!(c.text(), format!("{:02}:{:02}:{:02}", (s / 3600) % 24, (s / 60) % 60, s % 60));
    assert_eq!(c.width(), 100);
    assert_eq!(c.align(), Align::Right);
}

#[test]
fn workspace_buttons() {
    let w = WorkspacesWidget::new(3);
    assert_eq!(w.active, 1);
    assert_eq!(w.width(), 84);
    let b = w.buttons(10).unwrap();
    assert_eq!(
        b,
        vec![
            WorkspaceButton { x: 10, text_x: 18, label: 1, color: ACTIVE_COLOR },
            WorkspaceButton { x: 38, text_x: 46, label: 2, color: INACTIVE_COLOR },
            WorkspaceButton { x: 66, text_x: 74, label: 3, color: INACTIVE_COLOR },
        ]
    );
    assert!(w.buttons(i16::MAX - 50).is_none());
    assert_eq!(WorkspacesWidget::new(0).buttons(i16::MAX), Some(vec![]));
}

#[test]
fn bar_widget_positions() {
    let (l, r) = bar_positions(1000, &[140], &[100]).unwrap();
    assert_eq!(l, vec![10]);
    assert_eq!(r, vec![890]);
    let (l, r) = bar_positions(1000, &[140, 20], &[100, 50]).unwrap();
    assert_eq!(l, vec![10, 160]);
    assert_eq!(r, vec![830, 940]);
    assert!(bar_positions(1000, &[i16::MAX], &[]).is_none());
    assert!(bar_positions(i16::MIN, &[], &[]).is_none());
    assert!(bar_positions(-32700, &[], &[100]).is_none());
}

#[test]
fn nested_displays() {
    assert!(!is_nested_display(None));
    assert!(!is_nested_display(Some(":0")));
    assert!(!is_nested_display(Some(":0.1")));
    assert!(is_nested_display(Some(":1")));
    assert!(is_nested_display(Some(":2.0")));
    assert!(!is_nested_display(Some("host:1")));
    assert!(!is_nested_display(Some(":x")));
    assert!(!is_nested_display(Some(":")));
}

#[test]
fn autostart_steps() {
    let cmds = vec![
        "picom --daemon".to_string(),
        "   ".to_string(),
        "nm-applet".to_string(),
        "feh --bg-fill  a.png".to_string(),
    ];
    let nested = plan_autostart(&cmds, true);
    assert_eq!(nested.len(), 3);
    assert_eq!(nested[0], AutostartStep::SkipNested { command: "picom --daemon".to_string() });
    assert_eq!(
        nested[2],
        AutostartStep::Launch {
            command: "feh --bg-fill  a.png".to_string(),
            program: "feh".to_string(),
            args: vec!["--bg-fill".to_string(), "a.png".to_string()],
        }
    );
    let plain = plan_autostart(&cmds, false);
    assert_eq!(
        plain[0],
        AutostartStep::Launch {
            command: "picom --daemon".to_string(),
            program: "picom".to_string(),
            args: vec!["--daemon".to_string()],
        }
    );
    assert_eq!(
        plain[1],
        AutostartStep::Launch { command: "nm-applet".to_string(), program: "nm-applet".to_string(), args: vec![] }
    );
}

#[test]
fn bar_text_and_button_geometry() {
    for h in [0u32, 1, 5, 6, 24, 25, 40000, 65535, 65536, 70000, u32::MAX] {
        assert_eq!(text_baseline(h), (h as i16 / 2) + 4, "{h}");
    }
    assert_eq!(button_height(24), Some(18));
    assert_eq!(button_height(6), Some(0));
    assert_eq!(button_height(5), None);
    assert_eq!(button_height(65542), Some(0));
}
