use orbitwm::config::Config;
use orbitwm::wm::layout::{apply_layout, Placement};
use orbitwm::wm::state::WMState;

fn wm_with(n: u32) -> WMState {
    let mut s = WMState::new();
    for w in 1..=n {
        s.add(w);
    }
    s
}

#[test]
fn empty_workspace_places_nothing() {
    let c = Config::default();
    assert_eq!(apply_layout(&WMState::new(), 1000, 800, &c, 500, 500), Some(vec![]));
}

#[test]
fn single_window_fills_screen() {
    let c = Config::default();
    let p = apply_layout(&wm_with(1), 1000, 800, &c, 500, 500).unwrap();
    assert_eq!(
        p,
        vec![Placement { window: 1, x: 8, y: 32, width: 980, height: 756, border_width: 2 }]
    );
}

#[test]
fn master_and_stack() {
    let c = Config::default();
    let p = apply_layout(&wm_with(3), 1000, 800, &c, 500, 500).unwrap();
    // usable 776; stack height (776 - 8 * 3) / 2 = 376
    assert_eq!(p[0], Placement { window: 1, x: 8, y: 32, width: 480, height: 756, border_width: 2 });
    assert_eq!(p[1], Placement { window: 2, x: 508, y: 32, width: 480, height: 372, border_width: 2 });
    assert_eq!(p[2], Placement { window: 3, x: 508, y: 416, width: 480, height: 372, border_width: 2 });
    assert!(p[2].y + p[2].height + 2 * p[2].border_width <= 800 - 8);
}

#[test]
fn tiny_sizes_saturate_borders() {
    let mut c = Config::default();
    c.gap = 0;
    c.border_width = 10;
    c.bar.height = 0;
    let p = apply_layout(&wm_with(1), 5, 5, &c, 2, 3).unwrap();
    assert_eq!(p[0].width, 0);
    assert_eq!(p[0].height, 0);
}

#[test]
fn overflowing_layouts_are_refused() {
    let c = Config::default();
    // bar taller than the screen
    assert_eq!(apply_layout(&wm_with(1), 1000, 10, &c, 500, 500), None);
    // too narrow for the gaps
    assert_eq!(apply_layout(&wm_with(1), 10, 800, &c, 500, 500), None);
    assert_eq!(apply_layout(&wm_with(2), 1000, 800, &c, 10, 500), None);
    assert_eq!(apply_layout(&wm_with(2), 1000, 800, &c, 500, 10), None);
    // too many stacked windows for the height
    assert_eq!(apply_layout(&wm_with(200), 1000, 800, &c, 500, 500), None);
    let mut big = Config::default();
    big.border_width = u32::MAX;
    assert_eq!(apply_layout(&wm_with(1), 1000, 800, &big, 500, 500), None);
}

#[test]
fn columns_and_stack_are_apart() {
    let c = Config::default();
    let p = apply_layout(&wm_with(4), 1200, 900, &c, 700, 500).unwrap();
    let outer_w0 = p[0].width + 2 * p[0].border_width;
    for q in &p[1..] {
        assert_eq!(p[0].x + outer_w0 + 2 * c.gap, q.x);
    }
    for k in 1..p.len() - 1 {
        let outer_h = p[k].height + 2 * p[k].border_width;
        assert_eq!(p[k + 1].y, p[k].y + outer_h + c.gap);
    }
    for q in &p {
        assert!(q.y >= c.bar.height + c.gap);
        assert!(q.y + q.height + 2 * q.border_width <= 900 - c.gap);
    }
}
