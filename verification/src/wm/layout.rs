//! The master-and-stack tiling of the workspace shown.
use vstd::prelude::*;

use crate::config::Config;
use crate::wm::state::WMState;
use crate::Window;

verus! {

/// Where a tiled window goes: its position, its inner size (the tile less
/// the border on each side, never below zero), and its border width.
#[derive(Debug, Clone, Copy, PartialEq, Eq, Structural)]
pub struct Placement {
    /// The window.
    pub window: Window,
    /// Left edge of the tile.
    pub x: u32,
    /// Top edge of the tile.
    pub y: u32,
    /// Inner width.
    pub width: u32,
    /// Inner height.
    pub height: u32,
    /// Border width.
    pub border_width: u32,
}

/// The numbers a tiling is computed from: window count, screen size, gap,
/// bar height, border width, and the pixel widths that the master ratio
/// gives the master column (`master_span`) and the stack column
/// (`stack_span`).
pub struct TileParams {
    pub count: nat,
    pub screen_w: nat,
    pub screen_h: nat,
    pub gap: nat,
    pub bar_h: nat,
    pub border: nat,
    pub master_span: nat,
    pub stack_span: nat,
}

impl TileParams {
    /// Height below the bar.
    pub open spec fn usable_h(self) -> int {
        self.screen_h - self.bar_h
    }

    /// Height of each stack tile.
    pub open spec fn stack_h(self) -> int {
        (self.usable_h() - self.gap * self.count) / (self.count - 1)
    }

    /// Whether every intermediate value of the tiling fits in a `u32`
    /// without wrapping: where it does not, the computation overflows.
    pub open spec fn fits(self) -> bool {
        let m = u32::MAX as int;
        self.count == 0 || {
            &&& self.bar_h <= self.screen_h
            &&& 2 * self.gap <= m
            &&& self.bar_h + self.gap <= m
            &&& 2 * self.border <= m
            &&& self.usable_h() >= 2 * self.gap
            &&& if self.count == 1 {
                self.screen_w >= 2 * self.gap
            } else {
                &&& self.master_span >= 2 * self.gap
                &&& self.count <= m
                &&& self.master_span + self.gap <= m
                &&& self.stack_span >= 2 * self.gap
                &&& self.gap * self.count <= m
                &&& self.usable_h() >= self.gap * self.count
            }
        }
    }

    /// The tile of window `i`: left, top, width, height. A lone window
    /// fills the screen below the bar less the gaps; otherwise the first
    /// window takes the master column and the others share the stack
    /// column from top to bottom.
    pub open spec fn tile(self, i: int) -> (int, int, int, int) {
        if self.count == 1 {
            (
                self.gap as int,
                (self.bar_h + self.gap) as int,
                self.screen_w - 2 * self.gap,
                self.usable_h() - 2 * self.gap,
            )
        } else if i == 0 {
            (
                self.gap as int,
                (self.bar_h + self.gap) as int,
                self.master_span - 2 * self.gap,
                self.usable_h() - 2 * self.gap,
            )
        } else {
            (
                (self.master_span + self.gap) as int,
                self.bar_h + self.gap + (i - 1) * (self.stack_h() + self.gap),
                self.stack_span - 2 * self.gap,
                self.stack_h(),
            )
        }
    }
}

/// `a - b`, or 0 when `b` exceeds `a`.
pub open spec fn sat_sub(a: int, b: int) -> int {
    if a >= b {
        a - b
    } else {
        0
    }
}

/// The placement of `w` in tile `t` with border `border`.
pub open spec fn placement_of(w: Window, t: (int, int, int, int), border: int) -> Placement {
    Placement {
        window: w,
        x: t.0 as u32,
        y: t.1 as u32,
        width: sat_sub(t.2, 2 * border) as u32,
        height: sat_sub(t.3, 2 * border) as u32,
        border_width: border as u32,
    }
}

/// The tiling parameters of `wins` under `config`.
pub open spec fn params_of(
    wins: Seq<Window>,
    screen_w: u32,
    screen_h: u32,
    config: Config,
    master_span: u32,
    stack_span: u32,
) -> TileParams {
    TileParams {
        count: wins.len(),
        screen_w: screen_w as nat,
        screen_h: screen_h as nat,
        gap: config.gap as nat,
        bar_h: config.bar.height as nat,
        border: config.border_width as nat,
        master_span: master_span as nat,
        stack_span: stack_span as nat,
    }
}

fn place(win: Window, x: u32, y: u32, w: u32, h: u32, bw: u32) -> (r: Placement)
    requires
        2 * bw <= u32::MAX,
    ensures
        r == placement_of(win, (x as int, y as int, w as int, h as int), bw as int),
{
    Placement {
        window: win,
        x,
        y,
        width: w.saturating_sub(bw * 2),
        height: h.saturating_sub(bw * 2),
        border_width: bw,
    }
}

proof fn lemma_stack_bounds(p: TileParams, i: int)
    requires
        p.fits(),
        p.count >= 2,
        0 <= i < p.count - 1,
    ensures
        0 <= p.stack_h(),
        p.stack_h() * (p.count - 1) <= p.usable_h() - p.gap * p.count,
        0 <= i * (p.stack_h() + p.gap),
        p.bar_h + p.gap + i * (p.stack_h() + p.gap) + p.stack_h() <= p.screen_h - p.gap,
{
    let sc = p.count - 1;
    let x = p.usable_h() - p.gap * p.count;
    let q = p.stack_h();
    assert(q == x / sc);
    assert(0 <= q && q * sc <= x) by (nonlinear_arith)
        requires
            sc >= 1,
            x >= 0,
            q == x / sc,
    ;
    let g = p.gap as int;
    assert(g * p.count == g * sc + g) by (nonlinear_arith)
        requires
            sc == p.count - 1,
    ;
    assert(0 <= i * (q + g) <= (sc - 1) * (q + g)) by (nonlinear_arith)
        requires
            0 <= i <= sc - 1,
            q >= 0,
            g >= 0,
    ;
    assert((sc - 1) * (q + g) == q * sc + g * sc - q - g) by (nonlinear_arith);
}

/// Where each tiled window of the workspace shown goes. `master_span` and
/// `stack_span` are the pixel widths that the master ratio gives the two
/// columns (the ratio is a float, applied by the caller). `None` exactly
/// when some intermediate value of the tiling would not fit in a `u32`.
pub fn apply_layout(
    wm: &WMState,
    screen_w: u32,
    screen_h: u32,
    config: &Config,
    master_span: u32,
    stack_span: u32,
) -> (r: Option<Vec<Placement>>)
    requires
        wm@.well_formed(),
    ensures
        ({
            let p = params_of(wm@.windows(), screen_w, screen_h, *config, master_span, stack_span);
            match r {
                None => !p.fits(),
                Some(v) => p.fits() && v@.len() == p.count && forall|i: int|
                    0 <= i < v@.len() ==> #[trigger] v@[i] == placement_of(
                        wm@.windows()[i],
                        p.tile(i),
                        p.border as int,
                    ),
            }
        }),
{
    let wins = wm.windows();
    let ghost p = params_of(wm@.windows(), screen_w, screen_h, *config, master_span, stack_span);
    let count = wins.len();
    let mut out: Vec<Placement> = Vec::new();
    if count == 0 {
        return Some(out);
    }
    let gap = config.gap;
    let bar_h = config.bar.height;
    let bw = config.border_width;
    if bar_h > screen_h || gap > u32::MAX / 2 || bar_h > u32::MAX - gap || bw > u32::MAX / 2 {
        return None;
    }
    let usable_h = screen_h - bar_h;
    if usable_h < gap * 2 {
        return None;
    }
    if count == 1 {
        if screen_w < gap * 2 {
            return None;
        }
        out.push(place(wins[0], gap, bar_h + gap, screen_w - gap * 2, usable_h - gap * 2, bw));
        proof {
            assert(out@[0] == placement_of(wm@.windows()[0], p.tile(0), p.border as int));
        }
        return Some(out);
    }
    if master_span < gap * 2 || count > u32::MAX as usize || master_span > u32::MAX - gap
        || stack_span < gap * 2 {
        return None;
    }
    let stack_count = (count - 1) as u32;
    assert((gap as int) * (count as int) <= 0x8000_0000 * 0xffff_ffff) by (nonlinear_arith)
        requires
            gap <= 0x8000_0000,
            count <= 0xffff_ffff,
    ;
    if gap as u64 * count as u64 > u32::MAX as u64 {
        return None;
    }
    let total_gap = gap * (stack_count + 1);
    if usable_h < total_gap {
        return None;
    }
    proof {
        assert(p.fits());
    }
    let master_w = master_span - gap * 2;
    out.push(place(wins[0], gap, bar_h + gap, master_w, usable_h - gap * 2, bw));
    let stack_x = master_span + gap;
    let stack_w = stack_span - gap * 2;
    let stack_h = (usable_h - total_gap) / stack_count;
    proof {
        assert(stack_h as int == p.stack_h());
        assert(out@[0] == placement_of(wm@.windows()[0], p.tile(0), p.border as int));
    }
    let mut i: usize = 0;
    while i < count - 1
        invariant
            p == params_of(wm@.windows(), screen_w, screen_h, *config, master_span, stack_span),
            p.fits(),
            wins@ == wm@.windows(),
            count == wins.len(),
            count >= 2,
            i <= count - 1,
            out@.len() == i + 1,
            stack_h as int == p.stack_h(),
            stack_x as int == master_span + gap,
            stack_w as int == stack_span - 2 * gap,
            gap == config.gap,
            bar_h == config.bar.height,
            bw == config.border_width,
            2 * bw <= u32::MAX,
            forall|k: int| 0 <= k < out@.len() ==> #[trigger] out@[k] == placement_of(
                wm@.windows()[k],
                p.tile(k),
                p.border as int,
            ),
        decreases count - 1 - i,
    {
        proof {
            lemma_stack_bounds(p, i as int);
        }
        let stack_y = bar_h + gap + (i as u32) * (stack_h + gap);
        out.push(place(wins[i + 1], stack_x, stack_y, stack_w, stack_h, bw));
        proof {
            assert(out@[i + 1] == placement_of(wm@.windows()[i + 1], p.tile(i + 1), p.border as int));
        }
        i = i + 1;
    }
    Some(out)
}

/// Every tile lies below the bar and one gap from the bottom edge, and
/// consecutive stack tiles are one gap apart, top to bottom.
pub proof fn law_tiles_inside_screen(p: TileParams, i: int)
    requires
        p.fits(),
        0 <= i < p.count,
    ensures
        p.tile(i).1 >= p.bar_h + p.gap,
        p.tile(i).1 + p.tile(i).3 <= p.screen_h - p.gap,
        p.tile(i).2 >= 0 && p.tile(i).3 >= 0,
        p.count >= 2 && 1 <= i < p.count - 1 ==> p.tile(i + 1).1 == p.tile(i).1 + p.tile(i).3
            + p.gap,
{
    if p.count >= 2 && i >= 1 {
        lemma_stack_bounds(p, i - 1);
        assert((i - 1) * (p.stack_h() + p.gap) + p.stack_h() + p.gap == i * (p.stack_h() + p.gap))
            by (nonlinear_arith);
    }
}

/// The master tile and the stack tiles do not overlap: the stack column
/// starts two gaps right of the master tile's right edge.
pub proof fn law_columns_apart(p: TileParams, i: int)
    requires
        p.fits(),
        p.count >= 2,
        1 <= i < p.count,
    ensures
        p.tile(0).0 + p.tile(0).2 + 2 * p.gap == p.tile(i).0,
{
}

} // verus!
