//! The bar's row of workspace buttons.
use vstd::prelude::*;

verus! {

/// Horizontal distance between the starts of two buttons, in pixels.
pub const BUTTON_STEP: i16 = 28;

/// Colour of the active workspace's button.
pub const ACTIVE_COLOR: u32 = 0x8888ff;

/// Colour of the other buttons.
pub const INACTIVE_COLOR: u32 = 0x2a2a3e;

/// One workspace button.
#[derive(Debug, Clone, Copy, PartialEq, Eq, Structural)]
pub struct WorkspaceButton {
    /// Left edge.
    pub x: i16,
    /// Left edge of the label.
    pub text_x: i16,
    /// The number shown, from 1.
    pub label: u32,
    /// Background colour.
    pub color: u32,
}

/// The workspaces widget: `count` buttons, button `active` highlighted.
#[derive(Debug, Clone, Copy, PartialEq, Eq, Structural)]
pub struct WorkspacesWidget {
    /// How many buttons.
    pub count: u32,
    /// The highlighted button, from 1.
    pub active: u32,
}

/// Whether `v` fits in an `i16`.
pub open spec fn fits_i16(v: int) -> bool {
    i16::MIN <= v <= i16::MAX
}

/// Whether drawing `count` buttons from `x` keeps every position in an
/// `i16`: each button's label position, and the start after each button.
pub open spec fn buttons_fit(x: int, count: nat) -> bool {
    count == 0 || (fits_i16(x + 28 * count) && fits_i16(x + 28 * (count - 1) + 8))
}

impl WorkspacesWidget {
    /// A widget of `count` buttons, the first highlighted.
    pub fn new(count: u32) -> (r: Self)
        ensures
            r.count == count,
            r.active == 1,
    {
        WorkspacesWidget { count, active: 1 }
    }

    /// The widget's width in pixels.
    pub fn width(&self) -> (r: u32)
        requires
            self.count * 28 <= u32::MAX,
        ensures
            r == self.count * 28,
    {
        self.count * 28
    }

    /// The buttons drawn from `x`: button `i` (from 1) starts at
    /// `x + 28 * (i - 1)`, its label 8 pixels further, highlighted when it is
    /// the active one. `None` exactly when some position would not fit in an
    /// `i16`.
    pub fn buttons(&self, x: i16) -> (r: Option<Vec<WorkspaceButton>>)
        ensures
            r is None <==> !buttons_fit(x as int, self.count as nat),
            r matches Some(v) ==> v@.len() == self.count && forall|i: int|
                0 <= i < v@.len() ==> #[trigger] v@[i] == (WorkspaceButton {
                    x: (x + 28 * i) as i16,
                    text_x: (x + 28 * i + 8) as i16,
                    label: (i + 1) as u32,
                    color: if i + 1 == self.active {
                        ACTIVE_COLOR
                    } else {
                        INACTIVE_COLOR
                    },
                }),
    {
        let mut v: Vec<WorkspaceButton> = Vec::new();
        if self.count == 0 {
            return Some(v);
        }
        let c = self.count as i64;
        if (x as i64) + 28 * c > i16::MAX as i64 || (x as i64) + 28 * (c - 1) + 8 > i16::MAX as i64 {
            return None;
        }
        let mut offset: i16 = x;
        let mut i: u32 = 0;
        while i < self.count
            invariant
                i <= self.count,
                self.count > 0,
                fits_i16(x + 28 * self.count) && fits_i16(x + 28 * (self.count - 1) + 8),
                offset == x + 28 * i,
                v@.len() == i,
                forall|k: int|
                    0 <= k < v@.len() ==> #[trigger] v@[k] == (WorkspaceButton {
                        x: (x + 28 * k) as i16,
                        text_x: (x + 28 * k + 8) as i16,
                        label: (k + 1) as u32,
                        color: if k + 1 == self.active {
                            ACTIVE_COLOR
                        } else {
                            INACTIVE_COLOR
                        },
                    }),
            decreases self.count - i,
        {
            let color = if i + 1 == self.active {
                ACTIVE_COLOR
            } else {
                INACTIVE_COLOR
            };
            v.push(WorkspaceButton { x: offset, text_x: offset + 8, label: i + 1, color });
            offset = offset + BUTTON_STEP;
            i = i + 1;
        }
        Some(v)
    }
}

} // verus!
