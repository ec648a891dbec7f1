//! The status bar: where its widgets go.
use vstd::prelude::*;

verus! {

/// Which side of the bar a widget sits on.
#[derive(Debug, Clone, Copy, PartialEq, Eq, Structural)]
pub enum Align {
    /// Left side.
    Left,
    /// Right side.
    Right,
}

/// Space before, between and after widgets, in pixels.
pub const PADDING_X: i16 = 10;

/// Whether `v` fits in an `i16`.
pub open spec fn fits_i16(v: int) -> bool {
    i16::MIN <= v <= i16::MAX
}

/// The positions of left-aligned widgets of widths `ws`, the first at `x`,
/// each next one a padding after the previous one's end; `None` when a
/// position (including the one after the last widget) leaves the `i16` range.
pub open spec fn left_positions(ws: Seq<i16>, x: int) -> Option<Seq<i16>>
    decreases ws.len(),
{
    if ws.len() == 0 {
        Some(Seq::empty())
    } else if !fits_i16(ws[0] + 10) || !fits_i16(x + ws[0] + 10) {
        None
    } else {
        match left_positions(ws.drop_first(), x + ws[0] + 10) {
            Some(rest) => Some(seq![x as i16] + rest),
            None => None,
        }
    }
}

/// The positions of right-aligned widgets of widths `ws`, placed from the
/// last one leftwards, the last one ending at `x`, a padding between
/// neighbours; `None` when a position leaves the `i16` range.
pub open spec fn right_positions(ws: Seq<i16>, x: int) -> Option<Seq<i16>>
    decreases ws.len(),
{
    if ws.len() == 0 {
        Some(Seq::empty())
    } else if !fits_i16(x - ws.last()) || !fits_i16(x - ws.last() - 10) {
        None
    } else {
        match right_positions(ws.drop_last(), x - ws.last() - 10) {
            Some(rest) => Some(rest.push((x - ws.last()) as i16)),
            None => None,
        }
    }
}

/// Where the bar's widgets go, given the bar's width and the widths of the
/// left-aligned and right-aligned widgets: left ones from the left edge
/// plus padding, right ones ending at the right edge less padding. `None`
/// exactly when a position leaves the `i16` range.
pub fn bar_positions(width: i16, left: &[i16], right: &[i16]) -> (r: Option<(Vec<i16>, Vec<i16>)>)
    ensures
        match r {
            Some((l, rt)) => fits_i16(width - 10) && left_positions(left@, 10) == Some(l@)
                && right_positions(right@, width - 10) == Some(rt@),
            None => !fits_i16(width - 10) || left_positions(left@, 10) is None || right_positions(
                right@,
                width - 10,
            ) is None,
        },
{
    let mut l: Vec<i16> = Vec::new();
    let mut x: i16 = PADDING_X;
    let mut k: usize = 0;
    proof {
        assert(left@.subrange(0, left@.len() as int) =~= left@);
    }
    while k < left.len()
        invariant
            k <= left.len(),
            left_positions(left@, 10) == match left_positions(left@.subrange(k as int, left@.len() as int), x as int) {
                Some(rest) => Some(l@ + rest),
                None => None::<Seq<i16>>,
            },
        decreases left.len() - k,
    {
        let ghost rest = left@.subrange(k as int, left@.len() as int);
        proof {
            assert(rest[0] == left@[k as int]);
            assert(rest.drop_first() =~= left@.subrange(k + 1, left@.len() as int));
        }
        let w = left[k];
        if (w as i32) + 10 > i16::MAX as i32 || (x as i32) + (w as i32) + 10 > i16::MAX as i32
            || (x as i32) + (w as i32) + 10 < i16::MIN as i32 {
            return None;
        }
        let ghost old_l = l@;
        l.push(x);
        proof {
            match left_positions(rest.drop_first(), x + w + 10) {
                Some(t) => {
                    assert(old_l + (seq![x] + t) =~= l@ + t);
                },
                None => {},
            }
        }
        x = x + (w + 10);
        k = k + 1;
    }
    proof {
        assert(left@.subrange(k as int, left@.len() as int) =~= Seq::<i16>::empty());
        assert(l@ + Seq::<i16>::empty() =~= l@);
    }
    if (width as i32) - 10 < i16::MIN as i32 {
        return None;
    }
    let mut x: i16 = width - PADDING_X;
    let mut rt: Vec<i16> = Vec::new();
    let mut k: usize = right.len();
    let ghost full = right@;
    proof {
        assert(right@.subrange(0, right@.len() as int) =~= right@);
    }
    // positions are found from the last widget leftwards; fill a buffer in that order
    let mut rev: Vec<i16> = Vec::new();
    while k > 0
        invariant
            k <= right.len(),
            full == right@,
            right_positions(full, width - 10) == match right_positions(full.subrange(0, k as int), x as int) {
                Some(rest) => Some(rest + Seq::new(rev@.len(), |j: int| rev@[rev@.len() - 1 - j])),
                None => None::<Seq<i16>>,
            },
        decreases k,
    {
        let ghost pre = full.subrange(0, k as int);
        proof {
            assert(pre.last() == right@[k - 1]);
            assert(pre.drop_last() =~= full.subrange(0, k - 1));
        }
        let w = right[k - 1];
        if (x as i32) - (w as i32) < i16::MIN as i32 || (x as i32) - (w as i32) > i16::MAX as i32
            || (x as i32) - (w as i32) - 10 < i16::MIN as i32 {
            return None;
        }
        let p = x - w;
        let ghost old_rev = rev@;
        rev.push(p);
        proof {
            let tail_old = Seq::new(old_rev.len(), |j: int| old_rev[old_rev.len() - 1 - j]);
            let tail_new = Seq::new(rev@.len(), |j: int| rev@[rev@.len() - 1 - j]);
            assert(tail_new =~= seq![p] + tail_old);
            match right_positions(pre.drop_last(), p - 10) {
                Some(t) => {
                    assert(t.push(p) + tail_old =~= t + tail_new);
                },
                None => {},
            }
        }
        x = p - PADDING_X;
        k = k - 1;
    }
    let mut j: usize = rev.len();
    while j > 0
        invariant
            j <= rev.len(),
            rt@ =~= Seq::new((rev@.len() - j) as nat, |q: int| rev@[rev@.len() - 1 - q]),
        decreases j,
    {
        rt.push(rev[j - 1]);
        j = j - 1;
    }
    proof {
        assert(full.subrange(0, 0) =~= Seq::<i16>::empty());
        assert(Seq::<i16>::empty() + Seq::new(rev@.len(), |q: int| rev@[rev@.len() - 1 - q]) =~= rt@);
    }
    Some((l, rt))
}

/// `h / 2` rounded toward zero, as integer division in Rust rounds.
pub open spec fn half_toward_zero(h: int) -> int {
    if h >= 0 {
        h / 2
    } else {
        -((-h) / 2)
    }
}

/// The baseline of text on a bar of `height` pixels: the height taken as an
/// `i16`, halved toward zero, plus 4.
pub fn text_baseline(height: u32) -> (r: i16)
    ensures
        r == half_toward_zero((height as i16) as int) + 4,
{
    let h = height as i16;
    if h >= 0 {
        h / 2 + 4
    } else {
        let q: i32 = (-(h as i32)) / 2;
        (4 - q) as i16
    }
}

/// The height of a workspace button on a bar of `height` pixels: the bar
/// less 3 pixels above and below, taken as a `u16`; `None` when the bar is
/// lower than 6 pixels.
pub fn button_height(height: u32) -> (r: Option<u16>)
    ensures
        match r {
            None => height < 6,
            Some(v) => height >= 6 && v == (height - 6) as u16,
        },
{
    if height < 6 {
        None
    } else {
        Some((height - 6) as u16)
    }
}

} // verus!
