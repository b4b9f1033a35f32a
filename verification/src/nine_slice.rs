//! Nine-slice panels: a texture rectangle cut into corners, edges and a
//! middle, each drawn to the matching part of a screen rectangle so that the
//! corners keep their size and the edges and middle stretch.
use crate::math::{PixelUnits, Rect};
use vstd::prelude::*;

verus! {

/// A texture rectangle to draw as a nine-slice panel, with the size of its
/// corners.
pub struct NineSlice {
    pub texture_name: String,
    pub rect_in_texture: Rect<u32, PixelUnits>,
    pub inset_size: u32,
}

/// A rectangle as plain numbers: x, y, width, height.
pub open spec fn rect_of(r: Rect<u32, PixelUnits>) -> (int, int, int, int) {
    (r.x as int, r.y as int, r.width as int, r.height as int)
}

/// The nine parts of a rectangle `(x, y, w, h)` whose corners are `c`
/// wide and high: top-left, top, top-right, left, middle, right,
/// bottom-left, bottom, bottom-right.
pub open spec fn slices(r: (int, int, int, int), c: int) -> Seq<(int, int, int, int)> {
    let (x, y, w, h) = r;
    let right = x + w;
    let bottom = y + h;
    seq![
        (x, y, c, c),
        (x + c, y, w - c * 2, c),
        (right - c, y, c, c),
        (x, y + c, c, h - c * 2),
        (x + c, y + c, w - c * 2, h - c * 2),
        (right - c, y + c, c, h - c * 2),
        (x, bottom - c, c, c),
        (x + c, bottom - c, w - c * 2, c),
        (right - c, bottom - c, c, c),
    ]
}

/// The arithmetic of slicing a rectangle with corners `c` fits a `u32`: its
/// right and bottom edges fit and it is at least two corners wide and high.
pub open spec fn slices_fit(r: (int, int, int, int), c: int) -> bool {
    let (x, y, w, h) = r;
    &&& x + w <= u32::MAX
    &&& y + h <= u32::MAX
    &&& c * 2 <= u32::MAX
    &&& c * 2 <= w
    &&& c * 2 <= h
}

/// The pairs of texture part and screen part to copy for a nine-slice panel:
/// the texture is cut with corners `inset` wide, the screen rectangle with
/// corners `inset * scale` wide.
pub fn nine_slice_rects(
    tex_rect: Rect<u32, PixelUnits>,
    screen_rect: Rect<u32, PixelUnits>,
    inset: u32,
    scale: u32,
) -> (r: Vec<(Rect<u32, PixelUnits>, Rect<u32, PixelUnits>)>)
    requires
        inset * scale <= u32::MAX,
        inset * 2 * scale <= u32::MAX,
        slices_fit(rect_of(tex_rect), inset as int),
        slices_fit(rect_of(screen_rect), inset * scale),
    ensures
        r@.len() == 9,
        forall|k: int| 0 <= k < 9 ==> rect_of((#[trigger] r@[k]).0) == slices(rect_of(tex_rect), inset as int)[k]
            && rect_of(r@[k].1) == slices(rect_of(screen_rect), inset * scale)[k],
{
    let t = tex_rect;
    let s = screen_rect;
    let si = inset * scale;
    let s2 = inset * 2 * scale;
    assert(s2 == si * 2) by (nonlinear_arith)
        requires
            si == inset * scale,
            s2 == inset * 2 * scale;
    let tr = t.right();
    let tb = t.bottom();
    let sr = s.right();
    let sb = s.bottom();
    let mut r: Vec<(Rect<u32, PixelUnits>, Rect<u32, PixelUnits>)> = Vec::new();
    // Top left
    r.push((Rect::new(t.left(), t.top(), inset, inset), Rect::new(s.left(), s.top(), si, si)));
    // Top
    r.push((
        Rect::new(t.left() + inset, t.top(), t.width - inset * 2, inset),
        Rect::new(s.left() + si, s.top(), s.width - s2, si),
    ));
    // Top right
    r.push((Rect::new(tr - inset, t.top(), inset, inset), Rect::new(sr - si, s.top(), si, si)));
    // Left
    r.push((
        Rect::new(t.left(), t.top() + inset, inset, t.height - inset * 2),
        Rect::new(s.left(), s.top() + si, si, s.height - s2),
    ));
    // Middle
    r.push((
        Rect::new(t.left() + inset, t.top() + inset, t.width - inset * 2, t.height - inset * 2),
        Rect::new(s.left() + si, s.top() + si, s.width - s2, s.height - s2),
    ));
    // Right
    r.push((
        Rect::new(tr - inset, t.top() + inset, inset, t.height - inset * 2),
        Rect::new(sr - si, s.top() + si, si, s.height - s2),
    ));
    // Bottom left
    r.push((Rect::new(t.left(), tb - inset, inset, inset), Rect::new(s.left(), sb - si, si, si)));
    // Bottom
    r.push((
        Rect::new(t.left() + inset, tb - inset, t.width - inset * 2, inset),
        Rect::new(s.left() + si, sb - si, s.width - s2, si),
    ));
    // Bottom right
    r.push((Rect::new(tr - inset, tb - inset, inset, inset), Rect::new(sr - si, sb - si, si, si)));
    r
}


/// The nine parts cover the rectangle exactly: in each row the three parts
/// sit side by side from its left edge to its right edge, in each column
/// from its top edge to its bottom edge, and no part has a negative size.
pub proof fn law_slices_tile(r: (int, int, int, int), c: int)
    requires
        slices_fit(r, c),
        c >= 0,
    ensures
        ({
            let p = slices(r, c);
            let (x, y, w, h) = r;
            &&& forall|k: int| 0 <= k < 9 ==> (#[trigger] p[k]).2 >= 0 && p[k].3 >= 0
            &&& forall|row: int| 0 <= row < 3 ==> {
                &&& (#[trigger] p[row * 3]).0 == x
                &&& p[row * 3].0 + p[row * 3].2 == p[row * 3 + 1].0
                &&& p[row * 3 + 1].0 + p[row * 3 + 1].2 == p[row * 3 + 2].0
                &&& p[row * 3 + 2].0 + p[row * 3 + 2].2 == x + w
            }
            &&& forall|col: int| 0 <= col < 3 ==> {
                &&& (#[trigger] p[col]).1 == y
                &&& p[col].1 + p[col].3 == p[col + 3].1
                &&& p[col + 3].1 + p[col + 3].3 == p[col + 6].1
                &&& p[col + 6].1 + p[col + 6].3 == y + h
            }
        }),
{
    let p = slices(r, c);
    assert forall|row: int| 0 <= row < 3 implies (#[trigger] p[row * 3]).0 == r.0 by {
        assert(row == 0 || row == 1 || row == 2);
    }
}

} // verus!
