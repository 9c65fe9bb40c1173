//! The trimmer: crops a raster to the smallest rectangle that holds every
//! pixel that is not fully transparent.

use vstd::prelude::*;
use crate::raster::Pixels;
use crate::raster::Raster;

verus! {

/// Whether any pixel is visible.
pub open spec fn any_opaque(p: Pixels) -> bool {
    exists|x: int, y: int| p.opaque(x, y)
}

/// Whether the columns `left..=right` and the rows `top..=bottom` are the
/// smallest rectangle that holds every visible pixel: all of them lie in it,
/// and each of its four sides holds one.
pub open spec fn is_bounds(p: Pixels, left: int, top: int, right: int, bottom: int) -> bool {
    &&& forall|x: int, y: int| #[trigger] p.opaque(x, y) ==> left <= x <= right && top <= y <= bottom
    &&& exists|y: int| p.opaque(left, y)
    &&& exists|y: int| p.opaque(right, y)
    &&& exists|x: int| p.opaque(x, top)
    &&& exists|x: int| p.opaque(x, bottom)
}

/// Whether `out` is `p` trimmed: the window on the smallest rectangle that
/// holds every visible pixel, or a raster without pixels if none is visible.
pub open spec fn is_trimmed(p: Pixels, out: Pixels) -> bool {
    if any_opaque(p) {
        exists|left: int, top: int, right: int, bottom: int|
            is_bounds(p, left, top, right, bottom) && out == p.window(
                left,
                top,
                (right - left + 1) as nat,
                (bottom - top + 1) as nat,
            )
    } else {
        out == Pixels::blank(0, 0)
    }
}

/// Whether the scan, row by row, has passed the pixel `(x, y)` when it stands at `(at_x, at_y)`.
spec fn scanned(x: int, y: int, at_x: int, at_y: int) -> bool {
    y < at_y || (y == at_y && x < at_x)
}

/// Crops an image to its visible content. An image with no visible pixel
/// gives an image without pixels.
pub fn crop_whitespace(img: &Raster) -> (r: Raster)
    requires
        img.wf(),
    ensures
        r.wf(),
        is_trimmed(img@, r@),
{
    let width = img.width;
    let height = img.height;
    let mut found = false;
    let mut left: u32 = 0;
    let mut right: u32 = 0;
    let mut top: u32 = 0;
    let mut bottom: u32 = 0;
    let ghost mut left_y: int = 0;
    let ghost mut right_y: int = 0;
    let ghost mut top_x: int = 0;
    let ghost mut bottom_x: int = 0;
    let mut y: u32 = 0;
    while y < height
        invariant
            img.wf(),
            width == img.width,
            height == img.height,
            y <= height,
            !found ==> forall|px: int, py: int|
                scanned(px, py, 0, y as int) ==> !#[trigger] img@.opaque(px, py),
            found ==> {
                &&& forall|px: int, py: int|
                    scanned(px, py, 0, y as int) && #[trigger] img@.opaque(px, py) ==> left <= px
                        <= right && top <= py <= bottom
                &&& img@.opaque(left as int, left_y)
                &&& img@.opaque(right as int, right_y)
                &&& img@.opaque(top_x, top as int)
                &&& img@.opaque(bottom_x, bottom as int)
            },
        decreases height - y,
    {
        let mut x: u32 = 0;
        while x < width
            invariant
                img.wf(),
                width == img.width,
                height == img.height,
                y < height,
                x <= width,
                !found ==> forall|px: int, py: int|
                    scanned(px, py, x as int, y as int) ==> !#[trigger] img@.opaque(px, py),
                found ==> {
                    &&& forall|px: int, py: int|
                        scanned(px, py, x as int, y as int) && #[trigger] img@.opaque(px, py)
                            ==> left <= px <= right && top <= py <= bottom
                    &&& img@.opaque(left as int, left_y)
                    &&& img@.opaque(right as int, right_y)
                    &&& img@.opaque(top_x, top as int)
                    &&& img@.opaque(bottom_x, bottom as int)
                },
            decreases width - x,
        {
            let pixel = img.get_pixel(x, y);
            if pixel.3 != 0 {
                if !found {
                    found = true;
                    left = x;
                    right = x;
                    top = y;
                    bottom = y;
                    proof {
                        left_y = y as int;
                        right_y = y as int;
                        top_x = x as int;
                        bottom_x = x as int;
                    }
                } else {
                    if x < left {
                        left = x;
                        proof {
                            left_y = y as int;
                        }
                    }
                    if x > right {
                        right = x;
                        proof {
                            right_y = y as int;
                        }
                    }
                    if y < top {
                        top = y;
                        proof {
                            top_x = x as int;
                        }
                    }
                    if y > bottom {
                        bottom = y;
                        proof {
                            bottom_x = x as int;
                        }
                    }
                }
            }
            x = x + 1;
        }
        y = y + 1;
    }
    if !found {
        Raster::new(0, 0).unwrap()
    } else {
        assert(is_bounds(img@, left as int, top as int, right as int, bottom as int));
        let out = img.crop(left, top, right - left + 1, bottom - top + 1);
        out
    }
}

/// A raster with no visible pixel trims to a raster without pixels.
pub proof fn lemma_trim_transparent(p: Pixels, out: Pixels)
    requires
        forall|x: int, y: int| p.contains(x, y) ==> p.at(x, y, 3) == 0,
        is_trimmed(p, out),
    ensures
        out.width == 0,
        out.height == 0,
        out.data.len() == 0,
{
}

/// A raster whose only visible pixel is at `(x, y)` trims to that one pixel.
pub proof fn lemma_trim_single(p: Pixels, out: Pixels, x: int, y: int)
    requires
        p.wf(),
        p.opaque(x, y),
        forall|px: int, py: int| p.opaque(px, py) ==> px == x && py == y,
        is_trimmed(p, out),
    ensures
        out == p.window(x, y, 1, 1),
        out.width == 1,
        out.height == 1,
{
    let (left, top, right, bottom) = choose|left: int, top: int, right: int, bottom: int|
        is_bounds(p, left, top, right, bottom) && out == p.window(
            left,
            top,
            (right - left + 1) as nat,
            (bottom - top + 1) as nat,
        );
    let ly = choose|ly: int| p.opaque(left, ly);
    let ry = choose|ry: int| p.opaque(right, ry);
    let tx = choose|tx: int| p.opaque(tx, top);
    let bx = choose|bx: int| p.opaque(bx, bottom);
}

/// The smallest rectangle that holds every visible pixel is one rectangle:
/// trimming has one result.
pub proof fn lemma_trim_unique(p: Pixels, a: Pixels, b: Pixels)
    requires
        is_trimmed(p, a),
        is_trimmed(p, b),
    ensures
        a == b,
{
    if any_opaque(p) {
        let (l1, t1, r1, b1) = choose|left: int, top: int, right: int, bottom: int|
            is_bounds(p, left, top, right, bottom) && a == p.window(
                left,
                top,
                (right - left + 1) as nat,
                (bottom - top + 1) as nat,
            );
        let (l2, t2, r2, b2) = choose|left: int, top: int, right: int, bottom: int|
            is_bounds(p, left, top, right, bottom) && b == p.window(
                left,
                top,
                (right - left + 1) as nat,
                (bottom - top + 1) as nat,
            );
        let y1 = choose|y: int| p.opaque(l1, y);
        let y2 = choose|y: int| p.opaque(l2, y);
        let y3 = choose|y: int| p.opaque(r1, y);
        let y4 = choose|y: int| p.opaque(r2, y);
        let x1 = choose|x: int| p.opaque(x, t1);
        let x2 = choose|x: int| p.opaque(x, t2);
        let x3 = choose|x: int| p.opaque(x, b1);
        let x4 = choose|x: int| p.opaque(x, b2);
    }
}

} // verus!
