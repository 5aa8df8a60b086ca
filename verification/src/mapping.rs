//! From logical coordinates (origin centred, y up) to texture coordinates
//! (origin top left, y down), and the texels that a shape paints.

use crate::data::Coordinate;
use vstd::prelude::*;

verus! {

pub const CANVAS_WIDTH: u32 = 3000;

pub const CANVAS_HEIGHT: u32 = 2000;

/// The texture column of the logical column `x`.
pub open spec fn texture_u(x: int) -> int {
    x + 1500
}

/// The texture row of the logical row `y`.
pub open spec fn texture_v(y: int) -> int {
    1000 - y - 1
}

/// Whether `(u, v)` is a texel of the canvas.
pub open spec fn on_canvas(u: int, v: int) -> bool {
    0 <= u < CANVAS_WIDTH && 0 <= v < CANVAS_HEIGHT
}

/// Whether a shape reaches the texel `(i, j)`, before clipping. A point
/// reaches its own texel; a rectangle the texels from its first corner up to,
/// but without, its second, the two rows changing roles because the vertical
/// axis flips; a disc the texels strictly inside its radius.
pub open spec fn covers(c: Coordinate, i: int, j: int) -> bool {
    match c {
        Coordinate::Simple { x, y } => i == texture_u(x as int) && j == texture_v(y as int),
        Coordinate::Rectangle { x1, y1, x2, y2 } => texture_u(x1 as int) <= i < texture_u(
            x2 as int,
        ) && texture_v(y2 as int) <= j < texture_v(y1 as int),
        Coordinate::Circle { x, y, radius } => (i - texture_u(x as int)) * (i - texture_u(
            x as int,
        )) + (j - texture_v(y as int)) * (j - texture_v(y as int)) < radius * radius,
    }
}

/// Whether a shape paints the texel `(i, j)`: it reaches it, and the texel is
/// on the canvas.
pub open spec fn affects(c: Coordinate, i: int, j: int) -> bool {
    on_canvas(i, j) && covers(c, i, j)
}

/// Maps a logical point to texture space.
pub fn to_texture(x: i16, y: i16) -> (r: (i32, i32))
    ensures
        r.0 == texture_u(x as int),
        r.1 == texture_v(y as int),
{
    (x as i32 + 1500, 1000 - y as i32 - 1)
}

/// Maps a logical point to its texel, if it has one.
pub fn convert(x: i16, y: i16) -> (r: Option<(usize, usize)>)
    ensures
        match r {
            Some((u, v)) => on_canvas(u as int, v as int) && u == texture_u(x as int) && v
                == texture_v(y as int),
            None => !on_canvas(texture_u(x as int), texture_v(y as int)),
        },
{
    let (u, v) = to_texture(x, y);
    if u >= 0 && u < 3000 && v >= 0 && v < 2000 {
        Some((u as usize, v as usize))
    } else {
        None
    }
}

/// Maps a texel back to the logical point it shows.
pub fn to_logical(u: u32, v: u32) -> (r: (i16, i16))
    requires
        on_canvas(u as int, v as int),
    ensures
        texture_u(r.0 as int) == u,
        texture_v(r.1 as int) == v,
        -1500 <= r.0 <= 1499,
        -1000 <= r.1 <= 999,
{
    ((u as i32 - 1500) as i16, (1000 - v as i32 - 1) as i16)
}

/// Every logical point of the canvas, with `x` in `[-1500, 1499]` and `y` in
/// `[-1000, 999]`, lands on a texel of the canvas, and `(u - 1500, 1000 - v - 1)`
/// leads back from the texel to the point.
pub proof fn mapping_round_trip(x: int, y: int)
    requires
        -1500 <= x <= 1499,
        -1000 <= y <= 999,
    ensures
        on_canvas(texture_u(x), texture_v(y)),
        (texture_u(x) - 1500, 1000 - texture_v(y) - 1) == (x, y),
{
}

/// Every texel of the canvas is the image of a logical point of the canvas.
pub proof fn mapping_is_onto(u: int, v: int)
    requires
        on_canvas(u, v),
    ensures
        -1500 <= u - 1500 <= 1499,
        -1000 <= 1000 - v - 1 <= 999,
        (texture_u(u - 1500), texture_v(1000 - v - 1)) == (u, v),
{
}

} // verus!
