//! Integer triangle rasterization: which pixels a triangle covers, with the
//! edge-function barycentric coordinates of each.

use vstd::prelude::*;

verus! {

/// Whether `x` fits in an `i32`.
pub open spec fn in_i32(x: int) -> bool {
    i32::MIN <= x <= i32::MAX
}

/// The sign of `x`: `1`, `-1` or `0`.
pub open spec fn sign(x: int) -> int {
    if x > 0 {
        1
    } else if x < 0 {
        -1
    } else {
        0
    }
}

/// Twice the signed area of the triangle `v1 v2 v3`.
pub open spec fn bary_d(v1x: int, v1y: int, v2x: int, v2y: int, v3x: int, v3y: int) -> int {
    (v1x - v3x) * (v2y - v3y) - (v1y - v3y) * (v2x - v3x)
}

/// The weight of `v1` at `p`, scaled by `bary_d`.
pub open spec fn bary_u(px: int, py: int, v2x: int, v2y: int, v3x: int, v3y: int) -> int {
    (px - v3x) * (v2y - v3y) - (py - v3y) * (v2x - v3x)
}

/// The weight of `v2` at `p`, scaled by `bary_d`.
pub open spec fn bary_v(px: int, py: int, v1x: int, v1y: int, v3x: int, v3y: int) -> int {
    (px - v3x) * (v3y - v1y) - (py - v3y) * (v3x - v1x)
}

/// `a` is zero or has the sign of `d`.
pub open spec fn agrees(a: int, d: int) -> bool {
    sign(a) == sign(d) || a == 0
}

/// The barycentric coordinates of `p` in the triangle `v1 v2 v3`, scaled by
/// twice the triangle's signed area: `(u, v, d)`, where `u / d` and `v / d`
/// are the weights of `v1` and `v2`. `None` when the triangle is degenerate
/// or `p` lies outside it; points on an edge are inside.
pub open spec fn barycentric(
    px: int,
    py: int,
    v1x: int,
    v1y: int,
    v2x: int,
    v2y: int,
    v3x: int,
    v3y: int,
) -> Option<(int, int, int)> {
    let d = bary_d(v1x, v1y, v2x, v2y, v3x, v3y);
    let u = bary_u(px, py, v2x, v2y, v3x, v3y);
    let v = bary_v(px, py, v1x, v1y, v3x, v3y);
    let w = d - u - v;
    if d == 0 {
        None
    } else if agrees(u, d) && agrees(v, d) && agrees(w, d) {
        Some((u, v, d))
    } else {
        None
    }
}

/// Every intermediate value of the `i32` computation of `barycentric` fits in an `i32`.
pub open spec fn bary_fits(
    px: int,
    py: int,
    v1x: int,
    v1y: int,
    v2x: int,
    v2y: int,
    v3x: int,
    v3y: int,
) -> bool {
    let d = bary_d(v1x, v1y, v2x, v2y, v3x, v3y);
    let u = bary_u(px, py, v2x, v2y, v3x, v3y);
    let v = bary_v(px, py, v1x, v1y, v3x, v3y);
    &&& in_i32(v1x - v3x)
    &&& in_i32(v2y - v3y)
    &&& in_i32((v1x - v3x) * (v2y - v3y))
    &&& in_i32(v1y - v3y)
    &&& in_i32(v2x - v3x)
    &&& in_i32((v1y - v3y) * (v2x - v3x))
    &&& in_i32(d)
    &&& d != 0 ==> {
        &&& in_i32(px - v3x)
        &&& in_i32((px - v3x) * (v2y - v3y))
        &&& in_i32(py - v3y)
        &&& in_i32((py - v3y) * (v2x - v3x))
        &&& in_i32(u)
        &&& in_i32(v3y - v1y)
        &&& in_i32((px - v3x) * (v3y - v1y))
        &&& in_i32(v3x - v1x)
        &&& in_i32((py - v3y) * (v3x - v1x))
        &&& in_i32(v)
        &&& in_i32(d - u)
        &&& in_i32(d - u - v)
    }
}

fn signum(x: i32) -> (s: i32)
    ensures
        s as int == sign(x as int),
{
    if x > 0 {
        1
    } else if x < 0 {
        -1
    } else {
        0
    }
}

/// The barycentric coordinates `(u, v, d)` of `p` in the triangle `v1 v2 v3`,
/// or `None` when the triangle is degenerate or `p` lies outside it.
pub fn barycentric_coordinates(
    px: i32,
    py: i32,
    v1x: i32,
    v1y: i32,
    v2x: i32,
    v2y: i32,
    v3x: i32,
    v3y: i32,
) -> (r: Option<(i32, i32, i32)>)
    requires
        bary_fits(px as int, py as int, v1x as int, v1y as int, v2x as int, v2y as int, v3x as int, v3y as int),
    ensures
        match r {
            Some((u, v, d)) => barycentric(px as int, py as int, v1x as int, v1y as int, v2x as int, v2y as int, v3x as int, v3y as int)
                == Some((u as int, v as int, d as int)),
            None => barycentric(px as int, py as int, v1x as int, v1y as int, v2x as int, v2y as int, v3x as int, v3y as int) is None,
        },
{
    let d = (v1x - v3x) * (v2y - v3y) - (v1y - v3y) * (v2x - v3x);
    if d == 0 {
        return None;
    }
    let u = (px - v3x) * (v2y - v3y) - (py - v3y) * (v2x - v3x);
    let v = (px - v3x) * (v3y - v1y) - (py - v3y) * (v3x - v1x);
    let w = d - u - v;

    let ds = signum(d);
    if (signum(u) == ds || u == 0) && (signum(v) == ds || v == 0) && (signum(w) == ds || w == 0) {
        Some((u, v, d))
    } else {
        None
    }
}

pub open spec fn min_int(a: int, b: int) -> int {
    if a <= b {
        a
    } else {
        b
    }
}

pub open spec fn max_int(a: int, b: int) -> int {
    if a >= b {
        a
    } else {
        b
    }
}

/// The first column of the triangle's bounding box, clipped to the image.
pub open spec fn box_min_x(v1x: int, v2x: int, v3x: int) -> int {
    max_int(min_int(min_int(v1x, v2x), v3x), 0)
}

/// One past the last column scanned: the rightmost vertex, clipped to the image.
pub open spec fn box_max_x(width: int, v1x: int, v2x: int, v3x: int) -> int {
    min_int(max_int(max_int(v1x, v2x), v3x), width)
}

/// Whether the pixel `(px, py)` lies in the scanned box of the triangle.
pub open spec fn in_box(
    width: int,
    height: int,
    px: int,
    py: int,
    v1x: int,
    v1y: int,
    v2x: int,
    v2y: int,
    v3x: int,
    v3y: int,
) -> bool {
    &&& box_min_x(v1x, v2x, v3x) <= px < box_max_x(width, v1x, v2x, v3x)
    &&& box_min_x(v1y, v2y, v3y) <= py < box_max_x(height, v1y, v2y, v3y)
}

/// Whether rasterizing the triangle into a `width` by `height` image draws the
/// pixel `(px, py)`: it lies in the scanned box and inside the triangle.
pub open spec fn covers(
    width: int,
    height: int,
    px: int,
    py: int,
    v1x: int,
    v1y: int,
    v2x: int,
    v2y: int,
    v3x: int,
    v3y: int,
) -> bool {
    &&& in_box(width, height, px, py, v1x, v1y, v2x, v2y, v3x, v3y)
    &&& barycentric(px, py, v1x, v1y, v2x, v2y, v3x, v3y) is Some
}

/// The `i32` arithmetic of rasterizing the triangle does not overflow: that of
/// the barycentric coordinates at every scanned pixel, and that of the index
/// `py * width + px` of every drawn pixel.
pub open spec fn raster_fits(
    width: int,
    height: int,
    v1x: int,
    v1y: int,
    v2x: int,
    v2y: int,
    v3x: int,
    v3y: int,
) -> bool {
    &&& 0 <= width <= i32::MAX
    &&& 0 <= height <= i32::MAX
    &&& forall|px: int, py: int|
        #![trigger bary_fits(px, py, v1x, v1y, v2x, v2y, v3x, v3y)]
        in_box(width, height, px, py, v1x, v1y, v2x, v2y, v3x, v3y) ==> bary_fits(
            px,
            py,
            v1x,
            v1y,
            v2x,
            v2y,
            v3x,
            v3y,
        )
    &&& forall|px: int, py: int|
        #![trigger covers(width, height, px, py, v1x, v1y, v2x, v2y, v3x, v3y)]
        covers(width, height, px, py, v1x, v1y, v2x, v2y, v3x, v3y) ==> py * width + px
            <= i32::MAX
}

/// A drawn pixel: its position, its index `y * width + x` in the image, and
/// its barycentric coordinates `(u, v, d)`.
#[derive(Debug, Clone, Copy)]
pub struct Fragment {
    pub x: i32,
    pub y: i32,
    pub index: usize,
    pub u: i32,
    pub v: i32,
    pub d: i32,
}

/// `f` is a pixel drawn by the triangle, with its index and coordinates.
pub open spec fn fragment_of(
    f: Fragment,
    width: int,
    height: int,
    v1x: int,
    v1y: int,
    v2x: int,
    v2y: int,
    v3x: int,
    v3y: int,
) -> bool {
    &&& covers(width, height, f.x as int, f.y as int, v1x, v1y, v2x, v2y, v3x, v3y)
    &&& f.index == f.y * width + f.x
    &&& barycentric(f.x as int, f.y as int, v1x, v1y, v2x, v2y, v3x, v3y) == Some(
        (f.u as int, f.v as int, f.d as int),
    )
}

fn min_i32(a: i32, b: i32) -> (r: i32)
    ensures
        r == min_int(a as int, b as int),
{
    if a <= b {
        a
    } else {
        b
    }
}

fn max_i32(a: i32, b: i32) -> (r: i32)
    ensures
        r == max_int(a as int, b as int),
{
    if a >= b {
        a
    } else {
        b
    }
}

proof fn lemma_row_major_order(px: int, py: int, x: int, y: int, width: int)
    requires
        0 <= px < width,
        0 <= x,
        py < y || (py == y && px < x),
    ensures
        py * width + px < y * width + x,
{
    if py < y {
        assert(py * width + width <= y * width) by (nonlinear_arith)
            requires
                py < y,
                width > 0,
        ;
    }
}

proof fn lemma_index_order_is_row_major(x1: int, y1: int, x2: int, y2: int, width: int)
    requires
        0 <= x1 < width,
        0 <= x2 < width,
        y1 * width + x1 < y2 * width + x2,
    ensures
        y1 < y2 || (y1 == y2 && x1 < x2),
{
    if y1 > y2 {
        assert(y2 * width + width <= y1 * width) by (nonlinear_arith)
            requires
                y2 < y1,
                width > 0,
        ;
    }
    if y1 == y2 {
        assert(y1 * width == y2 * width);
    }
}

/// The pixels that the triangle `v1 v2 v3` draws into a `width` by `height`
/// image, row by row, each with its barycentric coordinates.
pub fn triangle_fragments(
    width: usize,
    height: usize,
    v1x: i32,
    v1y: i32,
    v2x: i32,
    v2y: i32,
    v3x: i32,
    v3y: i32,
) -> (frags: Vec<Fragment>)
    requires
        raster_fits(width as int, height as int, v1x as int, v1y as int, v2x as int, v2y as int, v3x as int, v3y as int),
    ensures
        forall|k: int|
            0 <= k < frags@.len() ==> fragment_of(
                #[trigger] frags@[k],
                width as int,
                height as int,
                v1x as int,
                v1y as int,
                v2x as int,
                v2y as int,
                v3x as int,
                v3y as int,
            ),
        forall|k1: int, k2: int|
            0 <= k1 < k2 < frags@.len() ==> #[trigger] frags@[k1].index < #[trigger] frags@[k2].index,
        forall|k1: int, k2: int|
            0 <= k1 < k2 < frags@.len() ==> #[trigger] frags@[k1].y < #[trigger] frags@[k2].y
                || (frags@[k1].y == frags@[k2].y && frags@[k1].x < frags@[k2].x),
        forall|px: int, py: int|
            #[trigger] covers(width as int, height as int, px, py, v1x as int, v1y as int, v2x as int, v2y as int, v3x as int, v3y as int)
                ==> exists|k: int| 0 <= k < frags@.len() && #[trigger] frags@[k].x == px && frags@[k].y == py,
{
    let ghost w = width as int;
    let ghost h = height as int;
    let iwidth = width as i32;
    let iheight = height as i32;

    // bounding box clip
    let minx = max_i32(min_i32(min_i32(v1x, v2x), v3x), 0);
    let maxx = min_i32(max_i32(max_i32(v1x, v2x), v3x), iwidth);
    let miny = max_i32(min_i32(min_i32(v1y, v2y), v3y), 0);
    let maxy = min_i32(max_i32(max_i32(v1y, v2y), v3y), iheight);
    let mut frags: Vec<Fragment> = Vec::new();
    if miny >= maxy || minx >= maxx {
        return frags;
    }
    let mut y = miny;
    while y < maxy
        invariant
            raster_fits(w, h, v1x as int, v1y as int, v2x as int, v2y as int, v3x as int, v3y as int),
            w == width,
            h == height,
            iwidth == w,
            minx == box_min_x(v1x as int, v2x as int, v3x as int),
            maxx == box_max_x(w, v1x as int, v2x as int, v3x as int),
            miny == box_min_x(v1y as int, v2y as int, v3y as int),
            maxy == box_max_x(h, v1y as int, v2y as int, v3y as int),
            0 <= minx < maxx,
            miny <= y <= maxy,
            forall|k: int|
                0 <= k < frags@.len() ==> fragment_of(#[trigger] frags@[k], w, h, v1x as int, v1y as int, v2x as int, v2y as int, v3x as int, v3y as int)
                    && frags@[k].y < y,
            forall|k1: int, k2: int|
                0 <= k1 < k2 < frags@.len() ==> #[trigger] frags@[k1].index < #[trigger] frags@[k2].index,
            forall|px: int, py: int|
                #[trigger] covers(w, h, px, py, v1x as int, v1y as int, v2x as int, v2y as int, v3x as int, v3y as int) && py < y
                    ==> exists|k: int| 0 <= k < frags@.len() && #[trigger] frags@[k].x == px && frags@[k].y == py,
        decreases maxy - y,
    {
        let mut x = minx;
        while x < maxx
            invariant
                raster_fits(w, h, v1x as int, v1y as int, v2x as int, v2y as int, v3x as int, v3y as int),
                w == width,
                h == height,
                iwidth == w,
                minx == box_min_x(v1x as int, v2x as int, v3x as int),
                maxx == box_max_x(w, v1x as int, v2x as int, v3x as int),
                miny == box_min_x(v1y as int, v2y as int, v3y as int),
                maxy == box_max_x(h, v1y as int, v2y as int, v3y as int),
                0 <= minx < maxx,
                miny <= y < maxy,
                minx <= x <= maxx,
                forall|k: int|
                    0 <= k < frags@.len() ==> fragment_of(#[trigger] frags@[k], w, h, v1x as int, v1y as int, v2x as int, v2y as int, v3x as int, v3y as int)
                        && (frags@[k].y < y || (frags@[k].y == y && frags@[k].x < x)),
                forall|k1: int, k2: int|
                    0 <= k1 < k2 < frags@.len() ==> #[trigger] frags@[k1].index < #[trigger] frags@[k2].index,
                forall|px: int, py: int|
                    #[trigger] covers(w, h, px, py, v1x as int, v1y as int, v2x as int, v2y as int, v3x as int, v3y as int) && (py < y || (py == y && px < x))
                        ==> exists|k: int| 0 <= k < frags@.len() && #[trigger] frags@[k].x == px && frags@[k].y == py,
            decreases maxx - x,
        {
            proof {
                assert(in_box(w, h, x as int, y as int, v1x as int, v1y as int, v2x as int, v2y as int, v3x as int, v3y as int));
                assert(bary_fits(x as int, y as int, v1x as int, v1y as int, v2x as int, v2y as int, v3x as int, v3y as int));
            }
            let ghost old_frags = frags@;
            match barycentric_coordinates(x, y, v1x, v1y, v2x, v2y, v3x, v3y) {
                Some((u, v, d)) => {
                    proof {
                        assert(covers(w, h, x as int, y as int, v1x as int, v1y as int, v2x as int, v2y as int, v3x as int, v3y as int));
                    }
                    let index = (y * iwidth + x) as usize;
                    let f = Fragment { x, y, index, u, v, d };
                    proof {
                        assert forall|k: int| 0 <= k < old_frags.len() implies old_frags[k].index < index by {
                            let g = old_frags[k];
                            lemma_row_major_order(g.x as int, g.y as int, x as int, y as int, w);
                        }
                    }
                    frags.push(f);
                    proof {
                        assert(frags@[frags@.len() - 1] == f);
                        assert forall|px: int, py: int|
                            #[trigger] covers(w, h, px, py, v1x as int, v1y as int, v2x as int, v2y as int, v3x as int, v3y as int) && (py < y || (py == y && px < x + 1))
                            implies exists|k: int| 0 <= k < frags@.len() && #[trigger] frags@[k].x == px && frags@[k].y == py by {
                            if py == y && px == x {
                                assert(frags@[frags@.len() - 1].x == px);
                            } else {
                                let k = choose|k: int| 0 <= k < old_frags.len() && #[trigger] old_frags[k].x == px && old_frags[k].y == py;
                                assert(frags@[k] == old_frags[k]);
                            }
                        }
                    }
                },
                None => {
                    proof {
                        assert forall|px: int, py: int|
                            #[trigger] covers(w, h, px, py, v1x as int, v1y as int, v2x as int, v2y as int, v3x as int, v3y as int) && (py < y || (py == y && px < x + 1))
                            implies exists|k: int| 0 <= k < frags@.len() && #[trigger] frags@[k].x == px && frags@[k].y == py by {
                            if py == y && px == x {
                                assert(false);
                            }
                        }
                    }
                },
            }
            x = x + 1;
        }
        proof {
            assert forall|px: int, py: int|
                #[trigger] covers(w, h, px, py, v1x as int, v1y as int, v2x as int, v2y as int, v3x as int, v3y as int) && py < y + 1
                implies exists|k: int| 0 <= k < frags@.len() && #[trigger] frags@[k].x == px && frags@[k].y == py by {
                if py == y {
                    assert(px < x);
                }
            }
        }
        y = y + 1;
    }
    proof {
        assert forall|px: int, py: int|
            #[trigger] covers(w, h, px, py, v1x as int, v1y as int, v2x as int, v2y as int, v3x as int, v3y as int)
            implies exists|k: int| 0 <= k < frags@.len() && #[trigger] frags@[k].x == px && frags@[k].y == py by {
            assert(py < y);
        }
        assert forall|k1: int, k2: int| 0 <= k1 < k2 < frags@.len() implies #[trigger] frags@[k1].y < #[trigger] frags@[k2].y
            || (frags@[k1].y == frags@[k2].y && frags@[k1].x < frags@[k2].x) by {
            let f1 = frags@[k1];
            let f2 = frags@[k2];
            assert(fragment_of(f1, w, h, v1x as int, v1y as int, v2x as int, v2y as int, v3x as int, v3y as int));
            assert(fragment_of(f2, w, h, v1x as int, v1y as int, v2x as int, v2y as int, v3x as int, v3y as int));
            assert(f1.index < f2.index);
            lemma_index_order_is_row_major(f1.x as int, f1.y as int, f2.x as int, f2.y as int, w);
        }
    }
    frags
}

/// Whether the triangle draws the pixel at index `i` of a `width` by `height`
/// image stored row by row.
pub open spec fn drawn(
    width: int,
    height: int,
    i: int,
    v1x: int,
    v1y: int,
    v2x: int,
    v2y: int,
    v3x: int,
    v3y: int,
) -> bool {
    &&& width > 0
    &&& 0 <= i
    &&& covers(width, height, i % width, i / width, v1x, v1y, v2x, v2y, v3x, v3y)
}

/// The pixels `old` after filling the triangle with `color`.
pub open spec fn triangle_filled<P>(
    old: Seq<P>,
    width: int,
    height: int,
    v1x: int,
    v1y: int,
    v2x: int,
    v2y: int,
    v3x: int,
    v3y: int,
    color: P,
) -> Seq<P> {
    Seq::new(
        old.len(),
        |i: int|
            if drawn(width, height, i, v1x, v1y, v2x, v2y, v3x, v3y) {
                color
            } else {
                old[i]
            },
    )
}

/// Every pixel the triangle draws has an index below `len`.
pub open spec fn drawn_within(
    len: int,
    width: int,
    height: int,
    v1x: int,
    v1y: int,
    v2x: int,
    v2y: int,
    v3x: int,
    v3y: int,
) -> bool {
    forall|px: int, py: int|
        #![trigger covers(width, height, px, py, v1x, v1y, v2x, v2y, v3x, v3y)]
        covers(width, height, px, py, v1x, v1y, v2x, v2y, v3x, v3y) ==> py * width + px < len
}

/// Every pixel a triangle draws lies inside the image, so a buffer of at
/// least `width * height` pixels holds all of them.
pub proof fn lemma_image_holds_drawn(
    len: int,
    width: int,
    height: int,
    v1x: int,
    v1y: int,
    v2x: int,
    v2y: int,
    v3x: int,
    v3y: int,
)
    requires
        0 <= width,
        0 <= height,
        width * height <= len,
    ensures
        drawn_within(len, width, height, v1x, v1y, v2x, v2y, v3x, v3y),
{
    assert forall|px: int, py: int|
        #[trigger] covers(width, height, px, py, v1x, v1y, v2x, v2y, v3x, v3y) implies py * width + px < len by {
        assert(0 <= px < width && 0 <= py < height);
        assert(py * width + px < width * height) by (nonlinear_arith)
            requires
                0 <= px < width,
                0 <= py < height,
        ;
    }
}

/// Whether one of the first `k` fragments is at index `i`.
pub open spec fn hit(frags: Seq<Fragment>, k: int, i: int) -> bool {
    exists|j: int| 0 <= j < k && #[trigger] frags[j].index == i
}

proof fn lemma_row_major_index(px: int, py: int, width: int)
    requires
        0 <= px < width,
        0 <= py,
    ensures
        (py * width + px) % width == px,
        (py * width + px) / width == py,
{
    vstd::arithmetic::div_mod::lemma_fundamental_div_mod_converse(py * width + px, width, py, px);
}

/// Fills the triangle `v1 v2 v3` with `color` in the `width` by `height`
/// image `pixels`, stored row by row. A pixel is filled when it lies in the
/// triangle's bounding box (right and bottom edges of the box excluded) and
/// inside the triangle or on its edges.
pub fn rast_triangle_colored<P: Copy>(
    pixels: &mut [P],
    width: usize,
    height: usize,
    v1x: i32,
    v1y: i32,
    v2x: i32,
    v2y: i32,
    v3x: i32,
    v3y: i32,
    color: P,
)
    requires
        raster_fits(width as int, height as int, v1x as int, v1y as int, v2x as int, v2y as int, v3x as int, v3y as int),
        drawn_within(old(pixels)@.len() as int, width as int, height as int, v1x as int, v1y as int, v2x as int, v2y as int, v3x as int, v3y as int),
    ensures
        final(pixels)@ == triangle_filled(old(pixels)@, width as int, height as int, v1x as int, v1y as int, v2x as int, v2y as int, v3x as int, v3y as int, color),
{
    let ghost w = width as int;
    let ghost h = height as int;
    let ghost orig = pixels@;
    let frags = triangle_fragments(width, height, v1x, v1y, v2x, v2y, v3x, v3y);
    let n = frags.len();
    let mut k: usize = 0;
    while k < n
        invariant
            k <= n,
            n == frags@.len(),
            pixels@.len() == orig.len(),
            forall|j: int| 0 <= j < frags@.len() ==> fragment_of(#[trigger] frags@[j], w, h, v1x as int, v1y as int, v2x as int, v2y as int, v3x as int, v3y as int),
            drawn_within(orig.len() as int, w, h, v1x as int, v1y as int, v2x as int, v2y as int, v3x as int, v3y as int),
            forall|i: int| 0 <= i < orig.len() ==> #[trigger] pixels@[i] == if hit(frags@, k as int, i) { color } else { orig[i] },
        decreases n - k,
    {
        let f = frags[k];
        proof {
            assert(fragment_of(frags@[k as int], w, h, v1x as int, v1y as int, v2x as int, v2y as int, v3x as int, v3y as int));
            assert(covers(w, h, f.x as int, f.y as int, v1x as int, v1y as int, v2x as int, v2y as int, v3x as int, v3y as int));
        }
        pixels[f.index] = color;
        proof {
            assert forall|i: int| 0 <= i < orig.len() implies #[trigger] pixels@[i] == if hit(frags@, k + 1, i) { color } else { orig[i] } by {
                if i == f.index {
                    assert(frags@[k as int].index == i);
                } else {
                    if hit(frags@, k + 1, i) {
                        let j = choose|j: int| 0 <= j < k + 1 && #[trigger] frags@[j].index == i;
                        assert(hit(frags@, k as int, i));
                    }
                }
            }
        }
        k = k + 1;
    }
    proof {
        assert forall|i: int| 0 <= i < orig.len() implies hit(frags@, n as int, i) == drawn(w, h, i, v1x as int, v1y as int, v2x as int, v2y as int, v3x as int, v3y as int) by {
            if hit(frags@, n as int, i) {
                let j = choose|j: int| 0 <= j < n && #[trigger] frags@[j].index == i;
                let g = frags@[j];
                assert(fragment_of(g, w, h, v1x as int, v1y as int, v2x as int, v2y as int, v3x as int, v3y as int));
                lemma_row_major_index(g.x as int, g.y as int, w);
            }
            if drawn(w, h, i, v1x as int, v1y as int, v2x as int, v2y as int, v3x as int, v3y as int) {
                let px = i % w;
                let py = i / w;
                assert(covers(w, h, px, py, v1x as int, v1y as int, v2x as int, v2y as int, v3x as int, v3y as int));
                let j = choose|j: int| 0 <= j < frags@.len() && #[trigger] frags@[j].x == px && frags@[j].y == py;
                vstd::arithmetic::div_mod::lemma_fundamental_div_mod(i, w);
                assert(frags@[j].index == i) by (nonlinear_arith)
                    requires
                        frags@[j].index == py * w + px,
                        i == w * py + px,
                ;
                assert(hit(frags@, n as int, i));
            }
        }
        assert(pixels@ =~= triangle_filled(orig, w, h, v1x as int, v1y as int, v2x as int, v2y as int, v3x as int, v3y as int, color));
    }
}

/// Fills the quad `v1 v2 v3 v4` with `color`, as the two triangles
/// `v1 v2 v3` and `v1 v3 v4`, in that order.
pub fn rast_quad_colored<P: Copy>(
    pixels: &mut [P],
    width: usize,
    height: usize,
    v1x: i32,
    v1y: i32,
    v2x: i32,
    v2y: i32,
    v3x: i32,
    v3y: i32,
    v4x: i32,
    v4y: i32,
    color: P,
)
    requires
        raster_fits(width as int, height as int, v1x as int, v1y as int, v2x as int, v2y as int, v3x as int, v3y as int),
        raster_fits(width as int, height as int, v1x as int, v1y as int, v3x as int, v3y as int, v4x as int, v4y as int),
        drawn_within(old(pixels)@.len() as int, width as int, height as int, v1x as int, v1y as int, v2x as int, v2y as int, v3x as int, v3y as int),
        drawn_within(old(pixels)@.len() as int, width as int, height as int, v1x as int, v1y as int, v3x as int, v3y as int, v4x as int, v4y as int),
    ensures
        final(pixels)@ == triangle_filled(
            triangle_filled(old(pixels)@, width as int, height as int, v1x as int, v1y as int, v2x as int, v2y as int, v3x as int, v3y as int, color),
            width as int, height as int, v1x as int, v1y as int, v3x as int, v3y as int, v4x as int, v4y as int, color),
{
    rast_triangle_colored(pixels, width, height, v1x, v1y, v2x, v2y, v3x, v3y, color);
    rast_triangle_colored(pixels, width, height, v1x, v1y, v3x, v3y, v4x, v4y, color);
}

/// Filling a triangle a second time with the same color changes nothing.
pub proof fn lemma_fill_idempotent<P>(
    pixels: Seq<P>,
    width: int,
    height: int,
    v1x: int,
    v1y: int,
    v2x: int,
    v2y: int,
    v3x: int,
    v3y: int,
    color: P,
)
    ensures
        triangle_filled(triangle_filled(pixels, width, height, v1x, v1y, v2x, v2y, v3x, v3y, color), width, height, v1x, v1y, v2x, v2y, v3x, v3y, color)
            == triangle_filled(pixels, width, height, v1x, v1y, v2x, v2y, v3x, v3y, color),
{
    assert(triangle_filled(triangle_filled(pixels, width, height, v1x, v1y, v2x, v2y, v3x, v3y, color), width, height, v1x, v1y, v2x, v2y, v3x, v3y, color)
        =~= triangle_filled(pixels, width, height, v1x, v1y, v2x, v2y, v3x, v3y, color));
}

/// A degenerate triangle (its vertices on one line) draws nothing.
pub proof fn lemma_degenerate_draws_nothing<P>(
    pixels: Seq<P>,
    width: int,
    height: int,
    v1x: int,
    v1y: int,
    v2x: int,
    v2y: int,
    v3x: int,
    v3y: int,
    color: P,
)
    requires
        bary_d(v1x, v1y, v2x, v2y, v3x, v3y) == 0,
    ensures
        triangle_filled(pixels, width, height, v1x, v1y, v2x, v2y, v3x, v3y, color) == pixels,
{
    assert(triangle_filled(pixels, width, height, v1x, v1y, v2x, v2y, v3x, v3y, color) =~= pixels);
}

/// Filling two triangles with one color gives the same pixels in either order:
/// a pixel ends up with the color when either triangle draws it.
pub proof fn lemma_fill_union<P>(
    pixels: Seq<P>,
    width: int,
    height: int,
    a1x: int,
    a1y: int,
    a2x: int,
    a2y: int,
    a3x: int,
    a3y: int,
    b1x: int,
    b1y: int,
    b2x: int,
    b2y: int,
    b3x: int,
    b3y: int,
    color: P,
)
    ensures
        ({
            let both = triangle_filled(
                triangle_filled(pixels, width, height, a1x, a1y, a2x, a2y, a3x, a3y, color),
                width, height, b1x, b1y, b2x, b2y, b3x, b3y, color);
            &&& both == triangle_filled(
                triangle_filled(pixels, width, height, b1x, b1y, b2x, b2y, b3x, b3y, color),
                width, height, a1x, a1y, a2x, a2y, a3x, a3y, color)
            &&& both.len() == pixels.len()
            &&& forall|i: int| 0 <= i < pixels.len() ==> #[trigger] both[i] == if drawn(width, height, i, a1x, a1y, a2x, a2y, a3x, a3y)
                || drawn(width, height, i, b1x, b1y, b2x, b2y, b3x, b3y) {
                color
            } else {
                pixels[i]
            }
        }),
{
    assert(triangle_filled(
                triangle_filled(pixels, width, height, a1x, a1y, a2x, a2y, a3x, a3y, color),
                width, height, b1x, b1y, b2x, b2y, b3x, b3y, color) =~= triangle_filled(
                triangle_filled(pixels, width, height, b1x, b1y, b2x, b2y, b3x, b3y, color),
                width, height, a1x, a1y, a2x, a2y, a3x, a3y, color));
}

proof fn lemma_rotate_coordinates(
    px: int,
    py: int,
    v1x: int,
    v1y: int,
    v2x: int,
    v2y: int,
    v3x: int,
    v3y: int,
)
    ensures
        bary_d(v2x, v2y, v3x, v3y, v1x, v1y) == bary_d(v1x, v1y, v2x, v2y, v3x, v3y),
        bary_u(px, py, v3x, v3y, v1x, v1y) == bary_v(px, py, v1x, v1y, v3x, v3y),
        bary_v(px, py, v2x, v2y, v1x, v1y) == bary_d(v1x, v1y, v2x, v2y, v3x, v3y) - bary_u(px, py, v2x, v2y, v3x, v3y) - bary_v(px, py, v1x, v1y, v3x, v3y),
{
    assert(bary_d(v2x, v2y, v3x, v3y, v1x, v1y) == bary_d(v1x, v1y, v2x, v2y, v3x, v3y)) by (nonlinear_arith);
    assert(bary_u(px, py, v3x, v3y, v1x, v1y) == bary_v(px, py, v1x, v1y, v3x, v3y)) by (nonlinear_arith);
    let (ax, ay, bx, by, qx, qy) = (v1x - v3x, v1y - v3y, v2x - v3x, v2y - v3y, px - v3x, py - v3y);
    assert((qx - ax) * (ay - by) - (qy - ay) * (ax - bx) == (ax * by - ay * bx) - (qx * by - qy * bx) - (
    qx * (-ay) - qy * (-ax))) by (nonlinear_arith);
    assert(bary_v(px, py, v2x, v2y, v1x, v1y) == (qx - ax) * (ay - by) - (qy - ay) * (ax - bx));
    assert(bary_d(v1x, v1y, v2x, v2y, v3x, v3y) == ax * by - ay * bx);
    assert(bary_u(px, py, v2x, v2y, v3x, v3y) == qx * by - qy * bx);
    assert(bary_v(px, py, v1x, v1y, v3x, v3y) == qx * (-ay) - qy * (-ax));
}

proof fn lemma_swap_coordinates(
    px: int,
    py: int,
    v1x: int,
    v1y: int,
    v2x: int,
    v2y: int,
    v3x: int,
    v3y: int,
)
    ensures
        bary_d(v2x, v2y, v1x, v1y, v3x, v3y) == -bary_d(v1x, v1y, v2x, v2y, v3x, v3y),
        bary_u(px, py, v1x, v1y, v3x, v3y) == -bary_v(px, py, v1x, v1y, v3x, v3y),
        bary_v(px, py, v2x, v2y, v3x, v3y) == -bary_u(px, py, v2x, v2y, v3x, v3y),
{
    assert(bary_d(v2x, v2y, v1x, v1y, v3x, v3y) == -bary_d(v1x, v1y, v2x, v2y, v3x, v3y)) by (nonlinear_arith);
    assert(bary_u(px, py, v1x, v1y, v3x, v3y) == -bary_v(px, py, v1x, v1y, v3x, v3y)) by (nonlinear_arith);
    assert(bary_v(px, py, v2x, v2y, v3x, v3y) == -bary_u(px, py, v2x, v2y, v3x, v3y)) by (nonlinear_arith);
}

/// The pixels a triangle draws do not depend on the order of its vertices:
/// rotating them or swapping two of them (which reverses the winding) gives
/// the same image.
pub proof fn lemma_vertex_order_irrelevant<P>(
    pixels: Seq<P>,
    width: int,
    height: int,
    v1x: int,
    v1y: int,
    v2x: int,
    v2y: int,
    v3x: int,
    v3y: int,
    color: P,
)
    ensures
        triangle_filled(pixels, width, height, v2x, v2y, v3x, v3y, v1x, v1y, color)
            == triangle_filled(pixels, width, height, v1x, v1y, v2x, v2y, v3x, v3y, color),
        triangle_filled(pixels, width, height, v2x, v2y, v1x, v1y, v3x, v3y, color)
            == triangle_filled(pixels, width, height, v1x, v1y, v2x, v2y, v3x, v3y, color),
{
    assert forall|px: int, py: int|
        #![trigger barycentric(px, py, v1x, v1y, v2x, v2y, v3x, v3y)]
        (barycentric(px, py, v2x, v2y, v3x, v3y, v1x, v1y) is Some <==> barycentric(px, py, v1x, v1y, v2x, v2y, v3x, v3y) is Some)
        && (barycentric(px, py, v2x, v2y, v1x, v1y, v3x, v3y) is Some <==> barycentric(px, py, v1x, v1y, v2x, v2y, v3x, v3y) is Some) by {
        lemma_rotate_coordinates(px, py, v1x, v1y, v2x, v2y, v3x, v3y);
        lemma_swap_coordinates(px, py, v1x, v1y, v2x, v2y, v3x, v3y);
    }
    assert(triangle_filled(pixels, width, height, v2x, v2y, v3x, v3y, v1x, v1y, color)
        =~= triangle_filled(pixels, width, height, v1x, v1y, v2x, v2y, v3x, v3y, color)) by {
        assert forall|i: int| 0 <= i < pixels.len() implies
            drawn(width, height, i, v2x, v2y, v3x, v3y, v1x, v1y) == drawn(width, height, i, v1x, v1y, v2x, v2y, v3x, v3y) by {
            if width > 0 {
                let px = i % width;
                let py = i / width;
                assert(barycentric(px, py, v1x, v1y, v2x, v2y, v3x, v3y) is Some
                    <==> barycentric(px, py, v2x, v2y, v3x, v3y, v1x, v1y) is Some);
            }
        }
    }
    assert(triangle_filled(pixels, width, height, v2x, v2y, v1x, v1y, v3x, v3y, color)
        =~= triangle_filled(pixels, width, height, v1x, v1y, v2x, v2y, v3x, v3y, color)) by {
        assert forall|i: int| 0 <= i < pixels.len() implies
            drawn(width, height, i, v2x, v2y, v1x, v1y, v3x, v3y) == drawn(width, height, i, v1x, v1y, v2x, v2y, v3x, v3y) by {
            if width > 0 {
                let px = i % width;
                let py = i / width;
                assert(barycentric(px, py, v1x, v1y, v2x, v2y, v3x, v3y) is Some
                    <==> barycentric(px, py, v2x, v2y, v1x, v1y, v3x, v3y) is Some);
            }
        }
    }
}

/// The barycentric coordinates `(u, v, d)` of a point inside a triangle are
/// its weights: `d * p == u * v1 + v * v2 + (d - u - v) * v3` in both
/// coordinates, and the three weights `u`, `v` and `d - u - v` are each zero
/// or of the sign of `d`, which is not zero.
pub proof fn lemma_barycentric_weights(
    px: int,
    py: int,
    v1x: int,
    v1y: int,
    v2x: int,
    v2y: int,
    v3x: int,
    v3y: int,
)
    ensures
        barycentric(px, py, v1x, v1y, v2x, v2y, v3x, v3y) matches Some((u, v, d)) ==> {
            &&& d != 0
            &&& d * px == u * v1x + v * v2x + (d - u - v) * v3x
            &&& d * py == u * v1y + v * v2y + (d - u - v) * v3y
            &&& (d > 0 ==> u >= 0 && v >= 0 && d - u - v >= 0)
            &&& (d < 0 ==> u <= 0 && v <= 0 && d - u - v <= 0)
        },
{
    let (ax, ay, bx, by, qx, qy) = (v1x - v3x, v1y - v3y, v2x - v3x, v2y - v3y, px - v3x, py - v3y);
    let d = bary_d(v1x, v1y, v2x, v2y, v3x, v3y);
    let u = bary_u(px, py, v2x, v2y, v3x, v3y);
    let v = bary_v(px, py, v1x, v1y, v3x, v3y);
    assert(d == ax * by - ay * bx);
    assert(u == qx * by - qy * bx);
    assert(v == qy * ax - qx * ay) by (nonlinear_arith)
        requires
            v == qx * (v3y - v1y) - qy * (v3x - v1x),
            ax == v1x - v3x,
            ay == v1y - v3y,
    ;
    assert(u * ax + v * bx == d * qx) by (nonlinear_arith)
        requires
            d == ax * by - ay * bx,
            u == qx * by - qy * bx,
            v == qy * ax - qx * ay,
    ;
    assert(u * ay + v * by == d * qy) by (nonlinear_arith)
        requires
            d == ax * by - ay * bx,
            u == qx * by - qy * bx,
            v == qy * ax - qx * ay,
    ;
    assert(d * px == u * v1x + v * v2x + (d - u - v) * v3x) by (nonlinear_arith)
        requires
            u * ax + v * bx == d * qx,
            ax == v1x - v3x,
            bx == v2x - v3x,
            qx == px - v3x,
    ;
    assert(d * py == u * v1y + v * v2y + (d - u - v) * v3y) by (nonlinear_arith)
        requires
            u * ay + v * by == d * qy,
            ay == v1y - v3y,
            by == v2y - v3y,
            qy == py - v3y,
    ;
}

/// A point inside a triangle lies between its smallest and largest vertex
/// coordinate.
proof fn lemma_inside_hull(p: int, c1: int, c2: int, c3: int, u: int, v: int, d: int)
    requires
        d != 0,
        d * p == u * c1 + v * c2 + (d - u - v) * c3,
        d > 0 ==> u >= 0 && v >= 0 && d - u - v >= 0,
        d < 0 ==> u <= 0 && v <= 0 && d - u - v <= 0,
    ensures
        min_int(min_int(c1, c2), c3) <= p,
{
    let m = min_int(min_int(c1, c2), c3);
    let w = d - u - v;
    assert(m <= c1 && m <= c2 && m <= c3);
    if d > 0 {
        assert(u * c1 + v * c2 + w * c3 >= (u + v + w) * m) by (nonlinear_arith)
            requires
                u >= 0,
                v >= 0,
                w >= 0,
                m <= c1,
                m <= c2,
                m <= c3,
        ;
        assert(d * p >= d * m);
        assert(p >= m) by (nonlinear_arith)
            requires
                d > 0,
                d * p >= d * m,
        ;
    } else {
        assert(u * c1 + v * c2 + w * c3 <= (u + v + w) * m) by (nonlinear_arith)
            requires
                u <= 0,
                v <= 0,
                w <= 0,
                m <= c1,
                m <= c2,
                m <= c3,
        ;
        assert(d * p <= d * m);
        assert(p >= m) by (nonlinear_arith)
            requires
                d < 0,
                d * p <= d * m,
        ;
    }
}

/// Filling a triangle colors every pixel of the image that lies inside the
/// triangle or on its edges, except on the right and bottom edges of its
/// bounding box (columns from the largest vertex x on, rows from the largest
/// vertex y on): the pixel at `(px, py)`, index `py * width + px`, ends up
/// with the color.
pub proof fn lemma_inside_pixels_are_drawn<P>(
    pixels: Seq<P>,
    width: int,
    height: int,
    v1x: int,
    v1y: int,
    v2x: int,
    v2y: int,
    v3x: int,
    v3y: int,
    color: P,
    px: int,
    py: int,
)
    requires
        0 <= px < width,
        0 <= py < height,
        px < max_int(max_int(v1x, v2x), v3x),
        py < max_int(max_int(v1y, v2y), v3y),
        barycentric(px, py, v1x, v1y, v2x, v2y, v3x, v3y) is Some,
        py * width + px < pixels.len(),
    ensures
        triangle_filled(pixels, width, height, v1x, v1y, v2x, v2y, v3x, v3y, color)[py * width + px] == color,
{
    lemma_barycentric_weights(px, py, v1x, v1y, v2x, v2y, v3x, v3y);
    let (u, v, d) = barycentric(px, py, v1x, v1y, v2x, v2y, v3x, v3y).unwrap();
    lemma_inside_hull(px, v1x, v2x, v3x, u, v, d);
    lemma_inside_hull(py, v1y, v2y, v3y, u, v, d);
    assert(covers(width, height, px, py, v1x, v1y, v2x, v2y, v3x, v3y));
    lemma_row_major_index(px, py, width);
    assert(py * width + px >= 0) by (nonlinear_arith)
        requires
            0 <= px,
            0 <= py,
            0 < width,
    ;
    assert(drawn(width, height, py * width + px, v1x, v1y, v2x, v2y, v3x, v3y));
}

/// Filling a triangle changes only pixels inside the image that lie inside
/// the triangle or on its edges, left of its largest vertex x and above its
/// largest vertex y: every other pixel keeps its value.
pub proof fn lemma_drawn_pixels_are_inside<P>(
    pixels: Seq<P>,
    width: int,
    height: int,
    v1x: int,
    v1y: int,
    v2x: int,
    v2y: int,
    v3x: int,
    v3y: int,
    color: P,
    px: int,
    py: int,
)
    requires
        0 <= px < width,
        0 <= py,
        py * width + px < pixels.len(),
        !(py < height
            && px < max_int(max_int(v1x, v2x), v3x)
            && py < max_int(max_int(v1y, v2y), v3y)
            && barycentric(px, py, v1x, v1y, v2x, v2y, v3x, v3y) is Some),
    ensures
        triangle_filled(pixels, width, height, v1x, v1y, v2x, v2y, v3x, v3y, color)[py * width + px]
            == pixels[py * width + px],
{
    lemma_row_major_index(px, py, width);
    assert(py * width + px >= 0) by (nonlinear_arith)
        requires
            0 <= px,
            0 <= py,
            0 < width,
    ;
    assert(!drawn(width, height, py * width + px, v1x, v1y, v2x, v2y, v3x, v3y));
}

proof fn lemma_i32_product_bound(a: int, b: int)
    requires
        in_i32(a),
        in_i32(b),
    ensures
        -0x4000_0000_0000_0000 <= a * b <= 0x4000_0000_0000_0000,
{
    assert(-0x4000_0000_0000_0000 <= a * b <= 0x4000_0000_0000_0000) by (nonlinear_arith)
        requires
            -0x8000_0000 <= a <= 0x7fff_ffff,
            -0x8000_0000 <= b <= 0x7fff_ffff,
    ;
}

fn fits_i32(x: i128) -> (r: bool)
    ensures
        r == in_i32(x as int),
{
    -0x8000_0000 <= x && x <= 0x7fff_ffff
}

/// Whether computing the barycentric coordinates of `p` in `i32` arithmetic
/// overflows nowhere.
pub fn barycentric_in_range(
    px: i32,
    py: i32,
    v1x: i32,
    v1y: i32,
    v2x: i32,
    v2y: i32,
    v3x: i32,
    v3y: i32,
) -> (r: bool)
    ensures
        r == bary_fits(px as int, py as int, v1x as int, v1y as int, v2x as int, v2y as int, v3x as int, v3y as int),
{
    let a1 = v1x as i128 - v3x as i128;
    let a2 = v2y as i128 - v3y as i128;
    let a4 = v1y as i128 - v3y as i128;
    let a5 = v2x as i128 - v3x as i128;
    if !(fits_i32(a1) && fits_i32(a2) && fits_i32(a4) && fits_i32(a5)) {
        return false;
    }
    proof {
        lemma_i32_product_bound(a1 as int, a2 as int);
        lemma_i32_product_bound(a4 as int, a5 as int);
    }
    let a3 = a1 * a2;
    let a6 = a4 * a5;
    if !(fits_i32(a3) && fits_i32(a6)) {
        return false;
    }
    let d = a3 - a6;
    if !fits_i32(d) {
        return false;
    }
    if d == 0 {
        return true;
    }
    let b1 = px as i128 - v3x as i128;
    let b4 = py as i128 - v3y as i128;
    let c2 = v3y as i128 - v1y as i128;
    let c5 = v3x as i128 - v1x as i128;
    if !(fits_i32(b1) && fits_i32(b4) && fits_i32(c2) && fits_i32(c5)) {
        return false;
    }
    proof {
        lemma_i32_product_bound(b1 as int, a2 as int);
        lemma_i32_product_bound(b4 as int, a5 as int);
        lemma_i32_product_bound(b1 as int, c2 as int);
        lemma_i32_product_bound(b4 as int, c5 as int);
    }
    let b3 = b1 * a2;
    let b6 = b4 * a5;
    let c3 = b1 * c2;
    let c6 = b4 * c5;
    if !(fits_i32(b3) && fits_i32(b6) && fits_i32(c3) && fits_i32(c6)) {
        return false;
    }
    let u = b3 - b6;
    let v = c3 - c6;
    if !(fits_i32(u) && fits_i32(v)) {
        return false;
    }
    let e = d - u;
    fits_i32(e) && fits_i32(e - v)
}

/// Whether rasterizing the triangle into a `width` by `height` image keeps
/// all of its `i32` arithmetic free of overflow (`raster_fits`).
pub fn raster_in_range(
    width: usize,
    height: usize,
    v1x: i32,
    v1y: i32,
    v2x: i32,
    v2y: i32,
    v3x: i32,
    v3y: i32,
) -> (r: bool)
    ensures
        r == raster_fits(width as int, height as int, v1x as int, v1y as int, v2x as int, v2y as int, v3x as int, v3y as int),
{
    let ghost w = width as int;
    let ghost h = height as int;
    if width > 0x7fff_ffff || height > 0x7fff_ffff {
        return false;
    }
    let iwidth = width as i32;
    let iheight = height as i32;
    let minx = max_i32(min_i32(min_i32(v1x, v2x), v3x), 0);
    let maxx = min_i32(max_i32(max_i32(v1x, v2x), v3x), iwidth);
    let miny = max_i32(min_i32(min_i32(v1y, v2y), v3y), 0);
    let maxy = min_i32(max_i32(max_i32(v1y, v2y), v3y), iheight);
    if miny >= maxy || minx >= maxx {
        proof {
            assert forall|px: int, py: int|
                in_box(w, h, px, py, v1x as int, v1y as int, v2x as int, v2y as int, v3x as int, v3y as int)
                implies #[trigger] bary_fits(px, py, v1x as int, v1y as int, v2x as int, v2y as int, v3x as int, v3y as int) by {}
        }
        return true;
    }
    let mut y = miny;
    while y < maxy
        invariant
            0 <= w <= i32::MAX,
            0 <= h <= i32::MAX,
            w == width,
            h == height,
            iwidth == w,
            minx == box_min_x(v1x as int, v2x as int, v3x as int),
            maxx == box_max_x(w, v1x as int, v2x as int, v3x as int),
            miny == box_min_x(v1y as int, v2y as int, v3y as int),
            maxy == box_max_x(h, v1y as int, v2y as int, v3y as int),
            0 <= minx < maxx,
            miny <= y <= maxy,
            forall|px: int, py: int|
                in_box(w, h, px, py, v1x as int, v1y as int, v2x as int, v2y as int, v3x as int, v3y as int) && py < y
                    ==> #[trigger] bary_fits(px, py, v1x as int, v1y as int, v2x as int, v2y as int, v3x as int, v3y as int),
            forall|px: int, py: int|
                #[trigger] covers(w, h, px, py, v1x as int, v1y as int, v2x as int, v2y as int, v3x as int, v3y as int) && py < y
                    ==> py * w + px <= i32::MAX,
        decreases maxy - y,
    {
        let mut x = minx;
        while x < maxx
            invariant
                0 <= w <= i32::MAX,
                0 <= h <= i32::MAX,
                w == width,
                h == height,
                iwidth == w,
                minx == box_min_x(v1x as int, v2x as int, v3x as int),
                maxx == box_max_x(w, v1x as int, v2x as int, v3x as int),
                miny == box_min_x(v1y as int, v2y as int, v3y as int),
                maxy == box_max_x(h, v1y as int, v2y as int, v3y as int),
                0 <= minx < maxx,
                miny <= y < maxy,
                minx <= x <= maxx,
                forall|px: int, py: int|
                    in_box(w, h, px, py, v1x as int, v1y as int, v2x as int, v2y as int, v3x as int, v3y as int) && (py < y || (py == y && px < x))
                        ==> #[trigger] bary_fits(px, py, v1x as int, v1y as int, v2x as int, v2y as int, v3x as int, v3y as int),
                forall|px: int, py: int|
                    #[trigger] covers(w, h, px, py, v1x as int, v1y as int, v2x as int, v2y as int, v3x as int, v3y as int) && (py < y || (py == y && px < x))
                        ==> py * w + px <= i32::MAX,
            decreases maxx - x,
        {
            proof {
                assert(in_box(w, h, x as int, y as int, v1x as int, v1y as int, v2x as int, v2y as int, v3x as int, v3y as int));
            }
            if !barycentric_in_range(x, y, v1x, v1y, v2x, v2y, v3x, v3y) {
                return false;
            }
            if barycentric_coordinates(x, y, v1x, v1y, v2x, v2y, v3x, v3y).is_some() {
                proof {
                    assert(covers(w, h, x as int, y as int, v1x as int, v1y as int, v2x as int, v2y as int, v3x as int, v3y as int));
                }
                proof {
                    lemma_i32_product_bound(y as int, iwidth as int);
                }
                let index = y as i64 * iwidth as i64 + x as i64;
                if index > 0x7fff_ffff {
                    return false;
                }
            }
            x = x + 1;
        }
        y = y + 1;
    }
    true
}

} // verus!
