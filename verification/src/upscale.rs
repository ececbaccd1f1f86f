//! Upscaling of RGB buffers: the bicubic fallback used when no upscale model
//! is loaded, the final resize of a model's 4x output to the scale asked for,
//! and the tiles the model runs on.
use vstd::prelude::*;

verus! {

/// The scale the upscale models produce natively.
pub const NATIVE_SCALE: u32 = 4;

/// The sizes for which the resize's locality is stated: non-empty images of
/// fewer than 2^20 pixels a side, shrunk by at most 16 each way (so every
/// output pixel mixes at most a few dozen input pixels, and single-precision
/// rounding stays far below half a level).
pub open spec fn resize_local(w: int, h: int, nw: int, nh: int) -> bool {
    &&& 1 <= w < 0x100000
    &&& 1 <= h < 0x100000
    &&& 1 <= nw < 0x100000
    &&& 1 <= nh < 0x100000
    &&& w <= 16 * nw
    &&& h <= 16 * nh
}

/// Input row `r` of a `h`-row image lies near output row `y` of an `nh`-row
/// resize: within the Catmull-Rom filter's reach (two source rows, scaled by
/// the shrink factor) of the output row's centre, plus two rows of margin.
pub open spec fn near_row(h: int, nh: int, y: int, r: int) -> bool {
    let reach = 4 * (if h > nh { h } else { nh });
    &&& 2 * nh * (r + 2) >= (2 * y + 1) * h - reach
    &&& 2 * nh * (r - 2) <= (2 * y + 1) * h + reach
}

/// Every byte of the input rows near output row `y` (of a `w`-wide image
/// with `h` rows, resized to `nh` rows) is `p`.
pub open spec fn near_rows_are(buf: Seq<u8>, w: int, h: int, nh: int, y: int, p: u8) -> bool {
    forall|r: int, x: int|
        0 <= r < h && near_row(h, nh, y, r) && 0 <= x < 3 * w ==> #[trigger] buf[3 * w * r + x] == p
}

/// Every byte of row `y` of a `w`-wide image is `p`.
pub open spec fn row_is(buf: Seq<u8>, w: int, y: int, p: u8) -> bool {
    forall|x: int| 0 <= x < 3 * w ==> #[trigger] buf[3 * w * y + x] == p
}

/// `image::RgbImage::from_raw` followed by `image::imageops::resize` with
/// `FilterType::CatmullRom`, giving the resized pixels back as bytes
/// (`3 * nw * nh` of them). `from_raw` refuses a buffer shorter than
/// `3 * w * h` bytes, and then the result is `None`. The crate panics when
/// its intermediate buffer (`w x nh` pixels of four `f32`) or the result
/// would exceed `isize::MAX` bytes, which `requires` rules out. The pixel
/// values are not stated: the filter's kernel is computed with `f32::powi`,
/// whose precision std leaves to the platform, so equal inputs need not give
/// equal bytes everywhere. What is stated is where they come from: the resize
/// samples rows first (each output row mixes, with weights that sum to one,
/// the input rows within the filter's reach of its centre) and then columns,
/// rounding to the nearest level; so an output row whose nearby input rows
/// are all one level `p` is all `p` (for `resize_local` sizes).
#[verifier::external_body]
fn resize_rgb(rgb: &[u8], w: u32, h: u32, nw: u32, nh: u32) -> (r: Option<Vec<u8>>)
    requires
        16 * w * nh <= isize::MAX,
        3 * nw * nh <= isize::MAX,
    ensures
        r is Some <==> 3 * w * h <= rgb@.len(),
        r matches Some(v) ==> v@.len() == 3 * nw * nh,
        r matches Some(v) ==> forall|y: int, p: u8|
            resize_local(w as int, h as int, nw as int, nh as int) && 0 <= y < nh && near_rows_are(
                rgb@,
                w as int,
                h as int,
                nh as int,
                y,
                p,
            ) ==> #[trigger] row_is(v@, nw as int, y, p),
{
    match image::RgbImage::from_raw(w, h, rgb.to_vec()) {
        Some(img) => Some(image::imageops::resize(&img, nw, nh, image::imageops::FilterType::CatmullRom).into_raw()),
        None => None,
    }
}

/// Bicubic upscale of an RGB buffer by `scale`, the fallback when no model is
/// available: a `w * scale x h * scale` image, or the buffer unchanged when
/// it is too short for its dimensions.
pub fn simple_upscale(rgb: &[u8], w: u32, h: u32, scale: u32) -> (r: Vec<u8>)
    requires
        w * scale <= u32::MAX,
        h * scale <= u32::MAX,
        16 * w * (h * scale) <= isize::MAX,
        3 * (w * scale) * (h * scale) <= isize::MAX,
    ensures
        3 * w * h <= rgb@.len() ==> r@.len() == 3 * (w * scale) * (h * scale),
        3 * w * h > rgb@.len() ==> r@ == rgb@,
{
    let nw = w * scale;
    let nh = h * scale;
    match resize_rgb(rgb, w, h, nw, nh) {
        Some(v) => v,
        None => vstd::slice::slice_to_vec(rgb),
    }
}

/// The output scale asked for, clamped to 1..4.
pub open spec fn clamp_scale(target_scale: u32) -> u32 {
    if target_scale < 1 {
        1
    } else if target_scale > NATIVE_SCALE {
        NATIVE_SCALE
    } else {
        target_scale
    }
}

/// Whether the model's output can be used at scale `s`: as it is at scale 4
/// when it holds exactly a `4w x 4h` image, resized from `4w x 4h` at a
/// smaller scale when it holds at least that many bytes.
pub open spec fn native_usable(w: u32, h: u32, native: Option<Seq<u8>>, s: u32) -> bool {
    match native {
        Some(v) => if s == NATIVE_SCALE {
            v.len() == 3 * (4 * w) * (4 * h)
        } else {
            v.len() >= 3 * (4 * w) * (4 * h)
        },
        None => false,
    }
}

proof fn lemma_scaled_sizes(w: u32, h: u32, s: u32)
    requires
        1 <= s <= 4,
        256 * w * h <= isize::MAX,
    ensures
        w * s <= 4 * w,
        h * s <= 4 * h,
        16 * w * (h * s) <= isize::MAX,
        3 * (w * s) * (h * s) <= isize::MAX,
        16 * (4 * w) * (h * s) <= isize::MAX,
        3 * (4 * w) * (4 * h) <= isize::MAX,
{
    assert(w * s <= 4 * w) by (nonlinear_arith)
        requires 1 <= s <= 4;
    assert(h * s <= 4 * h) by (nonlinear_arith)
        requires 1 <= s <= 4;
    assert(16 * w * (h * s) <= 256 * w * h) by (nonlinear_arith)
        requires 1 <= s <= 4;
    assert(3 * (w * s) * (h * s) <= 256 * w * h) by (nonlinear_arith)
        requires 1 <= s <= 4;
    assert(16 * (4 * w) * (h * s) <= 256 * w * h) by (nonlinear_arith)
        requires 1 <= s <= 4;
    assert(3 * (4 * w) * (4 * h) <= 256 * w * h) by (nonlinear_arith);
}

/// Upscales an RGB buffer to `target_scale` (clamped to 1..4) given the
/// model's native 4x output, or `None` when no model ran. At scale 4 a usable
/// model output (see `native_usable`) is returned as it is; at a smaller
/// scale it is resized from `4w x 4h`; otherwise the bicubic upscale at the
/// asked scale is used. Whenever the model output is usable or the input holds
/// a whole `w x h` image, the result holds a whole `w*s x h*s` image; else the
/// input comes back unchanged.
///
/// Below scale 4 a usable model output is read as the `4w x 4h` image it is
/// and shrunk from there: each row of the result is made from the rows of
/// the model output around the same place of the picture, so a result row
/// whose surrounding band of the 4x image is one level is that level.
pub fn upscale_rgb_with(rgb: &[u8], w: u32, h: u32, native: Option<Vec<u8>>, target_scale: u32) -> (r: Vec<u8>)
    requires
        4 * w <= u32::MAX,
        4 * h <= u32::MAX,
        256 * w * h <= isize::MAX,
    ensures
        ({
            let s = clamp_scale(target_scale);
            let nv = match native {
                Some(v) => Some(v@),
                None => None,
            };
            &&& s == NATIVE_SCALE && native_usable(w, h, nv, s) ==> r@ == nv.unwrap()
            &&& native_usable(w, h, nv, s) || 3 * w * h <= rgb@.len() ==> r@.len() == 3 * (w * s) * (h
                * s)
            &&& !native_usable(w, h, nv, s) && 3 * w * h > rgb@.len() ==> r@ == rgb@
            &&& s < NATIVE_SCALE && native_usable(w, h, nv, s) && resize_local(
                4 * w,
                4 * h,
                w * s,
                h * s,
            ) ==> forall|y: int, p: u8|
                0 <= y < h * s && near_rows_are(nv.unwrap(), 4 * w, 4 * h, h * s, y, p) ==> #[trigger] row_is(
                    r@,
                    w * s,
                    y,
                    p,
                )
        }),
{
    let s: u32 = if target_scale < 1 {
        1
    } else if target_scale > NATIVE_SCALE {
        NATIVE_SCALE
    } else {
        target_scale
    };
    proof {
        lemma_scaled_sizes(w, h, s);
    }
    let w4: usize = 4 * w as usize;
    let h4: usize = 4 * h as usize;
    assert(3 * w4 * h4 <= isize::MAX);
    assert(h4 >= 1 ==> 3 * w4 <= 3 * w4 * h4) by (nonlinear_arith);
    let full: usize = if h4 == 0 {
        0
    } else {
        3 * w4 * h4
    };
    assert(full == 3 * (4 * w) * (4 * h)) by (nonlinear_arith)
        requires
            w4 == 4 * w,
            h4 == 4 * h,
            h4 == 0 ==> full == 0,
            h4 != 0 ==> full == 3 * w4 * h4,
    ;
    match native {
        Some(v) => {
            if s == NATIVE_SCALE {
                if v.len() == full {
                    assert(3 * (4 * w) * (4 * h) == 3 * (w * s) * (h * s)) by (nonlinear_arith)
                        requires s == 4;
                    return v;
                }
            } else if v.len() >= full {
                match resize_rgb(v.as_slice(), 4 * w, 4 * h, w * s, h * s) {
                    Some(x) => return x,
                    None => {},
                }
            }
        },
        None => {},
    }
    simple_upscale(rgb, w, h, s)
}

/// Side of the square tiles the model is run on.
pub const TILE_SIDE: usize = 256;

/// Overlap between neighbouring tiles: an eighth of a tile.
pub const TILE_OVERLAP: usize = 32;

/// Distance between the starts of neighbouring tiles.
pub const TILE_STEP: usize = 224;

/// A tile of the input image: its top-left pixel and its size.
#[derive(PartialEq, Eq, Structural, Debug, Clone, Copy)]
pub struct Tile {
    pub x: usize,
    pub y: usize,
    pub width: usize,
    pub height: usize,
}

/// The length of the tile starting at `s` along a side of length `n`: a
/// whole tile, or what is left of the side.
pub open spec fn tile_extent(n: int, s: int) -> int {
    if s + TILE_SIDE < n {
        TILE_SIDE as int
    } else {
        n - s
    }
}

/// The tiles of the band of rows starting at `y` (height `th`), from column `x` on.
pub open spec fn tile_row(w: int, y: int, th: int, x: int) -> Seq<Tile>
    decreases (if x < w { w - x } else { 0 }),
{
    if x < 0 || x >= w {
        seq![]
    } else {
        seq![Tile { x: x as usize, y: y as usize, width: tile_extent(w, x) as usize, height: th as usize }]
            + tile_row(w, y, th, x + TILE_STEP)
    }
}

/// The tiles of a `w x h` image from the band starting at row `y` on, row
/// by row, left to right: tiles start every `TILE_STEP` pixels, so
/// neighbours overlap by `TILE_OVERLAP`.
pub open spec fn tile_grid(w: int, h: int, y: int) -> Seq<Tile>
    decreases (if y < h { h - y } else { 0 }),
{
    if y < 0 || y >= h {
        seq![]
    } else {
        tile_row(w, y, tile_extent(h, y), 0) + tile_grid(w, h, y + TILE_STEP)
    }
}

fn row_tiles(out: &mut Vec<Tile>, w: u64, y: u64, th: u64)
    requires
        w <= u32::MAX,
        y <= u32::MAX,
        th <= u32::MAX,
    ensures
        final(out)@ == old(out)@ + tile_row(w as int, y as int, th as int, 0),
{
    let mut x: u64 = 0;
    while x < w
        invariant
            w <= u32::MAX,
            y <= u32::MAX,
            th <= u32::MAX,
            x <= w + TILE_STEP,
            out@ + tile_row(w as int, y as int, th as int, x as int) == old(out)@ + tile_row(
                w as int,
                y as int,
                th as int,
                0,
            ),
        decreases w + TILE_STEP - x,
    {
        let width: u64 = if x + 256 < w {
            256
        } else {
            w - x
        };
        let t = Tile { x: x as usize, y: y as usize, width: width as usize, height: th as usize };
        let ghost before = out@;
        out.push(t);
        assert(tile_row(w as int, y as int, th as int, x as int) == seq![t] + tile_row(
            w as int,
            y as int,
            th as int,
            x + TILE_STEP,
        ));
        assert(out@ + tile_row(w as int, y as int, th as int, x + TILE_STEP) =~= before + tile_row(
            w as int,
            y as int,
            th as int,
            x as int,
        ));
        x = x + 224;
    }
    assert(tile_row(w as int, y as int, th as int, x as int) == Seq::<Tile>::empty());
    assert(out@ =~= out@ + Seq::<Tile>::empty());
}

/// The tiles a `w x h` image is upscaled by (see `tile_grid`).
pub fn upscale_tiles(w: u32, h: u32) -> (r: Vec<Tile>)
    ensures
        r@ == tile_grid(w as int, h as int, 0),
{
    let wu = w as u64;
    let hu = h as u64;
    let mut out: Vec<Tile> = Vec::new();
    let mut y: u64 = 0;
    while y < hu
        invariant
            wu == w,
            hu == h,
            y <= hu + TILE_STEP,
            out@ + tile_grid(w as int, h as int, y as int) == tile_grid(w as int, h as int, 0),
        decreases hu + TILE_STEP - y,
    {
        let th: u64 = if y + 256 < hu {
            256
        } else {
            hu - y
        };
        let ghost before = out@;
        row_tiles(&mut out, wu, y, th);
        assert(tile_grid(w as int, h as int, y as int) == tile_row(w as int, y as int, th as int, 0)
            + tile_grid(w as int, h as int, y + TILE_STEP));
        assert(out@ + tile_grid(w as int, h as int, y + TILE_STEP) =~= before + tile_grid(
            w as int,
            h as int,
            y as int,
        ));
        y = y + 224;
    }
    assert(tile_grid(w as int, h as int, y as int) == Seq::<Tile>::empty());
    assert(out@ =~= out@ + Seq::<Tile>::empty());
    out
}

/// Whether a tile holds pixel `(px, py)`.
pub open spec fn tile_holds(t: Tile, px: int, py: int) -> bool {
    t.x <= px < t.x + t.width && t.y <= py < t.y + t.height
}

proof fn lemma_row_covers(w: int, y: int, th: int, x: int, px: int, py: int)
    requires
        0 <= x <= px < w,
        w <= u32::MAX,
        0 <= y <= py < y + th,
        y + th <= u32::MAX,
    ensures
        exists|t: Tile| tile_row(w, y, th, x).contains(t) && tile_holds(t, px, py),
    decreases w - x,
{
    let row = tile_row(w, y, th, x);
    let t = Tile { x: x as usize, y: y as usize, width: tile_extent(w, x) as usize, height: th as usize };
    assert(row == seq![t] + tile_row(w, y, th, x + TILE_STEP));
    if px < x + TILE_STEP {
        assert(row[0] == t);
        assert(row.contains(t));
        assert(tile_holds(t, px, py));
    } else {
        lemma_row_covers(w, y, th, x + TILE_STEP, px, py);
        let u = choose|u: Tile| tile_row(w, y, th, x + TILE_STEP).contains(u) && tile_holds(u, px, py);
        let rest = tile_row(w, y, th, x + TILE_STEP);
        let k = choose|k: int| 0 <= k < rest.len() && #[trigger] rest[k] == u;
        assert(row[k + 1] == u);
        assert(row.contains(u));
    }
}

proof fn lemma_grid_covers(w: int, h: int, y: int, px: int, py: int)
    requires
        0 <= px < w,
        w <= u32::MAX,
        0 <= y <= py < h,
        h <= u32::MAX,
    ensures
        exists|t: Tile| tile_grid(w, h, y).contains(t) && tile_holds(t, px, py),
    decreases h - y,
{
    let th = tile_extent(h, y);
    let grid = tile_grid(w, h, y);
    let row = tile_row(w, y, th, 0);
    assert(grid == row + tile_grid(w, h, y + TILE_STEP));
    if py < y + TILE_STEP {
        lemma_row_covers(w, y, th, 0, px, py);
        let u = choose|u: Tile| row.contains(u) && tile_holds(u, px, py);
        let k = choose|k: int| 0 <= k < row.len() && #[trigger] row[k] == u;
        assert(grid[k] == u);
        assert(grid.contains(u));
    } else {
        lemma_grid_covers(w, h, y + TILE_STEP, px, py);
        let rest = tile_grid(w, h, y + TILE_STEP);
        let u = choose|u: Tile| rest.contains(u) && tile_holds(u, px, py);
        let k = choose|k: int| 0 <= k < rest.len() && #[trigger] rest[k] == u;
        assert(grid[row.len() + k] == u);
        assert(grid.contains(u));
    }
}

/// Law: the tiles cover the image: every pixel lies in some tile, so every
/// output pixel is written by the model.
pub proof fn lemma_tiles_cover(w: u32, h: u32, px: int, py: int)
    requires
        0 <= px < w,
        0 <= py < h,
    ensures
        exists|t: Tile| tile_grid(w as int, h as int, 0).contains(t) && tile_holds(t, px, py),
{
    lemma_grid_covers(w as int, h as int, 0, px, py);
}

proof fn lemma_row_inside(w: int, y: int, th: int, x: int)
    requires
        0 <= x,
        w <= u32::MAX,
        0 <= y <= u32::MAX,
        0 <= th <= u32::MAX,
    ensures
        forall|k: int|
            0 <= k < tile_row(w, y, th, x).len() ==> {
                let t = #[trigger] tile_row(w, y, th, x)[k];
                &&& t.x + t.width <= w
                &&& 1 <= t.width <= TILE_SIDE
                &&& t.y == y && t.height == th
            },
    decreases (if x < w { w - x } else { 0 }),
{
    if x < w {
        lemma_row_inside(w, y, th, x + TILE_STEP);
        let row = tile_row(w, y, th, x);
        let rest = tile_row(w, y, th, x + TILE_STEP);
        assert forall|k: int| 0 <= k < row.len() implies {
            let t = #[trigger] row[k];
            &&& t.x + t.width <= w
            &&& 1 <= t.width <= TILE_SIDE
            &&& t.y == y && t.height == th
        } by {
            if k > 0 {
                assert(row[k] == rest[k - 1]);
            }
        }
    }
}

proof fn lemma_grid_inside(w: int, h: int, y: int)
    requires
        0 <= y,
        w <= u32::MAX,
        h <= u32::MAX,
    ensures
        forall|k: int|
            0 <= k < tile_grid(w, h, y).len() ==> {
                let t = #[trigger] tile_grid(w, h, y)[k];
                &&& t.x + t.width <= w && t.y + t.height <= h
                &&& 1 <= t.width <= TILE_SIDE && 1 <= t.height <= TILE_SIDE
            },
    decreases (if y < h { h - y } else { 0 }),
{
    if y < h {
        let th = tile_extent(h, y);
        let row = tile_row(w, y, th, 0);
        let rest = tile_grid(w, h, y + TILE_STEP);
        lemma_row_inside(w, y, th, 0);
        lemma_grid_inside(w, h, y + TILE_STEP);
        let grid = tile_grid(w, h, y);
        assert(grid == row + rest);
        assert forall|k: int| 0 <= k < grid.len() implies {
            let t = #[trigger] grid[k];
            &&& t.x + t.width <= w && t.y + t.height <= h
            &&& 1 <= t.width <= TILE_SIDE && 1 <= t.height <= TILE_SIDE
        } by {
            if k < row.len() {
                assert(grid[k] == row[k]);
            } else {
                assert(grid[k] == rest[k - row.len()]);
            }
        }
    }
}

/// Law: every tile is non-empty, at most `TILE_SIDE` on a side, and lies
/// inside the image.
pub proof fn lemma_tiles_inside(w: u32, h: u32)
    ensures
        forall|k: int|
            0 <= k < tile_grid(w as int, h as int, 0).len() ==> {
                let t = #[trigger] tile_grid(w as int, h as int, 0)[k];
                &&& t.x + t.width <= w && t.y + t.height <= h
                &&& 1 <= t.width <= TILE_SIDE && 1 <= t.height <= TILE_SIDE
            },
{
    lemma_grid_inside(w as int, h as int, 0);
}

} // verus!
