//! Retouching filters on RGB8 buffers (row-major, 3 bytes per pixel).
use vstd::prelude::*;
use vstd::slice::slice_to_vec;

verus! {

/// Upper bound on inpainting passes.
pub const MAX_INPAINT_PASSES: usize = 2000;

/// Working state of an inpainting pass: the image, the pending mask (non-zero
/// means "still to fill") and whether the pass has filled any pixel.
pub struct FillState {
    pub out: Seq<u8>,
    pub pending: Seq<u8>,
    pub changed: bool,
}

/// Sum of channel `c` over the 4-neighbours of pixel `i` that were resolved
/// when the pass began (`psnap`), read from `snap` (the image as it was when
/// the pass began).
pub open spec fn resolved_sum(snap: Seq<u8>, psnap: Seq<u8>, w: int, i: int, c: int) -> int {
    (if psnap[i - w] == 0 { snap[3 * (i - w) + c] as int } else { 0 }) + (if psnap[i + w]
        == 0 {
        snap[3 * (i + w) + c] as int
    } else {
        0
    }) + (if psnap[i - 1] == 0 { snap[3 * (i - 1) + c] as int } else { 0 }) + (if psnap[i
        + 1] == 0 {
        snap[3 * (i + 1) + c] as int
    } else {
        0
    })
}

/// Number of 4-neighbours of pixel `i` that were resolved when the pass began.
pub open spec fn resolved_count(psnap: Seq<u8>, w: int, i: int) -> int {
    (if psnap[i - w] == 0 { 1int } else { 0 }) + (if psnap[i + w] == 0 { 1int } else { 0 })
        + (if psnap[i - 1] == 0 { 1int } else { 0 }) + (if psnap[i + 1] == 0 { 1int } else { 0 })
}

/// Visiting pixel `i`: a pending pixel with a neighbour resolved before the
/// pass takes the (floored) mean of those neighbours and stops being pending.
pub open spec fn fill_pixel(st: FillState, snap: Seq<u8>, psnap: Seq<u8>, w: int, i: int) -> FillState {
    if st.pending[i] == 0 {
        st
    } else {
        let n = resolved_count(psnap, w, i);
        if n > 0 {
            FillState {
                out: st.out.update(3 * i, (resolved_sum(snap, psnap, w, i, 0) / n) as u8).update(
                    3 * i + 1,
                    (resolved_sum(snap, psnap, w, i, 1) / n) as u8,
                ).update(3 * i + 2, (resolved_sum(snap, psnap, w, i, 2) / n) as u8),
                pending: st.pending.update(i, 0),
                changed: true,
            }
        } else {
            st
        }
    }
}

/// Visiting the interior pixels of row `y` from column `x` on.
pub open spec fn fill_row(st: FillState, snap: Seq<u8>, psnap: Seq<u8>, w: int, y: int, x: int) -> FillState
    decreases w - x,
{
    if x + 1 >= w {
        st
    } else {
        fill_row(fill_pixel(st, snap, psnap, w, y * w + x), snap, psnap, w, y, x + 1)
    }
}

/// Visiting the interior rows from row `y` on.
pub open spec fn fill_rows(st: FillState, snap: Seq<u8>, psnap: Seq<u8>, w: int, h: int, y: int) -> FillState
    decreases h - y,
{
    if y + 1 >= h {
        st
    } else {
        fill_rows(fill_row(st, snap, psnap, w, y, 1), snap, psnap, w, h, y + 1)
    }
}

/// One full pass over the interior, starting from `out` and `pending`: it
/// reads values and resolved marks as they were when it began.
pub open spec fn fill_pass(out: Seq<u8>, pending: Seq<u8>, w: int, h: int) -> FillState {
    fill_rows(FillState { out, pending, changed: false }, out, pending, w, h, 1)
}

/// Up to `k` passes; stops after a pass that fills nothing.
pub open spec fn fill_passes(out: Seq<u8>, pending: Seq<u8>, w: int, h: int, k: nat) -> Seq<u8>
    decreases k,
{
    if k == 0 {
        out
    } else {
        let st = fill_pass(out, pending, w, h);
        if !st.changed {
            st.out
        } else {
            fill_passes(st.out, st.pending, w, h, (k - 1) as nat)
        }
    }
}

/// Number of passes asked for: at least one, at most `MAX_INPAINT_PASSES`.
pub open spec fn pass_budget(iterations: nat) -> nat {
    if iterations < 1 {
        1
    } else if iterations > MAX_INPAINT_PASSES {
        MAX_INPAINT_PASSES as nat
    } else {
        iterations
    }
}

/// The inpainted image.
pub open spec fn inpainted(rgb: Seq<u8>, mask: Seq<u8>, w: int, h: int, iterations: nat) -> Seq<u8> {
    fill_passes(rgb, mask, w, h, pass_budget(iterations))
}

/// A pass over row `y` from column `x` on changes nothing when no pixel of
/// the image is pending.
proof fn lemma_fill_row_idle(st: FillState, snap: Seq<u8>, psnap: Seq<u8>, w: int, h: int, y: int, x: int)
    requires
        1 <= y,
        y + 1 < h,
        1 <= x,
        forall|i: int| 0 <= i < w * h ==> st.pending[i] == 0,
    ensures
        fill_row(st, snap, psnap, w, y, x) == st,
    decreases w - x,
{
    if x + 1 < w {
        assert(y * w + x < w * h) by (nonlinear_arith)
            requires
                1 <= y,
                y + 1 < h,
                1 <= x,
                x + 1 < w,
        ;
        assert(0 <= y * w + x) by (nonlinear_arith)
            requires
                1 <= y,
                1 <= x,
                x + 1 < w,
        ;
        assert(fill_pixel(st, snap, psnap, w, y * w + x) == st);
        lemma_fill_row_idle(st, snap, psnap, w, h, y, x + 1);
    }
}

/// The passes over the rows from `y` on change nothing when no pixel is pending.
proof fn lemma_fill_rows_idle(st: FillState, snap: Seq<u8>, psnap: Seq<u8>, w: int, h: int, y: int)
    requires
        1 <= y,
        forall|i: int| 0 <= i < w * h ==> st.pending[i] == 0,
    ensures
        fill_rows(st, snap, psnap, w, h, y) == st,
    decreases h - y,
{
    if y + 1 < h {
        lemma_fill_row_idle(st, snap, psnap, w, h, y, 1);
        lemma_fill_rows_idle(st, snap, psnap, w, h, y + 1);
    }
}

/// Law: inpainting with an empty mask gives the image back unchanged.
pub proof fn lemma_inpaint_empty_mask(rgb: Seq<u8>, mask: Seq<u8>, w: int, h: int, iterations: nat)
    requires
        forall|i: int| 0 <= i < w * h ==> mask[i] == 0,
    ensures
        inpainted(rgb, mask, w, h, iterations) == rgb,
{
    let st = FillState { out: rgb, pending: mask, changed: false };
    lemma_fill_rows_idle(st, rgb, mask, w, h, 1);
    assert(fill_pass(rgb, mask, w, h) == st);
}

/// Channel `c` of every resolved pixel lies in `[lo, hi]`, and every pixel
/// whose channel `c` differs from `rgb` is resolved.
pub open spec fn fill_bounded(
    out: Seq<u8>,
    pending: Seq<u8>,
    rgb: Seq<u8>,
    n: int,
    c: int,
    lo: int,
    hi: int,
) -> bool {
    &&& out.len() == rgb.len()
    &&& forall|j: int| 0 <= j < n && #[trigger] pending[j] == 0 ==> lo <= out[3 * j + c] <= hi
    &&& forall|j: int| 0 <= j < n && #[trigger] out[3 * j + c] != rgb[3 * j + c] ==> pending[j] == 0
}

/// The floored mean of `n` values in `[lo, hi]` lies in `[lo, hi]`.
proof fn lemma_mean_in_range(s: int, n: int, lo: int, hi: int)
    requires
        1 <= n <= 4,
        n == 1 ==> lo <= s <= hi,
        n == 2 ==> 2 * lo <= s <= 2 * hi,
        n == 3 ==> 3 * lo <= s <= 3 * hi,
        n == 4 ==> 4 * lo <= s <= 4 * hi,
    ensures
        lo <= s / n <= hi,
{
    if n == 1 {
    } else if n == 2 {
        assert(lo <= s / 2 <= hi);
    } else if n == 3 {
        assert(lo <= s / 3 <= hi);
    } else {
        assert(lo <= s / 4 <= hi);
    }
}

/// Visiting one interior pixel keeps `fill_bounded`.
proof fn lemma_fill_pixel_bounded(
    st: FillState,
    snap: Seq<u8>,
    psnap: Seq<u8>,
    rgb: Seq<u8>,
    w: int,
    h: int,
    y: int,
    x: int,
    c: int,
    lo: int,
    hi: int,
)
    requires
        1 <= y,
        y + 1 < h,
        1 <= x,
        x + 1 < w,
        0 <= c < 3,
        0 <= lo,
        st.pending.len() >= w * h,
        psnap.len() >= w * h,
        rgb.len() >= 3 * (w * h),
        fill_bounded(st.out, st.pending, rgb, w * h, c, lo, hi),
        forall|j: int| 0 <= j < w * h && #[trigger] psnap[j] == 0 ==> lo <= snap[3 * j + c] <= hi,
    ensures
        fill_bounded(
            fill_pixel(st, snap, psnap, w, y * w + x).out,
            fill_pixel(st, snap, psnap, w, y * w + x).pending,
            rgb,
            w * h,
            c,
            lo,
            hi,
        ),
        fill_pixel(st, snap, psnap, w, y * w + x).pending.len() == st.pending.len(),
{
    lemma_interior_index(w, h, y, x);
    let i = y * w + x;
    let n = resolved_count(psnap, w, i);
    if st.pending[i] != 0 && n > 0 {
        let sum = resolved_sum(snap, psnap, w, i, c);
        assert(psnap[i - w] == 0 ==> lo <= snap[3 * (i - w) + c] <= hi);
        assert(psnap[i + w] == 0 ==> lo <= snap[3 * (i + w) + c] <= hi);
        assert(psnap[i - 1] == 0 ==> lo <= snap[3 * (i - 1) + c] <= hi);
        assert(psnap[i + 1] == 0 ==> lo <= snap[3 * (i + 1) + c] <= hi);
        assert(n == 1 ==> lo <= sum <= hi);
        assert(n == 2 ==> 2 * lo <= sum <= 2 * hi);
        assert(n == 3 ==> 3 * lo <= sum <= 3 * hi);
        assert(n == 4 ==> 4 * lo <= sum <= 4 * hi);
        lemma_mean_in_range(sum, n, lo, hi);
        let nst = fill_pixel(st, snap, psnap, w, i);
        assert(nst.out[3 * i + c] == (sum / n) as u8);
        assert forall|j: int| 0 <= j < w * h && #[trigger] nst.pending[j] == 0 implies lo <= nst.out[3
            * j + c] <= hi by {
            if j != i {
                assert(nst.out[3 * j + c] == st.out[3 * j + c]);
            }
        }
        assert forall|j: int|
            0 <= j < w * h && #[trigger] nst.out[3 * j + c] != rgb[3 * j + c] implies nst.pending[j]
                == 0 by {
            if j != i {
                assert(nst.out[3 * j + c] == st.out[3 * j + c]);
            }
        }
    }
}

/// Visiting row `y` from column `x` on keeps `fill_bounded`.
proof fn lemma_fill_row_bounded(
    st: FillState,
    snap: Seq<u8>,
    psnap: Seq<u8>,
    rgb: Seq<u8>,
    w: int,
    h: int,
    y: int,
    x: int,
    c: int,
    lo: int,
    hi: int,
)
    requires
        1 <= y,
        y + 1 < h,
        1 <= x,
        0 <= c < 3,
        0 <= lo,
        st.pending.len() >= w * h,
        psnap.len() >= w * h,
        rgb.len() >= 3 * (w * h),
        fill_bounded(st.out, st.pending, rgb, w * h, c, lo, hi),
        forall|j: int| 0 <= j < w * h && #[trigger] psnap[j] == 0 ==> lo <= snap[3 * j + c] <= hi,
    ensures
        fill_bounded(
            fill_row(st, snap, psnap, w, y, x).out,
            fill_row(st, snap, psnap, w, y, x).pending,
            rgb,
            w * h,
            c,
            lo,
            hi,
        ),
        fill_row(st, snap, psnap, w, y, x).pending.len() == st.pending.len(),
    decreases w - x,
{
    if x + 1 < w {
        lemma_fill_pixel_bounded(st, snap, psnap, rgb, w, h, y, x, c, lo, hi);
        lemma_fill_row_bounded(
            fill_pixel(st, snap, psnap, w, y * w + x),
            snap,
            psnap,
            rgb,
            w,
            h,
            y,
            x + 1,
            c,
            lo,
            hi,
        );
    }
}

/// Visiting the rows from `y` on keeps `fill_bounded`.
proof fn lemma_fill_rows_bounded(
    st: FillState,
    snap: Seq<u8>,
    psnap: Seq<u8>,
    rgb: Seq<u8>,
    w: int,
    h: int,
    y: int,
    c: int,
    lo: int,
    hi: int,
)
    requires
        1 <= y,
        0 <= c < 3,
        0 <= lo,
        st.pending.len() >= w * h,
        psnap.len() >= w * h,
        rgb.len() >= 3 * (w * h),
        fill_bounded(st.out, st.pending, rgb, w * h, c, lo, hi),
        forall|j: int| 0 <= j < w * h && #[trigger] psnap[j] == 0 ==> lo <= snap[3 * j + c] <= hi,
    ensures
        fill_bounded(
            fill_rows(st, snap, psnap, w, h, y).out,
            fill_rows(st, snap, psnap, w, h, y).pending,
            rgb,
            w * h,
            c,
            lo,
            hi,
        ),
        fill_rows(st, snap, psnap, w, h, y).pending.len() == st.pending.len(),
    decreases h - y,
{
    if y + 1 < h {
        lemma_fill_row_bounded(st, snap, psnap, rgb, w, h, y, 1, c, lo, hi);
        lemma_fill_rows_bounded(
            fill_row(st, snap, psnap, w, y, 1),
            snap,
            psnap,
            rgb,
            w,
            h,
            y + 1,
            c,
            lo,
            hi,
        );
    }
}

/// Up to `k` passes keep `fill_bounded`.
proof fn lemma_fill_passes_bounded(
    out: Seq<u8>,
    pending: Seq<u8>,
    rgb: Seq<u8>,
    w: int,
    h: int,
    k: nat,
    c: int,
    lo: int,
    hi: int,
)
    requires
        0 <= c < 3,
        0 <= lo,
        pending.len() >= w * h,
        rgb.len() >= 3 * (w * h),
        fill_bounded(out, pending, rgb, w * h, c, lo, hi),
    ensures
        fill_passes(out, pending, w, h, k).len() == rgb.len(),
        forall|j: int|
            0 <= j < w * h && #[trigger] fill_passes(out, pending, w, h, k)[3 * j + c] != rgb[3 * j
                + c] ==> lo <= fill_passes(out, pending, w, h, k)[3 * j + c] <= hi,
    decreases k,
{
    if k > 0 {
        let st0 = FillState { out, pending, changed: false };
        lemma_fill_rows_bounded(st0, out, pending, rgb, w, h, 1, c, lo, hi);
        let st = fill_pass(out, pending, w, h);
        if st.changed {
            lemma_fill_passes_bounded(st.out, st.pending, rgb, w, h, (k - 1) as nat, c, lo, hi);
        }
    }
}

/// Law: inpainting fills only from kept pixels. If channel `c` of every
/// unmasked pixel lies in `[lo, hi]`, then every pixel whose channel `c`
/// was changed lies in `[lo, hi]` too: the removed region's own colours
/// never leak into the fill.
pub proof fn lemma_inpaint_uses_kept_pixels(
    rgb: Seq<u8>,
    mask: Seq<u8>,
    w: int,
    h: int,
    iterations: nat,
    c: int,
    lo: int,
    hi: int,
)
    requires
        0 <= c < 3,
        0 <= w,
        0 <= h,
        mask.len() >= w * h,
        rgb.len() >= 3 * (w * h),
        forall|j: int| 0 <= j < w * h && #[trigger] mask[j] == 0 ==> lo <= rgb[3 * j + c] <= hi,
    ensures
        forall|j: int|
            0 <= j < w * h && #[trigger] inpainted(rgb, mask, w, h, iterations)[3 * j + c] != rgb[3
                * j + c] ==> lo <= inpainted(rgb, mask, w, h, iterations)[3 * j + c] <= hi,
{
    if lo < 0 {
        // Values are bytes, so a negative bound adds nothing: use 0 instead.
        assert forall|j: int| 0 <= j < w * h && #[trigger] mask[j] == 0 implies 0 <= rgb[3 * j + c]
            <= hi by {}
        lemma_fill_passes_bounded(rgb, mask, rgb, w, h, pass_budget(iterations), c, 0, hi);
    } else {
        lemma_fill_passes_bounded(rgb, mask, rgb, w, h, pass_budget(iterations), c, lo, hi);
    }
}

/// The buffers are large enough for the pixels a pass reads and writes.
pub open spec fn inpaint_buffers_fit(rgb_len: int, mask_len: int, w: int, h: int) -> bool {
    (h >= 3 && w >= 3) ==> (mask_len >= w * h - 1 && rgb_len >= 3 * (w * h) - 3)
}

/// Index arithmetic for an interior pixel `(x, y)`: its four neighbours lie
/// inside a `w * h` image.
proof fn lemma_interior_index(w: int, h: int, y: int, x: int)
    requires
        1 <= y,
        y + 1 < h,
        1 <= x,
        x + 1 < w,
    ensures
        w <= y * w,
        y * w + x + w + 2 <= w * h,
        0 <= y * w <= w * h,
{
    assert(w <= y * w) by (nonlinear_arith)
        requires
            1 <= y,
            1 <= w,
    ;
    assert((y + 1) * w <= (h - 1) * w) by (nonlinear_arith)
        requires
            y + 1 <= h - 1,
            0 <= w,
    ;
    assert((y + 1) * w == y * w + w) by (nonlinear_arith);
    assert((h - 1) * w == w * h - w) by (nonlinear_arith);
}

/// Contribution of neighbour `j` to a fill: its three channels and a count of
/// one when it is resolved, zeros otherwise.
fn neighbour_part(snapshot: &Vec<u8>, resolved_marks: &Vec<u8>, j: usize) -> (r: (u32, u32, u32, u32))
    requires
        j < resolved_marks.len(),
        3 * j + 2 < snapshot.len(),
    ensures
        r.0 == (if resolved_marks@[j as int] == 0 { snapshot@[3 * j] as int } else { 0 }),
        r.1 == (if resolved_marks@[j as int] == 0 { snapshot@[3 * j + 1] as int } else { 0 }),
        r.2 == (if resolved_marks@[j as int] == 0 { snapshot@[3 * j + 2] as int } else { 0 }),
        r.3 == (if resolved_marks@[j as int] == 0 { 1int } else { 0 }),
{
    if resolved_marks[j] == 0 {
        let si = 3 * j;
        (snapshot[si] as u32, snapshot[si + 1] as u32, snapshot[si + 2] as u32, 1)
    } else {
        (0, 0, 0, 0)
    }
}

/// One step of a pass: visits pixel `i` as `fill_pixel` describes.
fn fill_pixel_at(
    out: &mut Vec<u8>,
    pending: &mut Vec<u8>,
    snapshot: &Vec<u8>,
    pend_snapshot: &Vec<u8>,
    w: usize,
    i: usize,
    changed: bool,
) -> (c: bool)
    requires
        1 <= w <= i - 1,
        i + w < old(pending).len(),
        pend_snapshot.len() == old(pending).len(),
        3 * (i + w) + 2 < snapshot.len(),
        old(out)@.len() == snapshot@.len(),
    ensures
        (FillState { out: final(out)@, pending: final(pending)@, changed: c }) == fill_pixel(
            FillState { out: old(out)@, pending: old(pending)@, changed },
            snapshot@,
            pend_snapshot@,
            w as int,
            i as int,
        ),
{
    if pending[i] == 0 {
        return changed;
    }
    let a = neighbour_part(snapshot, pend_snapshot, i - w);
    let b = neighbour_part(snapshot, pend_snapshot, i + w);
    let l = neighbour_part(snapshot, pend_snapshot, i - 1);
    let rt = neighbour_part(snapshot, pend_snapshot, i + 1);
    let n = a.3 + b.3 + l.3 + rt.3;
    if n == 0 {
        return changed;
    }
    let s0 = a.0 + b.0 + l.0 + rt.0;
    let s1 = a.1 + b.1 + l.1 + rt.1;
    let s2 = a.2 + b.2 + l.2 + rt.2;
    let oi = 3 * i;
    out.set(oi, (s0 / n) as u8);
    out.set(oi + 1, (s1 / n) as u8);
    out.set(oi + 2, (s2 / n) as u8);
    pending.set(i, 0);
    true
}

/// Diffusion inpainting: fills the masked region (`mask` non-zero) by
/// propagating the surrounding pixels inwards, one ring per pass. In a pass,
/// each still-pending interior pixel with at least one 4-neighbour resolved
/// before the pass takes the floored mean of those neighbours (their values
/// when the pass began) and becomes resolved, so the fill is made of kept
/// pixels only and moves inward one ring per pass; pixels on the image border are never
/// written. At most `iterations` passes run (at least one, at most
/// `MAX_INPAINT_PASSES`), stopping early after a pass that fills nothing.
pub fn inpaint(rgb: &[u8], width: u32, height: u32, mask: &[u8], iterations: usize) -> (r: Vec<
    u8,
>)
    requires
        height >= 1,
        height >= 3 ==> width >= 1,
        inpaint_buffers_fit(rgb@.len() as int, mask@.len() as int, width as int, height as int),
    ensures
        r@ == inpainted(rgb@, mask@, width as int, height as int, iterations as nat),
        r@.len() == rgb@.len(),
{
    let w = width as usize;
    let h = height as usize;
    let mask_len = mask.len();
    let rgb_len = rgb.len();
    let mut out = slice_to_vec(rgb);
    let mut pending = slice_to_vec(mask);
    let iters: usize = if iterations < 1 {
        1
    } else if iterations > MAX_INPAINT_PASSES {
        MAX_INPAINT_PASSES
    } else {
        iterations
    };
    let ghost goal = inpainted(rgb@, mask@, w as int, h as int, iterations as nat);
    let mut pass: usize = 0;
    while pass < iters
        invariant
            pass <= iters,
            iters == pass_budget(iterations as nat),
            w == width,
            h == height,
            h >= 1,
            h >= 3 ==> w >= 1,
            mask_len == mask@.len(),
            rgb_len == rgb@.len(),
            out@.len() == rgb@.len(),
            pending@.len() == mask@.len(),
            inpaint_buffers_fit(rgb@.len() as int, mask@.len() as int, w as int, h as int),
            goal == inpainted(rgb@, mask@, w as int, h as int, iterations as nat),
            fill_passes(out@, pending@, w as int, h as int, (iters - pass) as nat) == goal,
        decreases iters - pass,
    {
        let snapshot = slice_to_vec(out.as_slice());
        let pend_snapshot = slice_to_vec(pending.as_slice());
        let ghost start = FillState { out: out@, pending: pending@, changed: false };
        let ghost target = fill_pass(out@, pending@, w as int, h as int);
        let mut changed = false;
        let mut y: usize = 1;
        while y < h - 1
            invariant
                1 <= y <= h,
                mask_len == mask@.len(),
                rgb_len == rgb@.len(),
                w == width,
                h == height,
                h >= 3 ==> w >= 1,
                snapshot@.len() == rgb@.len(),
                pend_snapshot@ == start.pending,
                pend_snapshot@.len() == mask@.len(),
                out@.len() == rgb@.len(),
                pending@.len() == mask@.len(),
                inpaint_buffers_fit(rgb@.len() as int, mask@.len() as int, w as int, h as int),
                target == fill_pass(snapshot@, start.pending, w as int, h as int),
                fill_rows(
                    FillState { out: out@, pending: pending@, changed },
                    snapshot@,
                    pend_snapshot@,
                    w as int,
                    h as int,
                    y as int,
                ) == target,
            decreases h - y,
        {
            let mut x: usize = 1;
            while x < w - 1
                invariant
                    1 <= y,
                    y + 1 < h,
                    1 <= x <= w,
                    h >= 3 ==> w >= 1,
                    mask_len == mask@.len(),
                    rgb_len == rgb@.len(),
                    w == width,
                    h == height,
                    snapshot@.len() == rgb@.len(),
                    pend_snapshot@.len() == mask@.len(),
                    out@.len() == rgb@.len(),
                    pending@.len() == mask@.len(),
                    inpaint_buffers_fit(
                        rgb@.len() as int,
                        mask@.len() as int,
                        w as int,
                        h as int,
                    ),
                    fill_rows(
                        fill_row(
                            FillState { out: out@, pending: pending@, changed },
                            snapshot@,
                            pend_snapshot@,
                            w as int,
                            y as int,
                            x as int,
                        ),
                        snapshot@,
                        pend_snapshot@,
                        w as int,
                        h as int,
                        y + 1,
                    ) == target,
                decreases w - x,
            {
                proof {
                    lemma_interior_index(w as int, h as int, y as int, x as int);
                }
                let i = y * w + x;
                changed = fill_pixel_at(&mut out, &mut pending, &snapshot, &pend_snapshot, w, i, changed);
                x = x + 1;
            }
            y = y + 1;
        }
        if !changed {
            return out;
        }
        pass = pass + 1;
    }
    out
}

/// Start of the window of radius `r` around `v`, clipped at 0.
pub open spec fn clip_lo(v: int, r: int) -> int {
    if v - r < 0 {
        0
    } else {
        v - r
    }
}

/// End (exclusive) of the window of radius `r` around `v`, clipped at `n`.
pub open spec fn clip_hi(v: int, r: int, n: int) -> int {
    if v + r + 1 > n {
        n
    } else {
        v + r + 1
    }
}

/// Sum of channel `c` over columns `x0..x1` of row `y`.
pub open spec fn row_sum(rgb: Seq<u8>, w: int, y: int, x0: int, x1: int, c: int) -> int
    decreases x1 - x0,
{
    if x1 <= x0 {
        0
    } else {
        row_sum(rgb, w, y, x0, x1 - 1, c) + rgb[3 * (y * w + x1 - 1) + c] as int
    }
}

/// Sum of channel `c` over rows `y0..y1` and columns `x0..x1`.
pub open spec fn window_sum(rgb: Seq<u8>, w: int, y0: int, y1: int, x0: int, x1: int, c: int) -> int
    decreases y1 - y0,
{
    if y1 <= y0 {
        0
    } else {
        window_sum(rgb, w, y0, y1 - 1, x0, x1, c) + row_sum(rgb, w, y1 - 1, x0, x1, c)
    }
}

/// The floored mean of channel `c` over the square window of radius `r`
/// around pixel `(x, y)`, clipped to the `w * h` image.
pub open spec fn window_mean(rgb: Seq<u8>, w: int, h: int, x: int, y: int, c: int, r: int) -> u8 {
    let x0 = clip_lo(x, r);
    let x1 = clip_hi(x, r, w);
    let y0 = clip_lo(y, r);
    let y1 = clip_hi(y, r, h);
    (window_sum(rgb, w, y0, y1, x0, x1, c) / ((y1 - y0) * (x1 - x0))) as u8
}

/// The blurred value of byte `i` of an RGB8 image: byte `i` is channel
/// `i % 3` of pixel `i / 3`, in row-major order.
pub open spec fn blurred_byte(rgb: Seq<u8>, w: int, h: int, i: int, r: int) -> u8 {
    window_mean(rgb, w, h, (i / 3) % w, (i / 3) / w, i % 3, r)
}

proof fn lemma_pixel_in_image(w: int, h: int, x: int, y: int)
    requires
        0 <= x < w,
        0 <= y < h,
    ensures
        0 <= y * w + x < w * h,
{
    assert(y * w + x < w * h) by (nonlinear_arith)
        requires
            0 <= x < w,
            0 <= y < h,
    ;
    assert(0 <= y * w) by (nonlinear_arith)
        requires
            0 <= y,
            0 <= w,
    ;
}

/// The window mean (see `window_mean`) for a radius of at most 63.
pub fn window_mean_at(rgb: &[u8], w: usize, h: usize, x: usize, y: usize, c: usize, r: usize) -> (m:
    u8)
    requires
        x < w,
        y < h,
        c < 3,
        1 <= r <= 63,
        3 * (w * h) <= rgb.len(),
    ensures
        m == window_mean(rgb@, w as int, h as int, x as int, y as int, c as int, r as int),
{
    let x0: usize = if x < r {
        0
    } else {
        x - r
    };
    let x1: usize = if w - x < r + 1 {
        w
    } else {
        x + r + 1
    };
    let y0: usize = if y < r {
        0
    } else {
        y - r
    };
    let y1: usize = if h - y < r + 1 {
        h
    } else {
        y + r + 1
    };
    let mut total: u64 = 0;
    let mut ny = y0;
    while ny < y1
        invariant
            y0 <= ny <= y1 <= h,
            y1 - y0 <= 127,
            x0 < x1 <= w,
            x1 - x0 <= 127,
            c < 3,
            3 * (w * h) <= rgb.len(),
            total == window_sum(rgb@, w as int, y0 as int, ny as int, x0 as int, x1 as int, c as int),
            total <= 32385 * (ny - y0),
            ny - y0 <= 127,
        decreases y1 - ny,
    {
        let mut rs: u64 = 0;
        let mut nx = x0;
        while nx < x1
            invariant
                x0 <= nx <= x1 <= w,
                x1 - x0 <= 127,
                ny < h,
                c < 3,
                3 * (w * h) <= rgb.len(),
                rs == row_sum(rgb@, w as int, ny as int, x0 as int, nx as int, c as int),
                rs <= 255 * (nx - x0),
            decreases x1 - nx,
        {
            proof {
                lemma_pixel_in_image(w as int, h as int, nx as int, ny as int);
            }
            let p = ny * w + nx;
            rs = rs + rgb[3 * p + c] as u64;
            nx = nx + 1;
        }
        total = total + rs;
        ny = ny + 1;
    }
    assert((y1 - y0) * (x1 - x0) <= 127 * 127) by (nonlinear_arith)
        requires
            y1 - y0 <= 127,
            x1 - x0 <= 127,
            y0 <= y1,
            x0 <= x1,
    ;
    let count = ((y1 - y0) * (x1 - x0)) as u64;
    assert(count > 0) by (nonlinear_arith)
        requires
            count == (y1 - y0) * (x1 - x0),
            y0 < y1,
            x0 < x1,
    ;
    (total / count) as u8
}

/// Box blur of radius `radius` (at least 1) over an RGB8 image: every byte
/// of the `w * h` pixels becomes the floored mean of its channel over the
/// window around its pixel, clipped to the image; bytes past the image are
/// kept. The radius is at most 63, where the sums the blur works with stay
/// exact in single-precision arithmetic.
pub fn box_blur_radius(rgb: &[u8], w: usize, h: usize, radius: usize) -> (r: Vec<u8>)
    requires
        3 * (w * h) <= rgb.len(),
        radius <= 63,
    ensures
        r@.len() == rgb@.len(),
        forall|i: int|
            0 <= i < 3 * (w * h) ==> #[trigger] r@[i] == blurred_byte(
                rgb@,
                w as int,
                h as int,
                i,
                if radius < 1 { 1 } else { radius as int },
            ),
        forall|i: int| 3 * (w * h) <= i < rgb@.len() ==> #[trigger] r@[i] == rgb@[i],
{
    let rr: usize = if radius < 1 {
        1
    } else {
        radius
    };
    let mut out = slice_to_vec(rgb);
    let n = 3 * (w * h);
    let mut i: usize = 0;
    while i < n
        invariant
            n == 3 * (w * h) <= rgb.len(),
            out@.len() == rgb@.len(),
            1 <= rr <= 63,
            i <= n,
            forall|j: int| 0 <= j < i ==> #[trigger] out@[j] == blurred_byte(rgb@, w as int, h as int, j, rr as int),
            forall|j: int| i <= j < rgb@.len() ==> #[trigger] out@[j] == rgb@[j],
        decreases n - i,
    {
        let p = i / 3;
        let c = i % 3;
        assert(w > 0 && p < w * h) by (nonlinear_arith)
            requires
                i < 3 * (w * h),
                p == i / 3,
        ;
        let x = p % w;
        let y = p / w;
        assert(y < h) by (nonlinear_arith)
            requires
                p < w * h,
                y == p / w,
                w > 0,
        ;
        let m = window_mean_at(rgb, w, h, x, y, c, rr);
        out.set(i, m);
        i = i + 1;
    }
    out
}

} // verus!
