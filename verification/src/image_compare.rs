//! Pixel-level comparison of two images.
use vstd::prelude::*;
use crate::text::{file_extension, path_extension, lowercase, to_lowercase, str_eq, str_to_string, push_str};

verus! {

/// The path's extension names a supported image format (any case).
pub open spec fn image_named(path: Seq<char>) -> bool {
    path_extension(path) matches Some(e) && {
        let l = lowercase(e);
        l == "png"@ || l == "jpg"@ || l == "jpeg"@ || l == "gif"@ || l == "bmp"@ || l == "webp"@ || l == "tiff"@
            || l == "tif"@ || l == "ico"@
    }
}

/// True if the path's extension names a supported image format (any case).
pub fn is_image_path(path: &str) -> (b: bool)
    ensures
        b == image_named(path@),
{
    match file_extension(path) {
        Some(e) => {
            let l = to_lowercase(e.as_str());
            let s = l.as_str();
            str_eq(s, "png") || str_eq(s, "jpg") || str_eq(s, "jpeg") || str_eq(s, "gif") || str_eq(s, "bmp")
                || str_eq(s, "webp") || str_eq(s, "tiff") || str_eq(s, "tif") || str_eq(s, "ico")
        },
        None => false,
    }
}

/// Result of a pixel-level comparison.
#[derive(Debug)]
pub struct ImageCompareResult {
    pub left_width: u32,
    pub left_height: u32,
    /// RGBA8 pixels of the left image
    pub left_rgba: Vec<u8>,
    pub right_width: u32,
    pub right_height: u32,
    /// RGBA8 pixels of the right image
    pub right_rgba: Vec<u8>,
    /// Pixels that differ beyond the tolerance, or lie in only one image
    pub diff_pixels: u64,
    /// Pixels whose largest channel difference is within the tolerance but not 0
    pub tolerated_pixels: u64,
    /// Pixels of the diff canvas (the larger width times the larger height)
    pub total_pixels: u64,
    pub diff_width: u32,
    pub diff_height: u32,
    /// Differing pixels red, tolerated ones yellow, identical ones dimmed grey
    pub diff_rgba: Vec<u8>,
    /// Differing pixels red and opaque, all others transparent
    pub overlay_rgba: Vec<u8>,
}

/// An RGBA8 image: width, height and pixel bytes, row by row.
pub struct Pic {
    pub w: nat,
    pub h: nat,
    pub px: Seq<u8>,
}

pub open spec fn pic_ok(p: Pic) -> bool {
    p.px.len() == p.w * p.h * 4
}

/// The pixel at `(x, y)`, none outside the image.
pub open spec fn pixel(p: Pic, x: int, y: int) -> Option<Seq<u8>> {
    if 0 <= x < p.w && 0 <= y < p.h {
        Some(p.px.subrange((y * p.w + x) * 4, (y * p.w + x) * 4 + 4))
    } else {
        None
    }
}

pub open spec fn chan(p: Option<Seq<u8>>, c: int) -> int {
    match p {
        Some(s) => s[c] as int,
        None => 0,
    }
}

pub open spec fn absd(a: int, b: int) -> int {
    if a > b { a - b } else { b - a }
}

pub open spec fn max4(a: int, b: int, c: int, d: int) -> int {
    let m1 = if a > b { a } else { b };
    let m2 = if c > d { c } else { d };
    if m1 > m2 { m1 } else { m2 }
}

/// The largest per-channel difference of two pixels (missing ones count as 0).
pub open spec fn max_diff(l: Option<Seq<u8>>, r: Option<Seq<u8>>) -> int {
    max4(absd(chan(l, 0), chan(r, 0)), absd(chan(l, 1), chan(r, 1)), absd(chan(l, 2), chan(r, 2)), absd(chan(l, 3), chan(r, 3)))
}

/// A canvas position is changed when a side lacks the pixel or the channels
/// differ by more than the tolerance.
pub open spec fn changed(l: Option<Seq<u8>>, r: Option<Seq<u8>>, tol: u8) -> bool {
    l is None || r is None || max_diff(l, r) > tol
}

/// Grey value of a pixel (Rec. 601 weights), dimmed.
pub open spec fn dimmed(l: Option<Seq<u8>>) -> u8 {
    let gray = (chan(l, 0) * 77 + chan(l, 1) * 150 + chan(l, 2) * 29) / 256;
    (gray * 3 / 4 + 48) as u8
}

/// The diff image's pixel: red when changed, dimmed grey when identical,
/// yellow when within the tolerance.
pub open spec fn diff_px(l: Option<Seq<u8>>, r: Option<Seq<u8>>, tol: u8) -> Seq<u8> {
    if changed(l, r, tol) {
        seq![255u8, 0u8, 0u8, 255u8]
    } else if max_diff(l, r) == 0 {
        seq![dimmed(l), dimmed(l), dimmed(l), 255u8]
    } else {
        seq![255u8, 200u8, 0u8, 255u8]
    }
}

/// The overlay's pixel: opaque red when changed, else transparent.
pub open spec fn overlay_px(l: Option<Seq<u8>>, r: Option<Seq<u8>>, tol: u8) -> Seq<u8> {
    if changed(l, r, tol) { seq![220u8, 30u8, 30u8, 255u8] } else { seq![0u8, 0u8, 0u8, 0u8] }
}

/// Canvas pixels `0..n` of row `y`: diff bytes, overlay bytes, changed count
/// (positions inside at least one image), tolerated count.
pub open spec fn row_out(a: Pic, b: Pic, tol: u8, y: int, n: int) -> (Seq<u8>, Seq<u8>, nat, nat)
    decreases n,
{
    if n <= 0 {
        (Seq::empty(), Seq::empty(), 0, 0)
    } else {
        let prev = row_out(a, b, tol, y, n - 1);
        let l = pixel(a, n - 1, y);
        let r = pixel(b, n - 1, y);
        (
            prev.0 + diff_px(l, r, tol),
            prev.1 + overlay_px(l, r, tol),
            prev.2 + if changed(l, r, tol) && (l is Some || r is Some) { 1nat } else { 0nat },
            prev.3 + if !changed(l, r, tol) && max_diff(l, r) != 0 { 1nat } else { 0nat },
        )
    }
}

/// Canvas rows `0..k`, each `w` pixels wide.
pub open spec fn canvas_out(a: Pic, b: Pic, tol: u8, w: int, k: int) -> (Seq<u8>, Seq<u8>, nat, nat)
    decreases k,
{
    if k <= 0 {
        (Seq::empty(), Seq::empty(), 0, 0)
    } else {
        let prev = canvas_out(a, b, tol, w, k - 1);
        let row = row_out(a, b, tol, k - 1, w);
        (prev.0 + row.0, prev.1 + row.1, prev.2 + row.2, prev.3 + row.3)
    }
}

pub open spec fn max_u(a: nat, b: nat) -> nat {
    if a > b { a } else { b }
}

/// The comparison of two decoded images.
pub open spec fn compared(a: Pic, b: Pic, tol: u8, res: ImageCompareResult) -> bool {
    let w = max_u(a.w, b.w);
    let h = max_u(a.h, b.h);
    let out = canvas_out(a, b, tol, w as int, h as int);
    &&& res.left_width == a.w && res.left_height == a.h && res.left_rgba@ == a.px
    &&& res.right_width == b.w && res.right_height == b.h && res.right_rgba@ == b.px
    &&& res.diff_width == w && res.diff_height == h
    &&& res.total_pixels == w * h
    &&& res.diff_rgba@ == out.0
    &&& res.overlay_rgba@ == out.1
    &&& res.diff_pixels == out.2
    &&& res.tolerated_pixels == out.3
}

proof fn lemma_row_out_len(a: Pic, b: Pic, tol: u8, y: int, n: int)
    requires
        0 <= n,
    ensures
        row_out(a, b, tol, y, n).0.len() == 4 * n,
        row_out(a, b, tol, y, n).1.len() == 4 * n,
    decreases n,
{
    if n > 0 {
        lemma_row_out_len(a, b, tol, y, n - 1);
    }
}

proof fn lemma_row_out_px(a: Pic, b: Pic, tol: u8, y: int, n: int, x: int)
    requires
        0 <= x < n,
    ensures
        row_out(a, b, tol, y, n).0.subrange(4 * x, 4 * x + 4) == diff_px(pixel(a, x, y), pixel(b, x, y), tol),
        row_out(a, b, tol, y, n).1.subrange(4 * x, 4 * x + 4) == overlay_px(pixel(a, x, y), pixel(b, x, y), tol),
    decreases n,
{
    lemma_row_out_len(a, b, tol, y, n - 1);
    let prev = row_out(a, b, tol, y, n - 1);
    let l = pixel(a, n - 1, y);
    let r = pixel(b, n - 1, y);
    if x < n - 1 {
        lemma_row_out_px(a, b, tol, y, n - 1, x);
        assert((prev.0 + diff_px(l, r, tol)).subrange(4 * x, 4 * x + 4) =~= prev.0.subrange(4 * x, 4 * x + 4));
        assert((prev.1 + overlay_px(l, r, tol)).subrange(4 * x, 4 * x + 4) =~= prev.1.subrange(4 * x, 4 * x + 4));
    } else {
        assert((prev.0 + diff_px(l, r, tol)).subrange(4 * x, 4 * x + 4) =~= diff_px(l, r, tol));
        assert((prev.1 + overlay_px(l, r, tol)).subrange(4 * x, 4 * x + 4) =~= overlay_px(l, r, tol));
    }
}

proof fn lemma_canvas_out_len(a: Pic, b: Pic, tol: u8, w: int, k: int)
    requires
        0 <= w,
        0 <= k,
    ensures
        canvas_out(a, b, tol, w, k).0.len() == 4 * w * k,
        canvas_out(a, b, tol, w, k).1.len() == 4 * w * k,
    decreases k,
{
    if k > 0 {
        lemma_canvas_out_len(a, b, tol, w, k - 1);
        lemma_row_out_len(a, b, tol, k - 1, w);
        assert(4 * w * (k - 1) + 4 * w == 4 * w * k) by (nonlinear_arith);
    } else {
        assert(4 * w * k == 0) by (nonlinear_arith)
            requires
                k == 0,
        ;
    }
}

proof fn lemma_canvas_out_px(a: Pic, b: Pic, tol: u8, w: int, k: int, x: int, y: int)
    requires
        0 <= x < w,
        0 <= y < k,
    ensures
        canvas_out(a, b, tol, w, k).0.subrange((y * w + x) * 4, (y * w + x) * 4 + 4) == diff_px(pixel(a, x, y), pixel(b, x, y), tol),
        canvas_out(a, b, tol, w, k).1.subrange((y * w + x) * 4, (y * w + x) * 4 + 4) == overlay_px(pixel(a, x, y), pixel(b, x, y), tol),
    decreases k,
{
    lemma_canvas_out_len(a, b, tol, w, k - 1);
    lemma_row_out_len(a, b, tol, k - 1, w);
    let prev = canvas_out(a, b, tol, w, k - 1);
    let row = row_out(a, b, tol, k - 1, w);
    let i = (y * w + x) * 4;
    if y < k - 1 {
        lemma_canvas_out_px(a, b, tol, w, k - 1, x, y);
        assert(i + 4 <= 4 * w * (k - 1)) by (nonlinear_arith)
            requires
                0 <= x < w,
                0 <= y < k - 1,
                i == (y * w + x) * 4,
        ;
        assert((prev.0 + row.0).subrange(i, i + 4) =~= prev.0.subrange(i, i + 4));
        assert((prev.1 + row.1).subrange(i, i + 4) =~= prev.1.subrange(i, i + 4));
    } else {
        lemma_row_out_px(a, b, tol, y, w, x);
        assert(i == 4 * w * (k - 1) + 4 * x) by (nonlinear_arith)
            requires
                y == k - 1,
                i == (y * w + x) * 4,
        ;
        assert((prev.0 + row.0).subrange(i, i + 4) =~= row.0.subrange(4 * x, 4 * x + 4));
        assert((prev.1 + row.1).subrange(i, i + 4) =~= row.1.subrange(4 * x, 4 * x + 4));
    }
}

/// Each canvas position compares the pixels stored there: the diff and
/// overlay bytes of canvas position `(x, y)` (at offset `(y * W + x) * 4`,
/// `W` the canvas width) come from the left and right pixels stored at
/// `(x, y)` row by row. So it is red exactly when one image lacks that
/// pixel or its channels differ by more than the tolerance, and the overlay
/// is opaque red there exactly then.
pub proof fn lemma_canvas_compares_stored_pixels(a: Pic, b: Pic, tol: u8, x: int, y: int)
    requires
        0 <= x < max_u(a.w, b.w),
        0 <= y < max_u(a.h, b.h),
    ensures
        ({
            let w = max_u(a.w, b.w) as int;
            let out = canvas_out(a, b, tol, w, max_u(a.h, b.h) as int);
            let i = (y * w + x) * 4;
            let l = if x < a.w && y < a.h {
                Some(a.px.subrange((y * a.w + x) * 4, (y * a.w + x) * 4 + 4))
            } else {
                None::<Seq<u8>>
            };
            let r = if x < b.w && y < b.h {
                Some(b.px.subrange((y * b.w + x) * 4, (y * b.w + x) * 4 + 4))
            } else {
                None::<Seq<u8>>
            };
            &&& out.0.subrange(i, i + 4) == diff_px(l, r, tol)
            &&& out.1.subrange(i, i + 4) == overlay_px(l, r, tol)
            &&& (out.0.subrange(i, i + 4) == seq![255u8, 0u8, 0u8, 255u8] <==> changed(l, r, tol))
            &&& (out.1.subrange(i, i + 4) == seq![220u8, 30u8, 30u8, 255u8] <==> changed(l, r, tol))
        }),
{
    let w = max_u(a.w, b.w) as int;
    lemma_canvas_out_px(a, b, tol, w, max_u(a.h, b.h) as int, x, y);
    let l = if x < a.w && y < a.h {
        Some(a.px.subrange((y * a.w + x) * 4, (y * a.w + x) * 4 + 4))
    } else {
        None::<Seq<u8>>
    };
    let r = if x < b.w && y < b.h {
        Some(b.px.subrange((y * b.w + x) * 4, (y * b.w + x) * 4 + 4))
    } else {
        None::<Seq<u8>>
    };
    assert(pixel(a, x, y) == l);
    assert(pixel(b, x, y) == r);
    if !changed(l, r, tol) {
        assert(diff_px(l, r, tol) != seq![255u8, 0u8, 0u8, 255u8]) by {
            if max_diff(l, r) == 0 {
                assert(diff_px(l, r, tol)[1] == dimmed(l));
                assert(diff_px(l, r, tol)[1] == dimmed(l));
                assert(dimmed(l) >= 48);
            } else {
                assert(diff_px(l, r, tol)[1] == 200u8);
            }
        }
        assert(overlay_px(l, r, tol)[3] == 0u8);
    }
}

fn get_pixel(px: &Vec<u8>, w: u32, h: u32, x: u32, y: u32) -> (p: [u8; 4])
    requires
        px@.len() == w * h * 4,
    ensures
        pixel(Pic { w: w as nat, h: h as nat, px: px@ }, x as int, y as int) matches Some(s) ==> p@ == s,
        pixel(Pic { w: w as nat, h: h as nat, px: px@ }, x as int, y as int) is None ==> p@ == seq![0u8, 0u8, 0u8, 0u8],
{
    let n = px.len();
    if x < w && y < h {
        assert((y * w + x) * 4 + 4 <= w * h * 4) by (nonlinear_arith)
            requires
                x < w,
                y < h,
        ;
        assert((y as usize) * (w as usize) <= y * w);
        let i = ((y as usize) * (w as usize) + (x as usize)) * 4;
        let p = [px[i], px[i + 1], px[i + 2], px[i + 3]];
        assert(p@ =~= px@.subrange(i as int, i + 4));
        p
    } else {
        let p = [0u8, 0u8, 0u8, 0u8];
        assert(p@ =~= seq![0u8, 0u8, 0u8, 0u8]);
        p
    }
}

fn abs_diff(a: u8, b: u8) -> (d: u8)
    ensures
        d == absd(a as int, b as int),
{
    if a > b { a - b } else { b - a }
}

/// Compares two decoded images pixel by pixel over the canvas of the larger
/// width and height; `tolerance` is the largest per-channel difference still
/// counted as a match.
pub fn compare_rgba(
    lw: u32,
    lh: u32,
    left_rgba: Vec<u8>,
    rw: u32,
    rh: u32,
    right_rgba: Vec<u8>,
    tolerance: u8,
) -> (res: ImageCompareResult)
    requires
        left_rgba@.len() == lw * lh * 4,
        right_rgba@.len() == rw * rh * 4,
        max_u(lw as nat, rw as nat) * max_u(lh as nat, rh as nat) * 4 <= usize::MAX,
    ensures
        compared(Pic { w: lw as nat, h: lh as nat, px: left_rgba@ }, Pic { w: rw as nat, h: rh as nat, px: right_rgba@ }, tolerance, res),
{
    let ghost a = Pic { w: lw as nat, h: lh as nat, px: left_rgba@ };
    let ghost b = Pic { w: rw as nat, h: rh as nat, px: right_rgba@ };
    let dw = if lw > rw { lw } else { rw };
    let dh = if lh > rh { lh } else { rh };
    let total = (dw as u64) * (dh as u64);
    let mut diff_rgba: Vec<u8> = Vec::new();
    let mut overlay_rgba: Vec<u8> = Vec::new();
    let mut diff_pixels: u64 = 0;
    let mut tolerated_pixels: u64 = 0;
    let mut y: u32 = 0;
    while y < dh
        invariant
            y <= dh,
            dw == max_u(lw as nat, rw as nat),
            dh == max_u(lh as nat, rh as nat),
            dw * dh * 4 <= usize::MAX,
            a == (Pic { w: lw as nat, h: lh as nat, px: left_rgba@ }),
            b == (Pic { w: rw as nat, h: rh as nat, px: right_rgba@ }),
            left_rgba@.len() == lw * lh * 4,
            right_rgba@.len() == rw * rh * 4,
            (diff_rgba@, overlay_rgba@, diff_pixels as nat, tolerated_pixels as nat) == canvas_out(a, b, tolerance, dw as int, y as int),
            diff_pixels + tolerated_pixels <= y * dw,
        decreases dh - y,
    {
        let ghost row_start = (diff_rgba@, overlay_rgba@);
        let ghost c0 = (diff_pixels, tolerated_pixels);
        let mut x: u32 = 0;
        while x < dw
            invariant
                x <= dw,
                y < dh,
                dw == max_u(lw as nat, rw as nat),
                dh == max_u(lh as nat, rh as nat),
                a == (Pic { w: lw as nat, h: lh as nat, px: left_rgba@ }),
                b == (Pic { w: rw as nat, h: rh as nat, px: right_rgba@ }),
                left_rgba@.len() == lw * lh * 4,
                right_rgba@.len() == rw * rh * 4,
                ({
                    let row = row_out(a, b, tolerance, y as int, x as int);
                    &&& diff_rgba@ == row_start.0 + row.0
                    &&& overlay_rgba@ == row_start.1 + row.1
                    &&& diff_pixels == c0.0 + row.2
                    &&& tolerated_pixels == c0.1 + row.3
                }),
                c0.0 + c0.1 <= y * dw,
                diff_pixels + tolerated_pixels <= y * dw + x,
            decreases dw - x,
        {
            proof {
                assert(y * dw + x < dw * dh) by (nonlinear_arith)
                    requires
                        x < dw,
                        y < dh,
                ;
                assert(dw * dh <= u32::MAX * u32::MAX) by (nonlinear_arith)
                    requires
                        dw <= u32::MAX,
                        dh <= u32::MAX,
                ;
            }
            let in_left = x < lw && y < lh;
            let in_right = x < rw && y < rh;
            let lp = get_pixel(&left_rgba, lw, lh, x, y);
            let rp = get_pixel(&right_rgba, rw, rh, x, y);
            let ghost l = pixel(a, x as int, y as int);
            let ghost r = pixel(b, x as int, y as int);
            let d0 = abs_diff(lp[0], rp[0]);
            let d1 = abs_diff(lp[1], rp[1]);
            let d2 = abs_diff(lp[2], rp[2]);
            let d3 = abs_diff(lp[3], rp[3]);
            let m1 = if d0 > d1 { d0 } else { d1 };
            let m2 = if d2 > d3 { d2 } else { d3 };
            let max_diff = if m1 > m2 { m1 } else { m2 };
            proof {
                assert(lp@[0] as int == chan(l, 0) && lp@[1] as int == chan(l, 1) && lp@[2] as int == chan(l, 2) && lp@[3] as int == chan(l, 3));
                assert(rp@[0] as int == chan(r, 0) && rp@[1] as int == chan(r, 1) && rp@[2] as int == chan(r, 2) && rp@[3] as int == chan(r, 3));
            }
            assert(max_diff as int == crate::image_compare::max_diff(l, r));
            let ghost before = row_out(a, b, tolerance, y as int, x as int);
            if !in_left || !in_right || max_diff > tolerance {
                diff_rgba.push(255u8);
                diff_rgba.push(0u8);
                diff_rgba.push(0u8);
                diff_rgba.push(255u8);
                overlay_rgba.push(220u8);
                overlay_rgba.push(30u8);
                overlay_rgba.push(30u8);
                overlay_rgba.push(255u8);
                if in_left || in_right {
                    diff_pixels = diff_pixels + 1;
                }
            } else if max_diff == 0 {
                let sum: u32 = lp[0] as u32 * 77 + lp[1] as u32 * 150 + lp[2] as u32 * 29;
                assert(sum >> 8 == sum / 256) by (bit_vector);
                let gray = (sum >> 8) as u8;
                let dim = (gray as u32 * 3 / 4 + 48) as u8;
                diff_rgba.push(dim);
                diff_rgba.push(dim);
                diff_rgba.push(dim);
                diff_rgba.push(255u8);
                overlay_rgba.push(0u8);
                overlay_rgba.push(0u8);
                overlay_rgba.push(0u8);
                overlay_rgba.push(0u8);
            } else {
                diff_rgba.push(255u8);
                diff_rgba.push(200u8);
                diff_rgba.push(0u8);
                diff_rgba.push(255u8);
                overlay_rgba.push(0u8);
                overlay_rgba.push(0u8);
                overlay_rgba.push(0u8);
                overlay_rgba.push(0u8);
                tolerated_pixels = tolerated_pixels + 1;
            }
            assert(diff_rgba@ =~= row_start.0 + (before.0 + diff_px(l, r, tolerance)));
            assert(overlay_rgba@ =~= row_start.1 + (before.1 + overlay_px(l, r, tolerance)));
            x = x + 1;
        }
        proof {
            assert((y + 1) * dw == y * dw + dw) by (nonlinear_arith);
            assert((y + 1) * dw <= dh * dw) by (nonlinear_arith)
                requires
                    y + 1 <= dh,
            ;
            let row = row_out(a, b, tolerance, y as int, dw as int);
            assert(diff_rgba@ =~= row_start.0 + row.0);
        }
        y = y + 1;
    }
    ImageCompareResult {
        left_width: lw,
        left_height: lh,
        left_rgba,
        right_width: rw,
        right_height: rh,
        right_rgba,
        diff_pixels,
        tolerated_pixels,
        total_pixels: total,
        diff_width: dw,
        diff_height: dh,
        diff_rgba,
        overlay_rgba,
    }
}

/// What the `image` crate decodes from file bytes: width, height and RGBA8
/// pixels, or the decoding error's message.
pub uninterp spec fn decoded_image(data: Seq<u8>) -> Result<(u32, u32, Seq<u8>), Seq<char>>;

/// Decodes an image with `image::load_from_memory` and converts it to RGBA8
/// (`into_rgba8`); an RGBA8 buffer holds exactly four bytes per pixel.
#[verifier::external_body]
fn decode_rgba(data: &[u8]) -> (r: Result<(u32, u32, Vec<u8>), String>)
    ensures
        match r {
            Ok((w, h, px)) => decoded_image(data@) == Ok::<(u32, u32, Seq<u8>), Seq<char>>((w, h, px@))
                && px@.len() == w * h * 4,
            Err(e) => decoded_image(data@) == Err::<(u32, u32, Seq<u8>), Seq<char>>(e@),
        },
{
    match image::load_from_memory(data) {
        Ok(img) => {
            let rgba = img.into_rgba8();
            Ok((rgba.width(), rgba.height(), rgba.into_raw()))
        },
        Err(e) => Err(e.to_string()),
    }
}

/// The canvas of two images fits in memory as RGBA8 bytes.
pub open spec fn canvas_fits(lw: u32, lh: u32, rw: u32, rh: u32) -> bool {
    max_u(lw as nat, rw as nat) * max_u(lh as nat, rh as nat) * 4 <= usize::MAX
}

fn prefixed(prefix: &str, msg: String) -> (s: String)
    ensures
        s@ == prefix@ + msg@,
{
    let mut s = str_to_string(prefix);
    push_str(&mut s, msg.as_str());
    s
}

/// Decodes both images and compares them pixel by pixel (see
/// `compare_rgba`). Errors: "Left: " or "Right: " and the decoder's message,
/// or "Images too large to compare" when the canvas does not fit in memory.
pub fn compare_images(left_data: &[u8], right_data: &[u8], tolerance: u8) -> (r: Result<ImageCompareResult, String>)
    ensures
        match (decoded_image(left_data@), decoded_image(right_data@)) {
            (Err(e), _) => r matches Err(m) && m@ == "Left: "@ + e,
            (Ok(_), Err(e)) => r matches Err(m) && m@ == "Right: "@ + e,
            (Ok((lw, lh, lpx)), Ok((rw, rh, rpx))) => if canvas_fits(lw, lh, rw, rh) {
                r matches Ok(res) && compared(Pic { w: lw as nat, h: lh as nat, px: lpx }, Pic { w: rw as nat, h: rh as nat, px: rpx }, tolerance, res)
            } else {
                r matches Err(m) && m@ == "Images too large to compare"@
            },
        },
{
    let (lw, lh, lpx) = match decode_rgba(left_data) {
        Ok(x) => x,
        Err(e) => return Err(prefixed("Left: ", e)),
    };
    let (rw, rh, rpx) = match decode_rgba(right_data) {
        Ok(x) => x,
        Err(e) => return Err(prefixed("Right: ", e)),
    };
    let dw = if lw > rw { lw } else { rw };
    let dh = if lh > rh { lh } else { rh };
    let fits = match (dw as usize).checked_mul(dh as usize) {
        Some(n) => n.checked_mul(4).is_some(),
        None => false,
    };
    if !fits {
        return Err(str_to_string("Images too large to compare"));
    }
    Ok(compare_rgba(lw, lh, lpx, rw, rh, rpx, tolerance))
}

} // verus!
