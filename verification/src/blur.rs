//! Anisotropic directional blur: every output pixel is the unweighted mean
//! of `2r + 1` samples of the source taken along the direction selected by a
//! second field, with toroidal (modulo) wraparound so a seamless source
//! stays seamless.

use vstd::prelude::*;
use crate::math::{rdiv, rdiv_up, lemma_rdiv_up_range, lemma_div_below, wrap_add};
use crate::trig::{sin_fx, cos_fx, scaled_offset, sin_i, cos_i, offset_step};
use crate::field::{IntensityField, lemma_row_major_index};
use vstd::arithmetic::div_mod::{
    lemma_fundamental_div_mod, lemma_fundamental_div_mod_converse_div,
    lemma_fundamental_div_mod_converse_mod, lemma_mod_bound, lemma_small_mod,
    lemma_add_mod_noop_right,
};

verus! {

/// The source sample that step `i` of the directional walk from `(x, y)`
/// under direction byte `dir` reads, with both axes wrapping.
pub open spec fn blur_sample(
    src: Seq<u8>, w: int, h: int, x: int, y: int, dir: u8, i: int) -> int {
    let dx: int = scaled_offset(i, cos_fx(dir as int));
    let dy: int = scaled_offset(i, sin_fx(dir as int));
    let sx: int = (x + dx) % w;
    let sy: int = (y + dy) % h;
    src[sy * w + sx] as int
}

/// The sum of the first `j` of the `2r + 1` directional samples (the steps
/// `-r, ..., -r + j - 1`).
pub open spec fn blur_sum(
    src: Seq<u8>, w: int, h: int, x: int, y: int, dir: u8, r: int, j: int) -> int
    decreases j,
{
    if j <= 0 {
        0
    } else {
        blur_sum(src, w, h, x, y, dir, r, j - 1)
            + blur_sample(src, w, h, x, y, dir, -r + j - 1)
    }
}

/// One blurred pixel: the rounded mean of all `2r + 1` directional samples.
pub open spec fn blur_pixel(
    src: Seq<u8>, w: int, h: int, dir: u8, x: int, y: int, r: int) -> int {
    rdiv_up(blur_sum(src, w, h, x, y, dir, r, 2 * r + 1), 2 * r + 1)
}

/// The whole blurred field: pixel `idx` is averaged along the direction that
/// the direction field selects at `idx`.
pub open spec fn spec_blur(src: Seq<u8>, dirf: Seq<u8>, w: int, h: int, r: int) -> Seq<u8> {
    Seq::new((w * h) as nat,
        |idx: int| blur_pixel(src, w, h, dirf[idx], idx % w, idx / w, r) as u8)
}

/// Every directional sample is a stored 8-bit value.
pub proof fn lemma_blur_sample_range(
    src: Seq<u8>, w: int, h: int, x: int, y: int, dir: u8, i: int)
    requires
        w >= 1,
        h >= 1,
        src.len() == w * h,
    ensures
        0 <= blur_sample(src, w, h, x, y, dir, i) <= 255,
{
    let dx: int = scaled_offset(i, cos_fx(dir as int));
    let dy: int = scaled_offset(i, sin_fx(dir as int));
    lemma_mod_bound(x + dx, w);
    lemma_mod_bound(y + dy, h);
    lemma_row_major_index(w, h, (x + dx) % w, (y + dy) % h);
}

/// Partial sums of samples stay within `255` per sample.
pub proof fn lemma_blur_sum_range(
    src: Seq<u8>, w: int, h: int, x: int, y: int, dir: u8, r: int, j: int)
    requires
        w >= 1,
        h >= 1,
        j >= 0,
        src.len() == w * h,
    ensures
        0 <= blur_sum(src, w, h, x, y, dir, r, j) <= 255 * j,
    decreases j,
{
    if j > 0 {
        lemma_blur_sum_range(src, w, h, x, y, dir, r, j - 1);
        lemma_blur_sample_range(src, w, h, x, y, dir, -r + j - 1);
    }
}

/// A blurred pixel is again an 8-bit value.
pub proof fn lemma_blur_pixel_range(
    src: Seq<u8>, w: int, h: int, dir: u8, x: int, y: int, r: int)
    requires
        w >= 1,
        h >= 1,
        r >= 0,
        src.len() == w * h,
    ensures
        0 <= blur_pixel(src, w, h, dir, x, y, r) <= 255,
{
    lemma_blur_sum_range(src, w, h, x, y, dir, r, 2 * r + 1);
    lemma_rdiv_up_range(blur_sum(src, w, h, x, y, dir, r, 2 * r + 1), 2 * r + 1, 255);
}

/// A row-major index splits back into its row and column.
pub proof fn lemma_row_major_decompose(w: int, a: int, b: int)
    requires
        0 <= a < w,
        0 <= b,
    ensures
        (b * w + a) % w == a,
        (b * w + a) / w == b,
{
    lemma_fundamental_div_mod_converse_mod(b * w + a, w, b, a);
    lemma_fundamental_div_mod_converse_div(b * w + a, w, b, a);
}

/// Apply the directional blur.
///
/// `direction_channel` selects, per pixel, the angle (its intensity read as
/// a fraction of a full turn); the output pixel is the rounded mean of the
/// source samples at the `2r + 1` rounded positions along that line, indices
/// taken modulo the grid so the result wraps seamlessly. With `r == 0` the
/// output equals the input.
pub fn directional_blur(
    img: &IntensityField,
    direction_channel: &IntensityField,
    blur_radius: u32,
) -> (out: IntensityField)
    requires
        img.wf(),
        direction_channel.wf(),
        img.width == direction_channel.width,
        img.height == direction_channel.height,
        blur_radius <= 0x1000_0000,
    ensures
        out.wf(),
        out.width == img.width,
        out.height == img.height,
        out.data@ == spec_blur(
            img.data@, direction_channel.data@,
            img.width as int, img.height as int, blur_radius as int),
{
    let w: usize = img.width;
    let h: usize = img.height;
    let n: usize = img.data.len();
    let r: u32 = blur_radius;
    let cnt: u64 = 2 * (r as u64) + 1;
    let ghost spec_out: Seq<u8> = spec_blur(
        img.data@, direction_channel.data@, w as int, h as int, r as int);
    let mut data: Vec<u8> = Vec::new();
    let mut idx: usize = 0;
    while idx < n
        invariant
            idx <= n,
            n == w * h,
            1 <= w <= 0x4000_0000,
            1 <= h <= 0x4000_0000,
            img.wf(),
            direction_channel.wf(),
            img.width == w,
            img.height == h,
            direction_channel.width == w,
            direction_channel.height == h,
            r <= 0x1000_0000,
            cnt == 2 * r + 1,
            spec_out == spec_blur(
                img.data@, direction_channel.data@, w as int, h as int, r as int),
            data@.len() == idx,
            forall|j: int| 0 <= j < idx ==> data@[j] == spec_out[j],
        decreases n - idx,
    {
        let x: usize = idx % w;
        let y: usize = idx / w;
        proof {
            lemma_div_below(idx as int, w as int, h as int);
            lemma_fundamental_div_mod(idx as int, w as int);
        }
        let dir: u8 = direction_channel.data[idx];
        assert(dir == direction_channel.data@[idx as int]);
        let c: i64 = cos_i(dir);
        let s: i64 = sin_i(dir);
        let mut sum: u64 = 0;
        let mut k: u64 = 0;
        while k < cnt
            invariant
                k <= cnt,
                cnt == 2 * r + 1,
                r <= 0x1000_0000,
                n == w * h,
                1 <= w <= 0x4000_0000,
                1 <= h <= 0x4000_0000,
                img.wf(),
                img.width == w,
                img.height == h,
                x < w,
                y < h,
                c == cos_fx(dir as int),
                s == sin_fx(dir as int),
                -32768 <= c <= 32768,
                -32768 <= s <= 32768,
                sum == blur_sum(
                    img.data@, w as int, h as int, x as int, y as int, dir, r as int, k as int),
                sum <= 255 * k,
            decreases cnt - k,
        {
            let i_off: i64 = (k as i64) - (r as i64);
            let dx: i64 = offset_step(i_off, c);
            let dy: i64 = offset_step(i_off, s);
            let sx: usize = wrap_add(x, dx, w);
            let sy: usize = wrap_add(y, dy, h);
            let v: u8 = img.get(sx, sy);
            assert(v as int == blur_sample(
                img.data@, w as int, h as int, x as int, y as int, dir, i_off as int));
            sum = sum + (v as u64);
            k = k + 1;
        }
        let q: u64 = rdiv(sum, cnt);
        proof {
            lemma_rdiv_up_range(sum as int, cnt as int, 255);
        }
        let v: u8 = q as u8;
        proof {
            assert(idx as int == (y * w + x) as int);
            lemma_row_major_decompose(w as int, x as int, y as int);
            assert(spec_out[idx as int] == blur_pixel(
                img.data@, w as int, h as int, dir, x as int, y as int, r as int) as u8);
        }
        data.push(v);
        idx = idx + 1;
    }
    assert(data@ =~= spec_out);
    IntensityField { width: w, height: h, data }
}

/// Blurring with radius 0 is the identity: the single sample is the pixel
/// itself.
pub proof fn lemma_blur_radius_zero_identity(src: Seq<u8>, dirf: Seq<u8>, w: int, h: int)
    requires
        w >= 1,
        h >= 1,
        src.len() == w * h,
        dirf.len() == w * h,
    ensures
        spec_blur(src, dirf, w, h, 0) == src,
{
    assert forall|idx: int| 0 <= idx < w * h implies
        spec_blur(src, dirf, w, h, 0)[idx] == src[idx] by {
        let x: int = idx % w;
        let y: int = idx / w;
        lemma_mod_bound(idx, w);
        lemma_fundamental_div_mod(idx, w);
        lemma_div_below(idx, w, h);
        let dir: u8 = dirf[idx];
        assert(scaled_offset(0, cos_fx(dir as int)) == 0);
        assert(scaled_offset(0, sin_fx(dir as int)) == 0);
        lemma_small_mod(x as nat, w as nat);
        lemma_small_mod(y as nat, h as nat);
        lemma_row_major_index(w, h, x, y);
        assert(blur_sample(src, w, h, x, y, dir, 0) == src[y * w + x]);
        assert(blur_sum(src, w, h, x, y, dir, 0, 0) == 0);
        assert(blur_sum(src, w, h, x, y, dir, 0, 1)
            == blur_sample(src, w, h, x, y, dir, 0));
        assert(y * w + x == idx);
        lemma_blur_sample_range(src, w, h, x, y, dir, 0);
        assert(rdiv_up(src[idx] as int, 1) == src[idx]) by {
            lemma_fundamental_div_mod_converse_div(
                2 * (src[idx] as int) + 1, 2, src[idx] as int, 1);
        }
    }
    assert(spec_blur(src, dirf, w, h, 0) =~= src);
}

/// The field translated by `(cx, cy)` on the torus: pixel `(x, y)` of the
/// result reads pixel `((x + cx) % w, (y + cy) % h)` of the source.
pub open spec fn shift_field(s: Seq<u8>, w: int, h: int, cx: int, cy: int) -> Seq<u8> {
    Seq::new((w * h) as nat,
        |idx: int| s[((idx / w + cy) % h) * w + (idx % w + cx) % w])
}

/// Tileability: blurring commutes with toroidal translation. Shifting the
/// source and direction fields and then blurring equals blurring first and
/// shifting the result, so no seam can appear at the wrap boundary.
pub proof fn lemma_blur_translation_equivariant(
    src: Seq<u8>, dirf: Seq<u8>, w: int, h: int, r: int, cx: int, cy: int)
    requires
        w >= 1,
        h >= 1,
        r >= 0,
        cx >= 0,
        cy >= 0,
        src.len() == w * h,
        dirf.len() == w * h,
    ensures
        spec_blur(shift_field(src, w, h, cx, cy), shift_field(dirf, w, h, cx, cy), w, h, r)
            == shift_field(spec_blur(src, dirf, w, h, r), w, h, cx, cy),
{
    let ssrc: Seq<u8> = shift_field(src, w, h, cx, cy);
    let sdir: Seq<u8> = shift_field(dirf, w, h, cx, cy);
    let blurred: Seq<u8> = spec_blur(src, dirf, w, h, r);
    assert forall|idx: int| 0 <= idx < w * h implies
        spec_blur(ssrc, sdir, w, h, r)[idx]
            == shift_field(blurred, w, h, cx, cy)[idx] by {
        let x: int = idx % w;
        let y: int = idx / w;
        lemma_mod_bound(idx, w);
        lemma_div_below(idx, w, h);
        lemma_fundamental_div_mod(idx, w);
        let xs: int = (x + cx) % w;
        let ys: int = (y + cy) % h;
        lemma_mod_bound(x + cx, w);
        lemma_mod_bound(y + cy, h);
        let dir: u8 = sdir[idx];
        lemma_row_major_decompose(w, xs, ys);
        assert(dir == dirf[ys * w + xs]);
        lemma_row_major_index(w, h, xs, ys);
        assert(blurred[ys * w + xs] == blur_pixel(src, w, h, dir, xs, ys, r) as u8);
        assert(shift_field(blurred, w, h, cx, cy)[idx] == blurred[ys * w + xs]);
        lemma_blur_sum_shift(src, w, h, x, y, cx, cy, dir, r, 2 * r + 1);
        assert(spec_blur(ssrc, sdir, w, h, r)[idx]
            == blur_pixel(ssrc, w, h, dir, x, y, r) as u8);
    }
    assert(spec_blur(ssrc, sdir, w, h, r)
        =~= shift_field(spec_blur(src, dirf, w, h, r), w, h, cx, cy));
}

/// Every partial directional sum is translation-equivariant.
proof fn lemma_blur_sum_shift(
    src: Seq<u8>, w: int, h: int, x: int, y: int, cx: int, cy: int, dir: u8, r: int, j: int)
    requires
        w >= 1,
        h >= 1,
        cx >= 0,
        cy >= 0,
        0 <= x < w,
        0 <= y < h,
        src.len() == w * h,
    ensures
        blur_sum(shift_field(src, w, h, cx, cy), w, h, x, y, dir, r, j)
            == blur_sum(src, w, h, (x + cx) % w, (y + cy) % h, dir, r, j),
    decreases j,
{
    if j > 0 {
        lemma_blur_sum_shift(src, w, h, x, y, cx, cy, dir, r, j - 1);
        lemma_blur_sample_shift(src, w, h, x, y, cx, cy, dir, -r + j - 1);
    }
}

/// One directional sample is translation-equivariant: both readings resolve
/// to the same source pixel `(x + cx + dx) % w, (y + cy + dy) % h`.
proof fn lemma_blur_sample_shift(
    src: Seq<u8>, w: int, h: int, x: int, y: int, cx: int, cy: int, dir: u8, i: int)
    requires
        w >= 1,
        h >= 1,
        cx >= 0,
        cy >= 0,
        0 <= x < w,
        0 <= y < h,
        src.len() == w * h,
    ensures
        blur_sample(shift_field(src, w, h, cx, cy), w, h, x, y, dir, i)
            == blur_sample(src, w, h, (x + cx) % w, (y + cy) % h, dir, i),
    decreases 0int,
{
    let dx: int = scaled_offset(i, cos_fx(dir as int));
    let dy: int = scaled_offset(i, sin_fx(dir as int));
    let sx: int = (x + dx) % w;
    let sy: int = (y + dy) % h;
    lemma_mod_bound(x + dx, w);
    lemma_mod_bound(y + dy, h);
    lemma_row_major_index(w, h, sx, sy);
    lemma_row_major_decompose(w, sx, sy);
    assert(shift_field(src, w, h, cx, cy)[sy * w + sx]
        == src[((sy + cy) % h) * w + (sx + cx) % w]);
    let xs: int = (x + cx) % w;
    let ys: int = (y + cy) % h;
    lemma_mod_bound(x + cx, w);
    lemma_mod_bound(y + cy, h);
    // Both axis indices agree: adding the offset and the shift commutes
    // under the modulus.
    lemma_add_mod_noop_right(cx, x + dx, w);
    lemma_add_mod_noop_right(dx, x + cx, w);
    assert((sx + cx) % w == (x + dx + cx) % w) by {
        assert(cx + (x + dx) % w == (x + dx) % w + cx);
        assert((cx + (x + dx)) % w == (x + dx + cx) % w);
    }
    assert((xs + dx) % w == (x + cx + dx) % w) by {
        assert((dx + (x + cx)) % w == (x + cx + dx) % w);
    }
    assert((sx + cx) % w == (xs + dx) % w);
    lemma_add_mod_noop_right(cy, y + dy, h);
    lemma_add_mod_noop_right(dy, y + cy, h);
    assert((sy + cy) % h == (y + dy + cy) % h) by {
        assert((cy + (y + dy)) % h == (y + dy + cy) % h);
    }
    assert((ys + dy) % h == (y + cy + dy) % h) by {
        assert((dy + (y + cy)) % h == (y + cy + dy) % h);
    }
    assert((sy + cy) % h == (ys + dy) % h);
}

} // verus!
