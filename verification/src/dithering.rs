//! The error-diffusion engine.
//!
//! One pass walks the buffer in raster order (rows top down, columns left to
//! right, channels fastest), quantizes each channel value in place, and adds
//! each offset's exact rational share of the residual error into the targeted
//! not-yet-visited cell, saturating instead of wrapping; targets outside the
//! image are silently dropped. `dither_spec` is the mathematical model of the
//! pass, and `dithering` is proved to compute exactly that model.

use vstd::prelude::*;
use vstd::arithmetic::div_mod::{
    lemma_div_is_ordered_by_denominator, lemma_fundamental_div_mod,
    lemma_mod_division_less_than_divisor,
};
use vstd::arithmetic::mul::lemma_mul_upper_bound;
use crate::enums::{floyd_steinberg_seq, kernel_wf, ErrorDitheringEnum};
use crate::objects::Offset;
use crate::quantize::{lemma_quantize_le, quantize_spec, Quantize, QuantizeTrait};
use crate::svec::SVec;

verus! {

/// The fixed parameters of one diffusion pass: the image extent, the kernel's
/// offset table, and the quantizer's exact step `max / (levels - 1)`.
pub struct DitherConfig {
    pub h: int,
    pub w: int,
    pub c: int,
    pub offs: Seq<Offset>,
    pub max: int,
    pub levels: int,
}

/// Position of the value for channel `ch` of pixel (x, y) in the flat
/// row-major, channels-interleaved layout.
pub open spec fn flat_index(x: int, y: int, ch: int, cfg: DitherConfig) -> int {
    (y * cfg.w + x) * cfg.c + ch
}

/// The share of the error one offset receives: the error scaled by the exact
/// rational `divisor / dividend`, rounded toward zero.
pub open spec fn scaled_error(err: int, o: Offset) -> int {
    (err * (o.divisor as int)) / (o.dividend as int)
}

/// Accumulation into one diffusion target: plain addition of the error
/// share, saturating at the largest `u8` value instead of wrapping.
pub open spec fn sat_add_u8(v: int, e: int) -> int {
    if v + e > 255 {
        255
    } else {
        v + e
    }
}

/// One diffusion write: adds the scaled share of `err` into the target of
/// offset `o` relative to (x, y), or leaves the buffer unchanged when that
/// target falls outside `[0, w) x [0, h)`.
pub open spec fn diffuse_step(
    data: Seq<u8>,
    cfg: DitherConfig,
    x: int,
    y: int,
    ch: int,
    err: int,
    o: Offset,
) -> Seq<u8> {
    let nx = x + o.x as int;
    let ny = y + o.y as int;
    if 0 <= nx < cfg.w && 0 <= ny < cfg.h {
        let t = flat_index(nx, ny, ch, cfg);
        data.update(t, sat_add_u8(data[t] as int, scaled_error(err, o)) as u8)
    } else {
        data
    }
}

/// The diffusion writes for the kernel's offsets from position `j` on, in
/// kernel order.
pub open spec fn diffuse_from(
    data: Seq<u8>,
    cfg: DitherConfig,
    x: int,
    y: int,
    ch: int,
    err: int,
    j: int,
) -> Seq<u8>
    decreases cfg.offs.len() - j,
{
    if 0 <= j < cfg.offs.len() {
        diffuse_from(
            diffuse_step(data, cfg, x, y, ch, err, cfg.offs[j]),
            cfg,
            x,
            y,
            ch,
            err,
            j + 1,
        )
    } else {
        data
    }
}

/// Quantizes the channel value at (x, y, ch) in place and diffuses the
/// residual error over the whole kernel.
pub open spec fn dither_cell(data: Seq<u8>, cfg: DitherConfig, x: int, y: int, ch: int) -> Seq<u8> {
    let i = flat_index(x, y, ch, cfg);
    let pix = data[i] as int;
    let q = quantize_spec(pix, cfg.max, cfg.levels);
    diffuse_from(data.update(i, q as u8), cfg, x, y, ch, pix - q, 0)
}

/// The cells of pixel (x, y) from channel `ch` on.
pub open spec fn dither_chans_from(
    data: Seq<u8>,
    cfg: DitherConfig,
    x: int,
    y: int,
    ch: int,
) -> Seq<u8>
    decreases cfg.c - ch,
{
    if 0 <= ch < cfg.c {
        dither_chans_from(dither_cell(data, cfg, x, y, ch), cfg, x, y, ch + 1)
    } else {
        data
    }
}

/// The pixels of row `y` from column `x` on.
pub open spec fn dither_row_from(data: Seq<u8>, cfg: DitherConfig, x: int, y: int) -> Seq<u8>
    decreases cfg.w - x,
{
    if 0 <= x < cfg.w {
        dither_row_from(dither_chans_from(data, cfg, x, y, 0), cfg, x + 1, y)
    } else {
        data
    }
}

/// The rows from `y` down.
pub open spec fn dither_rows_from(data: Seq<u8>, cfg: DitherConfig, y: int) -> Seq<u8>
    decreases cfg.h - y,
{
    if 0 <= y < cfg.h {
        dither_rows_from(dither_row_from(data, cfg, 0, y), cfg, y + 1)
    } else {
        data
    }
}

/// One whole error-diffusion pass over the buffer.
pub open spec fn dither_spec(data: Seq<u8>, cfg: DitherConfig) -> Seq<u8> {
    dither_rows_from(data, cfg, 0)
}

/// The Floyd-Steinberg kernel redistributes a residual almost exactly: the
/// four shares it hands out never exceed the residual in total, and fall
/// short of it only by the truncation of the four rational shares, which is
/// strictly less than 4. Dropped out-of-bounds targets and saturation are the
/// only other ways a pass loses error.
pub proof fn lemma_floyd_steinberg_conserves_error(err: int)
    requires
        0 <= err,
    ensures
        scaled_error(err, floyd_steinberg_seq()[0]) + scaled_error(err, floyd_steinberg_seq()[1])
            + scaled_error(err, floyd_steinberg_seq()[2]) + scaled_error(
            err,
            floyd_steinberg_seq()[3],
        ) <= err,
        scaled_error(err, floyd_steinberg_seq()[0]) + scaled_error(err, floyd_steinberg_seq()[1])
            + scaled_error(err, floyd_steinberg_seq()[2]) + scaled_error(
            err,
            floyd_steinberg_seq()[3],
        ) > err - 4,
{
    let s = floyd_steinberg_seq();
    assert(s[0] == Offset { x: 1, y: 0, divisor: 7, dividend: 16 });
    assert(s[1] == Offset { x: -1isize, y: 1, divisor: 3, dividend: 16 });
    assert(s[2] == Offset { x: 0, y: 1, divisor: 5, dividend: 16 });
    assert(s[3] == Offset { x: 1, y: 1, divisor: 1, dividend: 16 });
    lemma_fundamental_div_mod(err * 7, 16);
    lemma_fundamental_div_mod(err * 3, 16);
    lemma_fundamental_div_mod(err * 5, 16);
    lemma_fundamental_div_mod(err * 1, 16);
    lemma_mod_division_less_than_divisor(err * 7, 16);
    lemma_mod_division_less_than_divisor(err * 3, 16);
    lemma_mod_division_less_than_divisor(err * 5, 16);
    lemma_mod_division_less_than_divisor(err * 1, 16);
    assert(err * 7 + err * 3 + err * 5 + err * 1 == 16 * err);
}

/// Saturating accumulation cannot wrap in either direction: with an in-range
/// value and a non-negative error share, the result never drops below the
/// value it started from and never exceeds the channel type's maximum.
pub proof fn lemma_sat_add_bounds(v: int, e: int)
    requires
        0 <= v <= 255,
        0 <= e,
    ensures
        v <= sat_add_u8(v, e) <= 255,
{
}

/// Flat positions of in-image coordinates lie inside the storage.
pub proof fn lemma_flat_index_bounds(cfg: DitherConfig, x: int, y: int, ch: int)
    requires
        1 <= cfg.c,
        0 <= x < cfg.w,
        0 <= y < cfg.h,
        0 <= ch < cfg.c,
    ensures
        0 <= flat_index(x, y, ch, cfg) < cfg.h * cfg.w * cfg.c,
{
    let w = cfg.w;
    let h = cfg.h;
    let c = cfg.c;
    assert(0 <= (y * w + x) * c + ch < h * w * c) by (nonlinear_arith)
        requires
            1 <= c,
            0 <= x < w,
            0 <= y < h,
            0 <= ch < c,
    ;
}

/// Whether offset `o`, applied at (x, y, ch), lands inside the image at flat
/// position `t`.
pub open spec fn is_inbounds_target(
    o: Offset,
    cfg: DitherConfig,
    x: int,
    y: int,
    ch: int,
    t: int,
) -> bool {
    let nx = x + o.x as int;
    let ny = y + o.y as int;
    0 <= nx < cfg.w && 0 <= ny < cfg.h && t == flat_index(nx, ny, ch, cfg)
}

/// Diffusing the error of one cell writes only to the in-bounds targets of
/// the kernel's offsets: every other position keeps its value. In particular
/// an offset whose target lies outside `[0, w) x [0, h)` writes nowhere, and
/// nothing outside the buffer is ever written.
pub proof fn lemma_diffuse_from_untouched(
    data: Seq<u8>,
    cfg: DitherConfig,
    x: int,
    y: int,
    ch: int,
    err: int,
    j: int,
    t: int,
)
    requires
        data.len() == cfg.h * cfg.w * cfg.c,
        1 <= cfg.c,
        0 <= ch < cfg.c,
        0 <= t < data.len(),
        forall|k: int|
            j <= k < cfg.offs.len() ==> !is_inbounds_target(
                #[trigger] cfg.offs[k],
                cfg,
                x,
                y,
                ch,
                t,
            ),
    ensures
        diffuse_from(data, cfg, x, y, ch, err, j).len() == data.len(),
        diffuse_from(data, cfg, x, y, ch, err, j)[t] == data[t],
    decreases cfg.offs.len() - j,
{
    if 0 <= j < cfg.offs.len() {
        let o = cfg.offs[j];
        let d1 = diffuse_step(data, cfg, x, y, ch, err, o);
        let nx = x + o.x as int;
        let ny = y + o.y as int;
        if 0 <= nx < cfg.w && 0 <= ny < cfg.h {
            lemma_flat_index_bounds(cfg, nx, ny, ch);
            assert(flat_index(nx, ny, ch, cfg) != t);
        }
        assert(d1.len() == data.len() && d1[t] == data[t]);
        lemma_diffuse_from_untouched(d1, cfg, x, y, ch, err, j + 1, t);
    }
}

proof fn lemma_diffuse_step_len(
    data: Seq<u8>,
    cfg: DitherConfig,
    x: int,
    y: int,
    ch: int,
    err: int,
    o: Offset,
)
    requires
        data.len() == cfg.h * cfg.w * cfg.c,
        1 <= cfg.c,
        0 <= ch < cfg.c,
    ensures
        diffuse_step(data, cfg, x, y, ch, err, o).len() == data.len(),
{
    let nx = x + o.x as int;
    let ny = y + o.y as int;
    if 0 <= nx < cfg.w && 0 <= ny < cfg.h {
        lemma_flat_index_bounds(cfg, nx, ny, ch);
    }
}

proof fn lemma_diffuse_from_len(
    data: Seq<u8>,
    cfg: DitherConfig,
    x: int,
    y: int,
    ch: int,
    err: int,
    j: int,
)
    requires
        data.len() == cfg.h * cfg.w * cfg.c,
        1 <= cfg.c,
        0 <= ch < cfg.c,
    ensures
        diffuse_from(data, cfg, x, y, ch, err, j).len() == data.len(),
    decreases cfg.offs.len() - j,
{
    if 0 <= j < cfg.offs.len() {
        lemma_diffuse_step_len(data, cfg, x, y, ch, err, cfg.offs[j]);
        lemma_diffuse_from_len(
            diffuse_step(data, cfg, x, y, ch, err, cfg.offs[j]),
            cfg,
            x,
            y,
            ch,
            err,
            j + 1,
        );
    }
}

proof fn lemma_dither_cell_len(data: Seq<u8>, cfg: DitherConfig, x: int, y: int, ch: int)
    requires
        data.len() == cfg.h * cfg.w * cfg.c,
        1 <= cfg.c,
        0 <= x < cfg.w,
        0 <= y < cfg.h,
        0 <= ch < cfg.c,
    ensures
        dither_cell(data, cfg, x, y, ch).len() == data.len(),
{
    let i = flat_index(x, y, ch, cfg);
    lemma_flat_index_bounds(cfg, x, y, ch);
    let pix = data[i] as int;
    let q = quantize_spec(pix, cfg.max, cfg.levels);
    lemma_diffuse_from_len(data.update(i, q as u8), cfg, x, y, ch, pix - q, 0);
}

proof fn lemma_dither_chans_from_len(data: Seq<u8>, cfg: DitherConfig, x: int, y: int, ch: int)
    requires
        data.len() == cfg.h * cfg.w * cfg.c,
        1 <= cfg.c,
        0 <= x < cfg.w,
        0 <= y < cfg.h,
    ensures
        dither_chans_from(data, cfg, x, y, ch).len() == data.len(),
    decreases cfg.c - ch,
{
    if 0 <= ch < cfg.c {
        lemma_dither_cell_len(data, cfg, x, y, ch);
        lemma_dither_chans_from_len(dither_cell(data, cfg, x, y, ch), cfg, x, y, ch + 1);
    }
}

proof fn lemma_dither_row_from_len(data: Seq<u8>, cfg: DitherConfig, x: int, y: int)
    requires
        data.len() == cfg.h * cfg.w * cfg.c,
        1 <= cfg.c,
        0 <= y < cfg.h,
    ensures
        dither_row_from(data, cfg, x, y).len() == data.len(),
    decreases cfg.w - x,
{
    if 0 <= x < cfg.w {
        lemma_dither_chans_from_len(data, cfg, x, y, 0);
        lemma_dither_row_from_len(dither_chans_from(data, cfg, x, y, 0), cfg, x + 1, y);
    }
}

proof fn lemma_dither_rows_from_len(data: Seq<u8>, cfg: DitherConfig, y: int)
    requires
        data.len() == cfg.h * cfg.w * cfg.c,
        1 <= cfg.c,
    ensures
        dither_rows_from(data, cfg, y).len() == data.len(),
    decreases cfg.h - y,
{
    if 0 <= y < cfg.h {
        lemma_dither_row_from_len(data, cfg, 0, y);
        lemma_dither_rows_from_len(dither_row_from(data, cfg, 0, y), cfg, y + 1);
    }
}

/// A whole pass neither grows nor shrinks the buffer: together with
/// `lemma_diffuse_from_untouched`, diffusion only ever writes inside
/// `[0, width) x [0, height)` of the buffer it was given.
pub proof fn lemma_dither_spec_len(data: Seq<u8>, cfg: DitherConfig)
    requires
        data.len() == cfg.h * cfg.w * cfg.c,
        1 <= cfg.c,
    ensures
        dither_spec(data, cfg).len() == data.len(),
{
    lemma_dither_rows_from_len(data, cfg, 0);
}

/// The error-diffusion engine: a quantizer together with the active kernel's
/// offset table. Stateless across calls; one `dithering` call is one complete
/// pass.
pub struct ErrorDithering {
    quant: Quantize,
    offset: Vec<Offset>,
}

impl ErrorDithering {
    pub closed spec fn spec_quant(&self) -> Quantize {
        self.quant
    }

    pub closed spec fn spec_offsets(&self) -> Seq<Offset> {
        self.offset@
    }

    /// A usable engine: a valid quantizer and a valid kernel table.
    pub open spec fn wf(&self) -> bool {
        self.spec_quant().wf() && kernel_wf(self.spec_offsets())
    }

    /// The parameters of one pass of this engine over `image`.
    pub open spec fn spec_cfg(&self, image: SVec<u8>) -> DitherConfig {
        DitherConfig {
            h: image.spec_shape().spec_height() as int,
            w: image.spec_shape().spec_width() as int,
            c: image.spec_shape().spec_chans() as int,
            offs: self.spec_offsets(),
            max: self.spec_quant().spec_max() as int,
            levels: self.spec_quant().spec_levels() as int,
        }
    }

    /// Builds an engine from a quantizer and a kernel chosen from the closed
    /// catalog.
    pub fn new(quant: Quantize, error_type: ErrorDitheringEnum) -> (r: Self)
        ensures
            r.spec_quant() == quant,
            r.spec_offsets() == error_type.spec_distribution(),
            kernel_wf(r.spec_offsets()),
    {
        ErrorDithering { quant, offset: error_type.distribution() }
    }
}

/// Per-channel-type error diffusion: one in-place pass over a buffer.
pub trait ErrorDitheringTrait<T> {
    /// When one pass of this engine over `image` is defined.
    spec fn dither_pre(&self, image: SVec<T>) -> bool;

    /// How the buffer after the pass relates to the buffer before it.
    spec fn dither_post(&self, image: SVec<T>, out: SVec<T>) -> bool;

    /// One in-place error-diffusion pass: every channel value is quantized in
    /// raster order and its residual error diffused forward through the
    /// kernel as it arises.
    fn dithering(&self, image: &mut SVec<T>)
        requires
            self.dither_pre(*old(image)),
        ensures
            self.dither_post(*old(image), *final(image)),
    ;
}

impl ErrorDitheringTrait<u8> for ErrorDithering {
    /// A well-formed engine whose quantizer covers the full `u8` range, a
    /// well-formed buffer, and an extent small enough to form signed
    /// coordinates.
    open spec fn dither_pre(&self, image: SVec<u8>) -> bool {
        &&& self.wf()
        &&& self.spec_quant().spec_max() == 255
        &&& image.wf()
        &&& image.spec_data().len() + 8 <= isize::MAX as int
    }

    /// The buffer afterwards is exactly the model's pass over the buffer
    /// before; the shape is untouched.
    open spec fn dither_post(&self, image: SVec<u8>, out: SVec<u8>) -> bool {
        &&& out.spec_shape() == image.spec_shape()
        &&& out.spec_data() == dither_spec(image.spec_data(), self.spec_cfg(image))
    }

    #[verifier::loop_isolation(false)]
    fn dithering(&self, image: &mut SVec<u8>) {
        let (h, w, copt) = image.shape();
        let c: usize = match copt {
            Some(cc) => cc,
            None => 1,
        };
        let n: usize = image.get_data().len();
        let ghost cfg = self.spec_cfg(*old(image));
        let ghost target = dither_spec(old(image).spec_data(), cfg);
        proof {
            assert(cfg.h == h as int && cfg.w == w as int && cfg.c == c as int);
            assert(n as int == cfg.h * cfg.w * cfg.c);
            assert(cfg.max == 255 && 2 <= cfg.levels);
        }
        let mut y: usize = 0;
        while y < h
            invariant
                y <= h,
                image.spec_shape() == old(image).spec_shape(),
                image.spec_data().len() == n,
                dither_rows_from(image.spec_data(), cfg, y as int) == target,
            decreases h - y,
        {
            proof {
                assert(dither_rows_from(image.spec_data(), cfg, y as int) == dither_rows_from(
                    dither_row_from(image.spec_data(), cfg, 0, y as int),
                    cfg,
                    y as int + 1,
                ));
            }
            let mut x: usize = 0;
            while x < w
                invariant
                    x <= w,
                    image.spec_shape() == old(image).spec_shape(),
                    image.spec_data().len() == n,
                    dither_rows_from(
                        dither_row_from(image.spec_data(), cfg, x as int, y as int),
                        cfg,
                        y as int + 1,
                    ) == target,
                decreases w - x,
            {
                proof {
                    assert(dither_row_from(image.spec_data(), cfg, x as int, y as int)
                        == dither_row_from(
                        dither_chans_from(image.spec_data(), cfg, x as int, y as int, 0),
                        cfg,
                        x as int + 1,
                        y as int,
                    ));
                }
                let mut ch: usize = 0;
                while ch < c
                    invariant
                        ch <= c,
                        image.spec_shape() == old(image).spec_shape(),
                        image.spec_data().len() == n,
                        dither_rows_from(
                            dither_row_from(
                                dither_chans_from(
                                    image.spec_data(),
                                    cfg,
                                    x as int,
                                    y as int,
                                    ch as int,
                                ),
                                cfg,
                                x as int + 1,
                                y as int,
                            ),
                            cfg,
                            y as int + 1,
                        ) == target,
                    decreases c - ch,
                {
                    let ghost before_cell = image.spec_data();
                    proof {
                        lemma_flat_index_bounds(cfg, x as int, y as int, ch as int);
                        assert((y as int) * (w as int) + (x as int) <= ((y as int) * (w as int)
                            + (x as int)) * (c as int)) by (nonlinear_arith)
                            requires
                                1 <= c,
                                0 <= x,
                                0 <= y,
                        ;
                    }
                    let index: usize = (y * w + x) * c + ch;
                    let pix: u8 = *image.get_at(index);
                    let new_pix: u8 = self.quant.get_new_pix(pix);
                    let ghost q = quantize_spec(pix as int, cfg.max, cfg.levels);
                    proof {
                        lemma_quantize_le(pix as int, cfg.max, cfg.levels);
                        assert(new_pix as int == q);
                    }
                    image.set_at(index, new_pix);
                    let err: u64 = (pix - new_pix) as u64;
                    let ghost after_q = image.spec_data();
                    let ghost errv = pix as int - q;
                    proof {
                        assert(after_q == before_cell.update(
                            flat_index(x as int, y as int, ch as int, cfg),
                            q as u8,
                        ));
                    }
                    let klen: usize = self.offset.len();
                    let mut k: usize = 0;
                    while k < klen
                        invariant
                            k <= klen,
                            image.spec_shape() == old(image).spec_shape(),
                            image.spec_data().len() == n,
                            diffuse_from(
                                image.spec_data(),
                                cfg,
                                x as int,
                                y as int,
                                ch as int,
                                errv,
                                k as int,
                            ) == diffuse_from(after_q, cfg, x as int, y as int, ch as int, errv, 0),
                        decreases klen - k,
                    {
                        let o: Offset = self.offset[k];
                        let ghost prev = image.spec_data();
                        proof {
                            assert(o == cfg.offs[k as int]);
                            assert(kernel_wf(self.spec_offsets()));
                            assert(self.spec_offsets()[k as int].dividend >= 1);
                            assert(o.dividend >= 1 && -8 <= o.x <= 8 && -8 <= o.y <= 8);
                            assert(w as int <= n as int && h as int <= n as int)
                                by (nonlinear_arith)
                                requires
                                    n as int == (h as int) * (w as int) * (c as int),
                                    y < h,
                                    x < w,
                                    1 <= c,
                            ;
                        }
                        let nx: isize = x as isize + o.x;
                        let ny: isize = y as isize + o.y;
                        if nx >= 0 && nx < w as isize && ny >= 0 && ny < h as isize {
                            let nxi: usize = nx as usize;
                            let nyi: usize = ny as usize;
                            proof {
                                lemma_flat_index_bounds(cfg, nxi as int, nyi as int, ch as int);
                                assert((nyi as int) * (w as int) + (nxi as int) <= ((nyi as int)
                                    * (w as int) + (nxi as int)) * (c as int)) by (nonlinear_arith)
                                    requires
                                        1 <= c,
                                        0 <= nxi,
                                        0 <= nyi,
                                ;
                            }
                            let tindex: usize = (nyi * w + nxi) * c + ch;
                            let tv: u8 = *image.get_at(tindex);
                            proof {
                                lemma_mul_upper_bound(err as int, 255, o.divisor as int, 255);
                                lemma_div_is_ordered_by_denominator(
                                    (err as int) * (o.divisor as int),
                                    1,
                                    o.dividend as int,
                                );
                            }
                            let e: u64 = err * (o.divisor as u64) / (o.dividend as u64);
                            let s: u64 = (tv as u64) + e;
                            let nv: u8 = if s > 255 {
                                255
                            } else {
                                s as u8
                            };
                            image.set_at(tindex, nv);
                            proof {
                                assert(nv as int == sat_add_u8(tv as int, scaled_error(errv, o)));
                                assert(image.spec_data() == diffuse_step(
                                    prev,
                                    cfg,
                                    x as int,
                                    y as int,
                                    ch as int,
                                    errv,
                                    o,
                                ));
                            }
                        } else {
                            proof {
                                assert(image.spec_data() == diffuse_step(
                                    prev,
                                    cfg,
                                    x as int,
                                    y as int,
                                    ch as int,
                                    errv,
                                    o,
                                ));
                            }
                        }
                        k = k + 1;
                    }
                    proof {
                        assert(diffuse_from(
                            image.spec_data(),
                            cfg,
                            x as int,
                            y as int,
                            ch as int,
                            errv,
                            klen as int,
                        ) == image.spec_data());
                        assert(image.spec_data() == dither_cell(
                            before_cell,
                            cfg,
                            x as int,
                            y as int,
                            ch as int,
                        ));
                        assert(dither_chans_from(before_cell, cfg, x as int, y as int, ch as int)
                            == dither_chans_from(
                            image.spec_data(),
                            cfg,
                            x as int,
                            y as int,
                            ch as int + 1,
                        ));
                    }
                    ch = ch + 1;
                }
                proof {
                    assert(dither_chans_from(image.spec_data(), cfg, x as int, y as int, c as int)
                        == image.spec_data());
                }
                x = x + 1;
            }
            proof {
                assert(dither_row_from(image.spec_data(), cfg, w as int, y as int)
                    == image.spec_data());
            }
            y = y + 1;
        }
        proof {
            assert(dither_rows_from(image.spec_data(), cfg, h as int) == image.spec_data());
        }
    }
}

} // verus!
