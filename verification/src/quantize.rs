//! The uniform quantizer for bounded-integer channel domains.
//!
//! The quantization step `delta = max / (levels - 1)` is kept as the exact
//! pair `(max, levels)` rather than a rounded value, so every result is
//! defined purely by integer arithmetic: a value is first snapped down to a
//! step boundary (`floor`), and the exact step position is then rounded to
//! the nearest representable integer.

use vstd::prelude::*;
use vstd::arithmetic::div_mod::{
    lemma_div_by_multiple, lemma_div_denominator, lemma_div_is_ordered, lemma_div_plus_one,
    lemma_div_pos_is_pos, lemma_fundamental_div_mod, lemma_mod_division_less_than_divisor,
};
use vstd::arithmetic::mul::{
    lemma_mul_inequality, lemma_mul_is_associative, lemma_mul_is_commutative,
    lemma_mul_is_distributive_add_other_way, lemma_mul_is_distributive_sub_other_way,
    lemma_mul_nonnegative, lemma_mul_upper_bound,
};
use crate::svec::SVec;

verus! {

/// Which step boundary `p` is snapped down to: `floor(p / delta)` with
/// `delta = max / (levels - 1)`, computed exactly as `p * (levels-1) / max`.
pub open spec fn quant_index(p: int, max: int, levels: int) -> int {
    p * (levels - 1) / max
}

/// The integer a step position `j * max / (levels - 1)` rounds to (nearest,
/// halves up): the `j`-th reachable quantization level.
pub open spec fn level_value(j: int, max: int, levels: int) -> int {
    (2 * j * max + (levels - 1)) / (2 * (levels - 1))
}

/// The quantized value of `p`: snap down to a step boundary, then round the
/// exact step position to the nearest integer.
pub open spec fn quantize_spec(p: int, max: int, levels: int) -> int {
    level_value(quant_index(p, max, levels), max, levels)
}

/// Quantization never raises a value: the step index stays within
/// `[0, levels)` and the rounded level stays within `[0, p]`.
pub proof fn lemma_quantize_le(p: int, max: int, levels: int)
    requires
        1 <= max,
        2 <= levels,
        0 <= p <= max,
    ensures
        0 <= quant_index(p, max, levels) <= levels - 1,
        0 <= quantize_spec(p, max, levels) <= p,
{
    let l1 = levels - 1;
    let k = quant_index(p, max, levels);
    lemma_mul_nonnegative(p, l1);
    lemma_div_pos_is_pos(p * l1, max);
    lemma_mul_inequality(p, max, l1);
    lemma_mul_is_commutative(max, l1);
    lemma_div_is_ordered(p * l1, l1 * max, max);
    lemma_div_by_multiple(l1, max);
    assert(k <= l1);

    lemma_fundamental_div_mod(p * l1, max);
    lemma_mod_division_less_than_divisor(p * l1, max);
    lemma_mul_is_commutative(max, k);
    assert(k * max <= p * l1);

    let num = 2 * k * max + l1;
    lemma_mul_nonnegative(k, max);
    lemma_mul_is_associative(2, k, max);
    assert(num >= l1);
    lemma_div_pos_is_pos(num, 2 * l1);
    assert(level_value(k, max, levels) >= 0);

    lemma_mul_is_associative(2, p, l1);
    assert(2 * k * max <= (2 * p) * l1);
    lemma_mul_is_distributive_add_other_way(l1, 2 * p, 1);
    assert((2 * p + 1) * l1 == (2 * p) * l1 + l1);
    lemma_div_is_ordered(num, (2 * p + 1) * l1, 2 * l1);
    lemma_div_denominator((2 * p + 1) * l1, l1, 2);
    lemma_mul_is_commutative(l1, 2);
    lemma_div_by_multiple(2 * p + 1, l1);
    assert(((2 * p + 1) * l1) / (2 * l1) == (2 * p + 1) / 2);
    assert(level_value(k, max, levels) <= p);
}

/// Every quantized value lands on one of the `levels` reachable level
/// values: the one indexed by the step the input was snapped to.
pub proof fn lemma_quantize_hits_level(p: int, max: int, levels: int)
    requires
        1 <= max,
        2 <= levels,
        0 <= p <= max,
    ensures
        0 <= quant_index(p, max, levels) < levels,
        quantize_spec(p, max, levels) == level_value(quant_index(p, max, levels), max, levels),
{
    lemma_quantize_le(p, max, levels);
}

/// The reachable levels are pairwise distinct: as long as the value range
/// holds at least `levels` integers, a larger level index gives a strictly
/// larger level value, so quantization reaches exactly `levels` values,
/// spaced by the exact step `max / (levels - 1)` up to rounding.
pub proof fn lemma_level_values_increase(i: int, j: int, max: int, levels: int)
    requires
        2 <= levels,
        levels - 1 <= max,
        0 <= i < j <= levels - 1,
    ensures
        level_value(i, max, levels) < level_value(j, max, levels),
{
    let l1 = levels - 1;
    let den = 2 * l1;
    let ni = 2 * i * max + l1;
    let nj = 2 * j * max + l1;
    lemma_mul_is_associative(2, i, max);
    lemma_mul_is_associative(2, j, max);
    lemma_mul_is_distributive_sub_other_way(max, j, i);
    assert(j * max - i * max == (j - i) * max);
    lemma_mul_inequality(1, j - i, max);
    assert(nj - ni >= 2 * max);
    assert(nj >= ni + den);
    lemma_mul_nonnegative(i, max);
    lemma_div_plus_one(ni, den);
    lemma_div_is_ordered(den + ni, nj, den);
    assert(level_value(i, max, levels) < level_value(j, max, levels));
}

/// When the step `max / (levels - 1)` is a whole number, every reachable
/// level is a fixed point: quantizing a level value returns it unchanged.
pub proof fn lemma_quantize_fixed_point(j: int, max: int, levels: int)
    requires
        1 <= max,
        2 <= levels,
        max % (levels - 1) == 0,
        0 <= j <= levels - 1,
    ensures
        quantize_spec(level_value(j, max, levels), max, levels) == level_value(j, max, levels),
{
    let l1 = levels - 1;
    let delta = max / l1;
    lemma_fundamental_div_mod(max, l1);
    assert(max == l1 * delta);
    lemma_div_pos_is_pos(max, l1);
    assert(delta >= 1) by {
        if delta == 0 {
            assert(l1 * delta == 0) by {
                lemma_mul_is_commutative(l1, delta);
            }
        }
    }

    // level_value(j) is exactly j * delta.
    let num = 2 * j * max + l1;
    assert(2 * j * max == (2 * j * delta) * l1) by {
        lemma_mul_is_associative(2, j, max);
        lemma_mul_is_associative(2, j, delta);
        lemma_mul_is_associative(j, l1, delta);
        lemma_mul_is_commutative(j, l1);
        lemma_mul_is_associative(l1, j, delta);
        lemma_mul_is_commutative(l1, j * delta);
        lemma_mul_is_associative(2, j * delta, l1);
        assert(j * max == j * (l1 * delta));
        assert(j * (l1 * delta) == (j * l1) * delta);
        assert((j * l1) * delta == (l1 * j) * delta);
        assert((l1 * j) * delta == l1 * (j * delta));
        assert(l1 * (j * delta) == (j * delta) * l1);
        assert(2 * (j * max) == 2 * ((j * delta) * l1));
        assert(2 * ((j * delta) * l1) == (2 * (j * delta)) * l1);
    }
    lemma_mul_is_distributive_add_other_way(l1, 2 * j * delta, 1);
    assert(num == (2 * j * delta + 1) * l1);
    lemma_mul_nonnegative(j, delta);
    lemma_div_denominator((2 * j * delta + 1) * l1, l1, 2);
    lemma_mul_is_commutative(l1, 2);
    lemma_div_by_multiple(2 * j * delta + 1, l1);
    assert(level_value(j, max, levels) == (2 * (j * delta) + 1) / 2) by {
        lemma_mul_is_associative(2, j, delta);
    }
    assert(level_value(j, max, levels) == j * delta);

    // Snapping j * delta lands back on step index j.
    assert((j * delta) * l1 == j * max) by {
        lemma_mul_is_associative(j, delta, l1);
        lemma_mul_is_commutative(delta, l1);
        lemma_mul_is_associative(j, l1, delta);
        lemma_mul_is_commutative(l1, delta);
    }
    lemma_div_by_multiple(j, max);
    lemma_mul_nonnegative(j, max);
    assert(quant_index(j * delta, max, levels) == j);
}

/// The uniform quantizer for a bounded-integer channel domain: the exact
/// step is `max / (levels - 1)`, kept as the pair of its parts. Immutable
/// once constructed.
#[derive(Debug, Clone, Copy)]
pub struct Quantize {
    max: u32,
    levels: u32,
}

impl Quantize {
    /// The largest representable channel value of the domain.
    pub closed spec fn spec_max(&self) -> u32 {
        self.max
    }

    /// How many distinct levels quantization may produce.
    pub closed spec fn spec_levels(&self) -> u32 {
        self.levels
    }

    /// At least two levels (one step), and a nonempty value range.
    pub open spec fn wf(&self) -> bool {
        1 <= self.spec_max() && 2 <= self.spec_levels()
    }

    /// Builds the quantizer for a bounded-integer domain whose largest value
    /// is `max_value`. Fewer than two levels leave the step undefined, so
    /// construction demands `colors_per_channel >= 2`.
    pub fn new(max_value: u32, colors_per_channel: u32) -> (r: Self)
        requires
            1 <= max_value,
            2 <= colors_per_channel,
        ensures
            r.wf(),
            r.spec_max() == max_value,
            r.spec_levels() == colors_per_channel,
    {
        Quantize { max: max_value, levels: colors_per_channel }
    }
}

/// Executable quantization of one channel value, exactly as `quantize_spec`
/// describes it.
fn quantize_core(pix: u64, max: u64, levels: u64) -> (r: u64)
    requires
        1 <= max <= u32::MAX,
        2 <= levels <= u32::MAX,
        pix <= max,
    ensures
        r == quantize_spec(pix as int, max as int, levels as int),
        r <= pix,
{
    proof {
        lemma_quantize_le(pix as int, max as int, levels as int);
        lemma_mul_upper_bound(pix as int, u32::MAX as int, (levels - 1) as int, u32::MAX as int);
    }
    let l1: u64 = levels - 1;
    let k: u64 = pix * l1 / max;
    proof {
        lemma_mul_upper_bound(2 * (k as int), 2 * (u32::MAX as int), max as int, u32::MAX as int);
    }
    let num: u128 = 2 * (k as u128) * (max as u128) + (l1 as u128);
    let den: u128 = 2 * (l1 as u128);
    let r128: u128 = num / den;
    r128 as u64
}

/// Per-channel-type quantization: mapping one value to its nearest reachable
/// level, and quantizing a whole buffer in place.
pub trait QuantizeTrait<T> {
    /// When quantization of one channel value is defined for this quantizer.
    spec fn quant_pre(&self, pix: T) -> bool;

    /// The level the value is mapped to.
    spec fn quantized(&self, pix: T) -> T;

    /// Maps one channel value to the quantized level it falls on. Calling it
    /// twice on the same input yields the same output: the result is a pure
    /// function of the value and the quantizer's step.
    fn get_new_pix(&self, pix: T) -> (r: T)
        requires
            self.quant_pre(pix),
        ensures
            r == self.quantized(pix),
    ;

    /// Quantizes every channel value of the buffer in place; the shape is
    /// untouched.
    fn quantize_img(&self, image: &mut SVec<T>)
        requires
            forall|i: int|
                0 <= i < old(image).spec_data().len() ==> self.quant_pre(
                    #[trigger] old(image).spec_data()[i],
                ),
        ensures
            final(image).spec_shape() == old(image).spec_shape(),
            final(image).spec_data().len() == old(image).spec_data().len(),
            forall|i: int|
                0 <= i < old(image).spec_data().len() ==> final(image).spec_data()[i]
                    == self.quantized(#[trigger] old(image).spec_data()[i]),
    ;
}

impl QuantizeTrait<u8> for Quantize {
    /// The quantizer must be the one for the full `u8` value range.
    open spec fn quant_pre(&self, pix: u8) -> bool {
        self.wf() && self.spec_max() == 255
    }

    open spec fn quantized(&self, pix: u8) -> u8 {
        quantize_spec(pix as int, self.spec_max() as int, self.spec_levels() as int) as u8
    }

    fn get_new_pix(&self, pix: u8) -> (r: u8) {
        proof {
            lemma_quantize_le(pix as int, self.spec_max() as int, self.spec_levels() as int);
        }
        let q: u64 = quantize_core(pix as u64, self.max as u64, self.levels as u64);
        q as u8
    }

    #[verifier::loop_isolation(false)]
    fn quantize_img(&self, image: &mut SVec<u8>) {
        let n: usize = image.get_data().len();
        let mut i: usize = 0;
        while i < n
            invariant
                i <= n,
                image.spec_data().len() == n,
                image.spec_shape() == old(image).spec_shape(),
                forall|j: int|
                    0 <= j < i ==> image.spec_data()[j] == self.quantized(
                        #[trigger] old(image).spec_data()[j],
                    ),
                forall|j: int|
                    i <= j < n ==> image.spec_data()[j] == #[trigger] old(image).spec_data()[j],
            decreases n - i,
        {
            let pix: u8 = *image.get_at(i);
            assert(pix == old(image).spec_data()[i as int]);
            let q: u8 = self.get_new_pix(pix);
            image.set_at(i, q);
            i = i + 1;
        }
    }
}

impl QuantizeTrait<u16> for Quantize {
    /// The quantizer must be the one for the full `u16` value range.
    open spec fn quant_pre(&self, pix: u16) -> bool {
        self.wf() && self.spec_max() == 65535
    }

    open spec fn quantized(&self, pix: u16) -> u16 {
        quantize_spec(pix as int, self.spec_max() as int, self.spec_levels() as int) as u16
    }

    fn get_new_pix(&self, pix: u16) -> (r: u16) {
        proof {
            lemma_quantize_le(pix as int, self.spec_max() as int, self.spec_levels() as int);
        }
        let q: u64 = quantize_core(pix as u64, self.max as u64, self.levels as u64);
        q as u16
    }

    #[verifier::loop_isolation(false)]
    fn quantize_img(&self, image: &mut SVec<u16>) {
        let n: usize = image.get_data().len();
        let mut i: usize = 0;
        while i < n
            invariant
                i <= n,
                image.spec_data().len() == n,
                image.spec_shape() == old(image).spec_shape(),
                forall|j: int|
                    0 <= j < i ==> image.spec_data()[j] == self.quantized(
                        #[trigger] old(image).spec_data()[j],
                    ),
                forall|j: int|
                    i <= j < n ==> image.spec_data()[j] == #[trigger] old(image).spec_data()[j],
            decreases n - i,
        {
            let pix: u16 = *image.get_at(i);
            assert(pix == old(image).spec_data()[i as int]);
            let q: u16 = self.get_new_pix(pix);
            image.set_at(i, q);
            i = i + 1;
        }
    }
}

} // verus!
