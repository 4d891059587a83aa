//! Duty-scale mapper: linear remap of a normalized drive command onto the
//! hardware duty-cycle range of a PWM channel.
//!
//! The normalized command is held in fixed point, in thousandths of full
//! scale: 1000 stands for full forward (+1), -1000 for full reverse (-1),
//! and 0 for neutral.

use vstd::arithmetic::div_mod::lemma_div_is_ordered;
use vstd::arithmetic::div_mod::lemma_fundamental_div_mod;
use vstd::arithmetic::div_mod::lemma_fundamental_div_mod_converse;
use vstd::arithmetic::mul::lemma_mul_inequality;
use vstd::prelude::*;

verus! {

/// The exact value `to_scale` returns: the command `value` (in thousandths
/// of full scale) remapped linearly from [-1000, 1000] onto
/// [new_min, new_max], rounding toward negative infinity.
pub open spec fn scale_spec(new_max: u16, new_min: u16, value: int) -> int {
    (value + 1000) * (new_max - new_min) / 2000 + new_min
}

/// Map a normalized drive command onto the duty-cycle range of a PWM
/// channel. -1000 maps to `new_min` (full reverse), 1000 to `new_max`
/// (full forward), 0 to the midpoint (stop). Callers clamp the command
/// into [-1000, 1000] before calling.
pub fn to_scale(new_max: u16, new_min: u16, value: i16) -> (r: u16)
    requires
        new_min <= new_max,
        -1000 <= value <= 1000,
    ensures
        r == scale_spec(new_max, new_min, value as int),
        new_min <= r <= new_max,
{
    let span: u32 = (new_max - new_min) as u32;
    let offset: u32 = (value + 1000) as u32;
    proof {
        lemma_mul_inequality(offset as int, 2000, span as int);
        lemma_div_is_ordered(offset as int * span as int, 2000 * (span as int), 2000);
        lemma_fundamental_div_mod_converse(2000 * (span as int), 2000, span as int, 0);
    }
    let num: u32 = offset * span;
    let r32: u32 = num / 2000 + new_min as u32;
    r32 as u16
}

/// The endpoint and midpoint laws of the duty-scale mapper: full reverse
/// lands on `new_min`, full forward on `new_max`, and neutral on the
/// midpoint of the range (within integer rounding).
pub proof fn lemma_to_scale_endpoints(new_max: u16, new_min: u16)
    requires
        new_min <= new_max,
    ensures
        scale_spec(new_max, new_min, -1000) == new_min,
        scale_spec(new_max, new_min, 1000) == new_max,
        scale_spec(new_max, new_min, 0) == (new_max + new_min) / 2,
{
    let span: int = new_max - new_min;
    lemma_fundamental_div_mod_converse(0, 2000, 0, 0);
    lemma_fundamental_div_mod_converse(2000 * span, 2000, span, 0);
    // The midpoint: span = 2 * (span / 2) + span % 2, so
    // 1000 * span = 2000 * (span / 2) + 1000 * (span % 2).
    lemma_fundamental_div_mod(span, 2);
    lemma_fundamental_div_mod_converse(1000 * span, 2000, span / 2, 1000 * (span % 2));
    lemma_fundamental_div_mod_converse(new_max + new_min, 2, span / 2 + new_min, span % 2);
}

/// Monotonicity of the duty-scale mapper: a larger command never yields a
/// smaller duty count.
pub proof fn lemma_to_scale_monotonic(new_max: u16, new_min: u16, a: int, b: int)
    requires
        new_min <= new_max,
        -1000 <= a <= b <= 1000,
    ensures
        scale_spec(new_max, new_min, a) <= scale_spec(new_max, new_min, b),
{
    let span: int = new_max - new_min;
    lemma_mul_inequality(a + 1000, b + 1000, span);
    lemma_div_is_ordered((a + 1000) * span, (b + 1000) * span, 2000);
}

} // verus!
