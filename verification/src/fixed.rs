//! A fixed-point scalar: exact, saturating arithmetic in steps of 2^-32.
use crate::index::lemma_resolution_bound;
use crate::index::valid_resolution;
use crate::scalar::half;
use crate::scalar::one;
use crate::scalar::ExactScalar;
use crate::scalar::Scalar;
use vstd::prelude::*;

verus! {

/// Raw units per whole: 2^32.
pub const SCALE: i64 = 0x1_0000_0000;

/// The largest integer `n` for which `n + 1/2` lies within the range.
pub const EXACT_UPTO: i64 = 0x7fff_ffff;

/// The raw value nearest to `v` that an `i64` holds.
pub open spec fn saturate(v: int) -> i64 {
    if v > i64::MAX {
        i64::MAX
    } else if v < i64::MIN {
        i64::MIN
    } else {
        v as i64
    }
}

/// The absolute value.
pub open spec fn magnitude(a: int) -> int {
    if a < 0 {
        -a
    } else {
        a
    }
}

/// The quotient `a / b` rounded toward zero, for `b` other than zero.
pub open spec fn toward_zero(a: int, b: int) -> int {
    if (a < 0) == (b < 0) {
        magnitude(a) / magnitude(b)
    } else {
        -(magnitude(a) / magnitude(b))
    }
}

/// A number `raw / 2^32`. Results that leave the range of `raw` stick to the
/// nearest end of it; quotients and products are rounded toward zero.
#[derive(Clone, Copy, Debug, PartialEq, Eq, Structural)]
pub struct Fixed {
    /// The number in units of 2^-32.
    pub raw: i64,
}

fn saturated(v: i128) -> (r: i64)
    ensures
        r == saturate(v as int),
{
    if v > i64::MAX as i128 {
        i64::MAX
    } else if v < i64::MIN as i128 {
        i64::MIN
    } else {
        v as i64
    }
}

fn magnitude_of(a: i128) -> (r: u128)
    requires
        a > i128::MIN,
    ensures
        r == magnitude(a as int),
{
    if a < 0 {
        (-a) as u128
    } else {
        a as u128
    }
}

/// The value times 2^32.
fn scaled_up(a: i64) -> (r: i128)
    ensures
        r == a * SCALE,
        -0x8000_0000_0000_0000_0000_0000 <= r <= 0x8000_0000_0000_0000_0000_0000,
{
    assert(a * SCALE == a * 0x1_0000_0000) by {
        assert(SCALE == 0x1_0000_0000);
    }
    a as i128 * 0x1_0000_0000
}

/// The quotient `a / b` rounded toward zero.
fn divide_toward_zero(a: i128, b: i128) -> (r: i128)
    requires
        b != 0,
        a > i128::MIN,
        b > i128::MIN,
    ensures
        r == toward_zero(a as int, b as int),
{
    let top = magnitude_of(a);
    let bottom = magnitude_of(b);
    let q = top / bottom;
    proof {
        vstd::arithmetic::div_mod::lemma_div_is_ordered_by_denominator(top as int, 1, bottom as int);
    }
    if (a < 0) == (b < 0) {
        q as i128
    } else {
        -(q as i128)
    }
}

impl Scalar for Fixed {
    open spec fn from_int_spec(k: i64) -> Self {
        Fixed { raw: saturate(k * SCALE) }
    }

    fn from_int(k: i64) -> (r: Self) {
        Fixed { raw: saturated(scaled_up(k)) }
    }

    open spec fn plus_spec(self, rhs: Self) -> Self {
        Fixed { raw: saturate(self.raw + rhs.raw) }
    }

    fn plus(self, rhs: Self) -> (r: Self) {
        Fixed { raw: saturated(self.raw as i128 + rhs.raw as i128) }
    }

    open spec fn minus_spec(self, rhs: Self) -> Self {
        Fixed { raw: saturate(self.raw - rhs.raw) }
    }

    fn minus(self, rhs: Self) -> (r: Self) {
        Fixed { raw: saturated(self.raw as i128 - rhs.raw as i128) }
    }

    open spec fn times_spec(self, rhs: Self) -> Self {
        Fixed { raw: saturate(toward_zero(self.raw * rhs.raw, SCALE as int)) }
    }

    fn times(self, rhs: Self) -> (r: Self) {
        let a = self.raw;
        let b = rhs.raw;
        assert(-0x4000_0000_0000_0000_0000_0000_0000_0000 <= a * b
            <= 0x4000_0000_0000_0000_0000_0000_0000_0000) by (nonlinear_arith)
            requires
                -0x8000_0000_0000_0000 <= a <= 0x7fff_ffff_ffff_ffff,
                -0x8000_0000_0000_0000 <= b <= 0x7fff_ffff_ffff_ffff,
        ;
        let product = a as i128 * b as i128;
        Fixed { raw: saturated(divide_toward_zero(product, SCALE as i128)) }
    }

    /// A quotient by zero sticks to the end of the range on the side of the
    /// dividend; zero by zero is zero.
    open spec fn over_spec(self, rhs: Self) -> Self {
        if rhs.raw == 0 {
            Fixed {
                raw: if self.raw > 0 {
                    i64::MAX
                } else if self.raw < 0 {
                    i64::MIN
                } else {
                    0
                },
            }
        } else {
            Fixed { raw: saturate(toward_zero(self.raw * SCALE, rhs.raw as int)) }
        }
    }

    fn over(self, rhs: Self) -> (r: Self) {
        if rhs.raw == 0 {
            if self.raw > 0 {
                Fixed { raw: i64::MAX }
            } else if self.raw < 0 {
                Fixed { raw: i64::MIN }
            } else {
                Fixed { raw: 0 }
            }
        } else {
            Fixed { raw: saturated(divide_toward_zero(scaled_up(self.raw), rhs.raw as i128)) }
        }
    }

    open spec fn negated_spec(self) -> Self {
        Fixed { raw: saturate(-self.raw) }
    }

    fn negated(self) -> (r: Self) {
        Fixed { raw: saturated(-(self.raw as i128)) }
    }

    open spec fn less_than_spec(self, rhs: Self) -> bool {
        self.raw < rhs.raw
    }

    fn less_than(self, rhs: Self) -> (r: bool) {
        self.raw < rhs.raw
    }

    open spec fn floor_spec(self) -> i64 {
        (self.raw as int / SCALE as int) as i64
    }

    fn floor(self) -> (r: i64) {
        if self.raw >= 0 {
            self.raw / SCALE
        } else {
            let below = magnitude_of(self.raw as i128);
            let steps = (below + (SCALE as u128 - 1)) / SCALE as u128;
            -(steps as i64)
        }
    }
}

/// Scaling a raw value up and back down gives the value again.
proof fn lemma_scaled(a: int)
    ensures
        toward_zero(a * SCALE, SCALE as int) == a,
{
    assert(SCALE == 0x1_0000_0000);
    let p = a * 0x1_0000_0000;
    assert(a * SCALE == p);
    let m = magnitude(a);
    assert(magnitude(p) == m * 0x1_0000_0000);
    assert((m * 0x1_0000_0000) / 0x1_0000_0000 == m) by {
        vstd::arithmetic::div_mod::lemma_div_multiples_vanish(m, 0x1_0000_0000);
        assert(m * 0x1_0000_0000 == 0x1_0000_0000 * m);
    }
    assert(magnitude(p) / magnitude(SCALE as int) == m);
}

/// One half is 2^31 raw units.
proof fn lemma_half()
    ensures
        half::<Fixed>().raw == 0x8000_0000,
{
    assert(SCALE == 0x1_0000_0000);
    assert(one::<Fixed>().raw == 0x1_0000_0000);
    assert(Fixed::from_int_spec(2).raw == 0x2_0000_0000);
    assert(0x1_0000_0000 * SCALE == 0x1_0000_0000_0000_0000);
    assert(0x1_0000_0000_0000_0000int / 0x2_0000_0000int == 0x8000_0000);
}

/// Every usable resolution lies within the range in which fixed-point
/// numbers represent the lattice exactly.
pub proof fn lemma_exact_on_every_grid(n: int)
    requires
        valid_resolution(n),
    ensures
        3 <= n <= Fixed::exact_upto(),
{
    lemma_resolution_bound(n);
}

impl ExactScalar for Fixed {
    proof fn law_plus_zero(x: Self) {
    }

    proof fn law_minus(x: Self) {
    }

    proof fn law_times_zero(x: Self) {
        assert(x.raw * 0 == 0 && 0 * x.raw == 0) by (nonlinear_arith);
    }

    proof fn law_times_one(x: Self) {
        lemma_scaled(x.raw as int);
        assert(SCALE * x.raw == x.raw * SCALE) by (nonlinear_arith);
    }

    proof fn law_over(x: Self) {
        lemma_scaled(x.raw as int);
        if x.raw != 0 {
            assert(0 * SCALE == 0);
            vstd::arithmetic::div_mod::lemma_div_basics(magnitude(x.raw as int));
        }
    }

    proof fn law_negated_zero() {
    }

    open spec fn exact_upto() -> i64 {
        EXACT_UPTO
    }

    proof fn law_lattice(n: i64, k: i64) {
        lemma_half();
    }

    proof fn law_from_int_nonzero(k: i64) {
    }
}

} // verus!
