//! Placement of single-precision values on the integer lattice.
//!
//! A value arrives as the 32 bits of its IEEE 754 encoding and is decoded with
//! integer arithmetic alone. The lattice has `2^resolution` points to the
//! physical unit; a negative resolution makes it coarser than the unit.

use vstd::prelude::*;
use vstd::arithmetic::div_mod::lemma_fundamental_div_mod;
use vstd::arithmetic::power2::{lemma2_to64, lemma_pow2_adds, lemma_pow2_pos, lemma_pow2_strictly_increases, lemma_pow2_unfold, pow2};

verus! {

/// The biased exponent field of an encoding.
pub open spec fn exponent_field(bits: u32) -> int {
    ((bits / 0x80_0000) % 0x100) as int
}

/// The encoding is that of a number, not of an infinity or a NaN.
pub open spec fn finite(bits: u32) -> bool {
    exponent_field(bits) != 0xff
}

/// The sign bit of the encoding is set.
pub open spec fn negative(bits: u32) -> bool {
    bits >= 0x8000_0000
}

/// The integer significand of a finite encoding, with the implicit leading
/// bit of a normal number.
pub open spec fn significand(bits: u32) -> nat {
    let fraction = (bits % 0x80_0000) as nat;
    if exponent_field(bits) == 0 {
        fraction
    } else {
        fraction + 0x80_0000
    }
}

/// The power of two by which the significand is scaled: the magnitude of a
/// finite encoding is `significand * 2^exponent`.
pub open spec fn exponent(bits: u32) -> int {
    if exponent_field(bits) == 0 {
        -149
    } else {
        exponent_field(bits) - 150
    }
}

/// `m * 2^s`, rounded to the nearest integer, a half rounded up.
pub open spec fn scaled(m: nat, s: int) -> nat {
    if s >= 0 {
        m * pow2(s as nat)
    } else {
        ((2 * m + pow2((-s) as nat)) / (2 * pow2((-s) as nat))) as nat
    }
}

/// The lattice coordinate nearest to the encoded value, a value halfway
/// between two coordinates going to the one farther from zero. There is none
/// for an infinity or a NaN, nor where the magnitude exceeds `i32::MAX`.
pub open spec fn quantized(bits: u32, resolution: i32) -> Option<i32> {
    let magnitude = scaled(significand(bits), exponent(bits) + resolution);
    if !finite(bits) || magnitude > i32::MAX {
        None
    } else if negative(bits) {
        Some((-magnitude) as i32)
    } else {
        Some(magnitude as i32)
    }
}

/// A coarser lattice brings a magnitude no farther from zero.
pub proof fn lemma_scaled_grows(m: nat, s: int)
    ensures
        scaled(m, s) <= scaled(m, s + 1),
{
    lemma2_to64();
    if s >= 0 {
        let p = pow2(s as nat) as int;
        lemma_pow2_unfold((s + 1) as nat);
        assert(pow2((s + 1) as nat) == 2 * p);
        assert(m * p <= m * (2 * p)) by (nonlinear_arith)
            requires
                p >= 0,
                m >= 0,
        ;
        assert(scaled(m, s) == m * p);
        assert(scaled(m, s + 1) == m * (2 * p));
    } else if s == -1 {
        assert(m * 1 == m);
        assert(scaled(m, s) == (2 * m + 2) / 4);
        assert(scaled(m, s + 1) == m);
    } else {
        let q = pow2((-s - 1) as nat) as int;
        lemma_pow2_unfold((-s) as nat);
        lemma_pow2_pos((-s - 1) as nat);
        assert(pow2((-s) as nat) == 2 * q);
        let a = (2 * m + 2 * q) / (4 * q);
        let b = (2 * m + q) / (2 * q);
        lemma_fundamental_div_mod(2 * m + 2 * q, 4 * q);
        lemma_fundamental_div_mod(2 * m + q, 2 * q);
        assert(0 <= a <= b) by (nonlinear_arith)
            requires
                q > 0,
                m >= 0,
                2 * m + 2 * q == (4 * q) * a + (2 * m + 2 * q) % (4 * q),
                0 <= (2 * m + 2 * q) % (4 * q) < 4 * q,
                2 * m + q == (2 * q) * b + (2 * m + q) % (2 * q),
                0 <= (2 * m + q) % (2 * q) < 2 * q,
        ;
        assert(2 * (2 * q) == 4 * q);
        assert(scaled(m, s) == a);
        assert(scaled(m, s + 1) == b);
    }
}

/// What a lattice holds, every coarser lattice holds too.
pub proof fn lemma_coarser_holds(bits: u32, resolution: i32)
    requires
        resolution < i32::MAX,
        quantized(bits, (resolution + 1) as i32) is Some,
    ensures
        quantized(bits, resolution) is Some,
{
    lemma_scaled_grows(significand(bits), exponent(bits) + resolution);
}

/// Rounding moves a scaled value by half a lattice unit at most: for a
/// negative shift `s`, the result times `2^-s` differs from `m` by no more
/// than half of `2^-s`. For any other shift nothing is rounded.
pub proof fn lemma_scaled_is_nearest(m: nat, s: int)
    requires
        s < 0,
    ensures
        -pow2((-s) as nat) <= 2 * (scaled(m, s) * pow2((-s) as nat) - m) <= pow2((-s) as nat),
{
    let p = pow2((-s) as nat) as int;
    lemma_pow2_pos((-s) as nat);
    let q = (2 * m + p) / (2 * p);
    lemma_fundamental_div_mod(2 * m + p, 2 * p);
    assert(-p <= 2 * (q * p - m) <= p) by (nonlinear_arith)
        requires
            p > 0,
            2 * m + p == (2 * p) * q + (2 * m + p) % (2 * p),
            0 <= (2 * m + p) % (2 * p) < 2 * p,
    ;
}

fn power_of_two(n: u32) -> (r: u128)
    requires
        n <= 97,
    ensures
        r == pow2(n as nat),
        1 <= r <= 0x2_0000_0000_0000_0000_0000_0000,
{
    let mut r: u128 = 1;
    let mut i: u32 = 0;
    proof {
        lemma2_to64();
        lemma_pow2_unfold(33);
        lemma_pow2_adds(64, 33);
        assert(pow2(97) == 0x2_0000_0000_0000_0000_0000_0000);
    }
    while i < n
        invariant
            0 <= i <= n <= 97,
            r == pow2(i as nat),
            1 <= r,
            pow2(97) == 0x2_0000_0000_0000_0000_0000_0000,
        decreases n - i,
    {
        proof {
            lemma_pow2_unfold((i + 1) as nat);
            if i + 1 < 97 {
                lemma_pow2_strictly_increases((i + 1) as nat, 97);
            }
        }
        r = r * 2;
        i = i + 1;
    }
    proof {
        if n < 97 {
            lemma_pow2_strictly_increases(n as nat, 97);
        }
    }
    r
}

/// The magnitude `m * 2^s` rounded to the lattice, if it does not exceed
/// `i32::MAX`.
fn scale(m: u128, s: i64) -> (r: Option<i32>)
    requires
        m < 0x1_0000_0000_0000_0000_0000_0000,
    ensures
        match r {
            Some(v) => v == scaled(m as nat, s as int),
            None => scaled(m as nat, s as int) > i32::MAX,
        },
{
    proof {
        lemma2_to64();
    }
    if s >= 0 {
        if m == 0 {
            assert(0 * pow2(s as nat) == 0);
            return Some(0);
        }
        if s >= 31 {
            proof {
                if s > 31 {
                    lemma_pow2_strictly_increases(31, s as nat);
                }
                assert(m * pow2(s as nat) >= 0x8000_0000) by (nonlinear_arith)
                    requires
                        m >= 1,
                        pow2(s as nat) >= 0x8000_0000,
                ;
            }
            return None;
        }
        let p: u128 = power_of_two(s as u32);
        proof {
            if s < 30 {
                lemma_pow2_strictly_increases(s as nat, 30);
            }
        }
        assert(0 <= m * p <= 0x1_0000_0000_0000_0000_0000_0000 * 0x4000_0000) by (nonlinear_arith)
            requires
                0 <= m < 0x1_0000_0000_0000_0000_0000_0000,
                1 <= p <= 0x4000_0000,
        ;
        let wide: u128 = m * p;
        if wide > i32::MAX as u128 {
            None
        } else {
            Some(wide as i32)
        }
    } else {
        if s <= -98 {
            proof {
                lemma_pow2_unfold(33);
                lemma_pow2_adds(64, 33);
                lemma_pow2_unfold(98);
                if s < -98 {
                    lemma_pow2_strictly_increases(98, (-s) as nat);
                }
                let p = pow2((-s) as nat) as int;
                assert((2 * m + p) / (2 * p) == 0) by (nonlinear_arith)
                    requires
                        0 <= 2 * m < p,
                ;
            }
            return Some(0);
        }
        let p: u128 = power_of_two((-s) as u32);
        let wide: u128 = (2 * m + p) / (2 * p);
        if wide > i32::MAX as u128 {
            None
        } else {
            Some(wide as i32)
        }
    }
}

/// Places the value with the encoding `bits` on the lattice.
pub fn quantize(bits: u32, resolution: i32) -> (r: Option<i32>)
    ensures
        r == quantized(bits, resolution),
{
    let field: u32 = (bits / 0x80_0000) % 0x100;
    if field == 0xff {
        return None;
    }
    let fraction: u32 = bits % 0x80_0000;
    let m: u32 = if field == 0 { fraction } else { fraction + 0x80_0000 };
    let e: i64 = if field == 0 { -149 } else { field as i64 - 150 };
    match scale(m as u128, e + resolution as i64) {
        None => None,
        Some(magnitude) => {
            if bits >= 0x8000_0000 {
                Some(-magnitude)
            } else {
                Some(magnitude)
            }
        },
    }
}

/// The distance between neighbouring voxels along one axis, held exactly: its
/// magnitude is `significand * 2^shift` lattice units.
#[derive(Clone, Copy, Debug, PartialEq, Eq, Structural)]
pub struct Step {
    pub negative: bool,
    pub significand: u32,
    pub shift: i64,
}

impl Step {
    /// The lattice coordinate of the `i`-th voxel: `i` times the step, rounded
    /// once, to the nearest coordinate, and away from zero where two are
    /// equally near.
    pub open spec fn times(self, i: nat) -> int {
        let magnitude = scaled((i * self.significand) as nat, self.shift as int);
        if self.negative {
            -magnitude
        } else {
            magnitude as int
        }
    }

    /// The step of the value with the encoding `bits`, or `None` for an
    /// infinity or a NaN.
    pub open spec fn decoded(bits: u32, resolution: i32) -> Option<Step> {
        if finite(bits) {
            Some(
                Step {
                    negative: negative(bits),
                    significand: significand(bits) as u32,
                    shift: (exponent(bits) + resolution) as i64,
                },
            )
        } else {
            None
        }
    }

    /// The step of a whole number of lattice units.
    pub fn whole(units: i32) -> (s: Step)
        ensures
            s == (Step { negative: units < 0, significand: if units < 0 { -units } else { units as int } as u32, shift: 0 }),
            forall|i: nat| #[trigger] s.times(i) == i * units,
    {
        let magnitude: u32 = if units < 0 { (-(units as i64)) as u32 } else { units as u32 };
        let s = Step { negative: units < 0, significand: magnitude, shift: 0 };
        proof {
            lemma2_to64();
            assert forall|i: nat| #[trigger] s.times(i) == i * units by {
                assert(scaled((i * magnitude) as nat, 0) == (i * magnitude) * 1);
                assert(i * magnitude == if units < 0 { -(i * units) } else { i * units }) by (nonlinear_arith)
                    requires
                        magnitude == if units < 0 { -units } else { units as int },
                ;
            }
        }
        s
    }

    /// Reads the step of the value with the encoding `bits`.
    pub fn decode(bits: u32, resolution: i32) -> (r: Option<Step>)
        ensures
            r == Step::decoded(bits, resolution),
    {
        let field: u32 = (bits / 0x80_0000) % 0x100;
        if field == 0xff {
            return None;
        }
        let fraction: u32 = bits % 0x80_0000;
        let m: u32 = if field == 0 { fraction } else { fraction + 0x80_0000 };
        let e: i64 = if field == 0 { -149 } else { field as i64 - 150 };
        Some(Step { negative: bits >= 0x8000_0000, significand: m, shift: e + resolution as i64 })
    }

    /// The lattice coordinate of the `i`-th voxel, or `None` where it lies
    /// beyond the lattice.
    pub fn advance(&self, i: usize) -> (r: Option<i32>)
        ensures
            match r {
                Some(v) => v == self.times(i as nat),
                None => self.times(i as nat) < -i32::MAX || self.times(i as nat) > i32::MAX,
            },
    {
        assert(0 <= i * self.significand < 0x1_0000_0000_0000_0000 * 0x1_0000_0000) by (nonlinear_arith)
            requires
                0 <= i < 0x1_0000_0000_0000_0000,
                0 <= self.significand < 0x1_0000_0000,
        ;
        let product: u128 = (i as u128) * (self.significand as u128);
        match scale(product, self.shift) {
            None => None,
            Some(magnitude) => {
                if self.negative {
                    Some(-magnitude)
                } else {
                    Some(magnitude)
                }
            },
        }
    }
}

} // verus!
