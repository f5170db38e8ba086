//! The plain values that pass between the integrators and the renderer.
//!
//! Single-precision numbers are carried by their bit patterns: storing, copying, zeroing,
//! negating and comparing against a non-negative bound are exact on the bits, and all other
//! arithmetic is written down as an expression (see [`crate::expr`]) for the device to run.
use vstd::prelude::*;

verus! {

/// The index that means "none" in every table of indices.
pub const NONE: u32 = 0xffff_ffff;

/// The bit pattern of one.
pub const ONE_BITS: u32 = 0x3f80_0000;

/// The bit pattern of one half.
pub const HALF_BITS: u32 = 0x3f00_0000;

/// The bit pattern of positive infinity, the largest of the non-negative numbers.
pub const INFINITY_BITS: u32 = 0x7f80_0000;

/// The bit pattern of negative zero, which is the sign bit alone.
pub const SIGN_BIT: u32 = 0x8000_0000;

/// The bit pattern of negative infinity, the last of the negative numbers.
pub const NEG_INFINITY_BITS: u32 = 0xff80_0000;

/// The bit pattern of `1e20`, the length of a ray that nothing limits.
pub const RAY_T_MAX_BITS: u32 = 0x60ad_78ec;

/// A single-precision number, held by its bit pattern.
#[derive(Clone, Copy, Debug, PartialEq, Eq, Structural)]
pub struct Single {
    pub bits: u32,
}

impl Single {
    pub open spec fn spec_zero() -> Single {
        Single { bits: 0 }
    }

    /// Positive zero.
    #[verifier::when_used_as_spec(spec_zero)]
    pub fn zero() -> (r: Single)
        ensures
            r == Single::spec_zero(),
    {
        Single { bits: 0 }
    }

    pub open spec fn spec_one() -> Single {
        Single { bits: ONE_BITS }
    }

    /// One.
    #[verifier::when_used_as_spec(spec_one)]
    pub fn one() -> (r: Single)
        ensures
            r == Single::spec_one(),
    {
        Single { bits: ONE_BITS }
    }

    pub open spec fn spec_half() -> Single {
        Single { bits: HALF_BITS }
    }

    /// One half.
    #[verifier::when_used_as_spec(spec_half)]
    pub fn half() -> (r: Single)
        ensures
            r == Single::spec_half(),
    {
        Single { bits: HALF_BITS }
    }

    /// The number is above zero.
    pub open spec fn is_positive(self) -> bool {
        1 <= self.bits <= INFINITY_BITS
    }

    /// The number is one of the two zeros.
    pub open spec fn is_zero(self) -> bool {
        self.bits == 0 || self.bits == SIGN_BIT
    }

    /// The number is below zero.
    pub open spec fn is_negative(self) -> bool {
        SIGN_BIT < self.bits <= NEG_INFINITY_BITS
    }

    /// The number is above `bound`. Non-negative numbers are ordered as their bit patterns are.
    pub open spec fn exceeds(self, bound: Single) -> bool {
        bound.bits < self.bits <= INFINITY_BITS
    }

    /// `self > 0`.
    pub fn gt_zero(self) -> (r: bool)
        ensures
            r == self.is_positive(),
    {
        1 <= self.bits && self.bits <= INFINITY_BITS
    }

    /// `self <= 0`, which an undefined number (NaN) is not.
    pub fn le_zero(self) -> (r: bool)
        ensures
            r == (self.is_zero() || self.is_negative()),
    {
        self.bits == 0 || (SIGN_BIT <= self.bits && self.bits <= NEG_INFINITY_BITS)
    }

    /// `self > bound`, for a bound that is not negative.
    pub fn gt(self, bound: Single) -> (r: bool)
        requires
            bound.bits <= INFINITY_BITS,
        ensures
            r == self.exceeds(bound),
    {
        bound.bits < self.bits && self.bits <= INFINITY_BITS
    }

    /// The number is below `bound`, where the bound is above zero.
    pub open spec fn falls_below(self, bound: Single) -> bool {
        self.bits < bound.bits || self.is_zero() || self.is_negative()
    }

    /// `self < bound`, for a bound that is above zero.
    pub fn lt(self, bound: Single) -> (r: bool)
        requires
            bound.is_positive(),
        ensures
            r == self.falls_below(bound),
    {
        self.bits < bound.bits || self.le_zero()
    }

    pub open spec fn spec_neg(self) -> Single {
        Single { bits: self.bits ^ SIGN_BIT }
    }

    /// The number with the other sign.
    #[verifier::when_used_as_spec(spec_neg)]
    pub fn neg(self) -> (r: Single)
        ensures
            r == self.spec_neg(),
    {
        Single { bits: self.bits ^ SIGN_BIT }
    }
}

/// No bit pattern is two of positive, zero and negative.
pub proof fn law_sign_is_unique(a: Single)
    ensures
        !(a.is_positive() && a.is_zero()),
        !(a.is_positive() && a.is_negative()),
        !(a.is_zero() && a.is_negative()),
{
}

/// Negating twice gives the number back, and negating swaps the positive and the negative.
pub proof fn law_negation(a: Single)
    ensures
        a.spec_neg().spec_neg() == a,
        a.spec_neg().is_positive() <==> a.is_negative(),
        a.spec_neg().is_zero() <==> a.is_zero(),
{
    let b = a.bits;
    assert((b ^ 0x8000_0000u32) ^ 0x8000_0000u32 == b) by (bit_vector);
    assert(b < 0x8000_0000u32 ==> b ^ 0x8000_0000u32 == b + 0x8000_0000u32) by (bit_vector);
    assert(b >= 0x8000_0000u32 ==> b ^ 0x8000_0000u32 == b - 0x8000_0000u32) by (bit_vector);
}

#[derive(Clone, Copy, Debug, PartialEq, Eq, Structural)]
pub struct Float2 {
    pub x: Single,
    pub y: Single,
}

#[derive(Clone, Copy, Debug, PartialEq, Eq, Structural)]
pub struct Float3 {
    pub x: Single,
    pub y: Single,
    pub z: Single,
}

impl Float3 {
    pub open spec fn spec_zero() -> Float3 {
        Float3 { x: Single::zero(), y: Single::zero(), z: Single::zero() }
    }

    /// The zero vector.
    #[verifier::when_used_as_spec(spec_zero)]
    pub fn zero() -> (r: Float3)
        ensures
            r == Float3::spec_zero(),
    {
        Float3 { x: Single::zero(), y: Single::zero(), z: Single::zero() }
    }

    pub open spec fn spec_neg(self) -> Float3 {
        Float3 { x: self.x.neg(), y: self.y.neg(), z: self.z.neg() }
    }

    /// The opposite vector.
    #[verifier::when_used_as_spec(spec_neg)]
    pub fn neg(self) -> (r: Float3)
        ensures
            r == self.spec_neg(),
    {
        Float3 { x: self.x.neg(), y: self.y.neg(), z: self.z.neg() }
    }
}

#[derive(Clone, Copy, Debug, PartialEq, Eq, Structural)]
pub struct Uint2 {
    pub x: u32,
    pub y: u32,
}

#[derive(Clone, Copy, Debug, PartialEq, Eq, Structural)]
pub struct Uint3 {
    pub x: u32,
    pub y: u32,
    pub z: u32,
}

/// What a path has met so far, as far as it decides how light is stylized along it.
#[derive(Clone, Copy, Debug, PartialEq, Eq, Structural)]
pub struct StylizationFlags {
    pub stylization_disabled: bool,
    pub style_index: u32,
}

impl StylizationFlags {
    pub open spec fn spec_zeroed() -> StylizationFlags {
        StylizationFlags { stylization_disabled: false, style_index: 0 }
    }

    /// The flags of a path that has met nothing.
    #[verifier::when_used_as_spec(spec_zeroed)]
    pub fn zeroed() -> (r: StylizationFlags)
        ensures
            r == StylizationFlags::spec_zeroed(),
    {
        StylizationFlags { stylization_disabled: false, style_index: 0 }
    }

    /// Both flags agree in every part.
    pub fn is_equal(self, other: StylizationFlags) -> (r: bool)
        ensures
            r == (self == other),
    {
        self == other
    }
}

/// Where a ray met a surface: the instance, the primitive and the point on it.
#[derive(Clone, Copy, Debug, PartialEq, Eq, Structural)]
pub struct SurfaceHit {
    pub inst_id: u32,
    pub prim_id: u32,
    pub bary: Float2,
}

impl SurfaceHit {
    pub open spec fn spec_zeroed() -> SurfaceHit {
        SurfaceHit {
            inst_id: 0,
            prim_id: 0,
            bary: Float2 { x: Single::zero(), y: Single::zero() },
        }
    }

    /// The hit whose every byte is zero.
    #[verifier::when_used_as_spec(spec_zeroed)]
    pub fn zeroed() -> (r: SurfaceHit)
        ensures
            r == SurfaceHit::spec_zeroed(),
    {
        SurfaceHit { inst_id: 0, prim_id: 0, bary: Float2 { x: Single::zero(), y: Single::zero() } }
    }
}

/// A ray, with up to two primitives that it passes through.
#[derive(Clone, Copy, Debug, PartialEq, Eq, Structural)]
pub struct Ray {
    pub o: Float3,
    pub d: Float3,
    pub t_min: Single,
    pub t_max: Single,
    pub exclude0: Uint2,
    pub exclude1: Uint2,
}

impl Ray {
    pub open spec fn spec_zeroed() -> Ray {
        Ray {
            o: Float3::zero(),
            d: Float3::zero(),
            t_min: Single::zero(),
            t_max: Single::zero(),
            exclude0: Uint2 { x: 0, y: 0 },
            exclude1: Uint2 { x: 0, y: 0 },
        }
    }

    /// The ray whose every byte is zero.
    #[verifier::when_used_as_spec(spec_zeroed)]
    pub fn zeroed() -> (r: Ray)
        ensures
            r == Ray::spec_zeroed(),
    {
        Ray {
            o: Float3::zero(),
            d: Float3::zero(),
            t_min: Single::zero(),
            t_max: Single::zero(),
            exclude0: Uint2 { x: 0, y: 0 },
            exclude1: Uint2 { x: 0, y: 0 },
        }
    }

    pub open spec fn spec_leaving(o: Float3, d: Float3, inst_id: u32, prim_id: u32) -> Ray {
        Ray {
            o,
            d,
            t_min: Single::zero(),
            t_max: Single { bits: RAY_T_MAX_BITS },
            exclude0: Uint2 { x: inst_id, y: prim_id },
            exclude1: Uint2 { x: NONE, y: NONE },
        }
    }

    /// The ray that goes on from a surface, which it does not meet again at its origin.
    #[verifier::when_used_as_spec(spec_leaving)]
    pub fn leaving(o: Float3, d: Float3, inst_id: u32, prim_id: u32) -> (r: Ray)
        ensures
            r == Ray::spec_leaving(o, d, inst_id, prim_id),
    {
        Ray {
            o,
            d,
            t_min: Single::zero(),
            t_max: Single { bits: RAY_T_MAX_BITS },
            exclude0: Uint2 { x: inst_id, y: prim_id },
            exclude1: Uint2 { x: NONE, y: NONE },
        }
    }
}

} // verus!
