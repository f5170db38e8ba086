//! Expressions over single-precision numbers and colours.
//!
//! Shading is arithmetic that runs on the device. The integrators write down which arithmetic:
//! an expression names its inputs and its operations, in the order in which they are done, so
//! that two evaluations of it give the same bits.
use crate::value::{Float3, Single, StylizationFlags, SurfaceHit};
use vstd::prelude::*;

verus! {

/// A number that the device computes.
#[derive(Debug, PartialEq)]
pub enum Scalar {
    /// A number that is known.
    Value(Single),
    /// A count, converted to a number.
    Count(u32),
    Add(Box<Scalar>, Box<Scalar>),
    Sub(Box<Scalar>, Box<Scalar>),
    Mul(Box<Scalar>, Box<Scalar>),
    Div(Box<Scalar>, Box<Scalar>),
    /// The first operand, raised to a whole power.
    Powi(Box<Scalar>, i32),
    /// One component of a colour.
    Channel(Box<Color>, Axis),
}

/// A component of a colour or a vector.
#[derive(Clone, Copy, Debug, PartialEq, Eq, Structural)]
pub enum Axis {
    X,
    Y,
    Z,
}

impl Clone for Scalar {
    fn clone(&self) -> (res: Self)
        ensures
            res == *self,
        decreases self,
    {
        match self {
            Scalar::Value(v) => Scalar::Value(*v),
            Scalar::Count(n) => Scalar::Count(*n),
            Scalar::Add(a, b) => Scalar::Add(Box::new((**a).clone()), Box::new((**b).clone())),
            Scalar::Sub(a, b) => Scalar::Sub(Box::new((**a).clone()), Box::new((**b).clone())),
            Scalar::Mul(a, b) => Scalar::Mul(Box::new((**a).clone()), Box::new((**b).clone())),
            Scalar::Div(a, b) => Scalar::Div(Box::new((**a).clone()), Box::new((**b).clone())),
            Scalar::Powi(a, n) => Scalar::Powi(Box::new((**a).clone()), *n),
            Scalar::Channel(c, axis) => Scalar::Channel(Box::new((**c).clone()), *axis),
        }
    }
}

impl Scalar {
    pub open spec fn spec_zero() -> Scalar {
        Scalar::Value(Single::zero())
    }

    /// Zero.
    #[verifier::when_used_as_spec(spec_zero)]
    pub fn zero() -> (r: Scalar)
        ensures
            r == Scalar::spec_zero(),
    {
        Scalar::Value(Single::zero())
    }

    pub open spec fn spec_one() -> Scalar {
        Scalar::Value(Single::one())
    }

    /// One.
    #[verifier::when_used_as_spec(spec_one)]
    pub fn one() -> (r: Scalar)
        ensures
            r == Scalar::spec_one(),
    {
        Scalar::Value(Single::one())
    }

    pub open spec fn spec_plus(self, b: Scalar) -> Scalar {
        Scalar::Add(Box::new(self), Box::new(b))
    }

    /// `self + b`.
    #[verifier::when_used_as_spec(spec_plus)]
    pub fn plus(self, b: Scalar) -> (r: Scalar)
        ensures
            r == self.spec_plus(b),
    {
        Scalar::Add(Box::new(self), Box::new(b))
    }

    pub open spec fn spec_minus(self, b: Scalar) -> Scalar {
        Scalar::Sub(Box::new(self), Box::new(b))
    }

    /// `self - b`.
    #[verifier::when_used_as_spec(spec_minus)]
    pub fn minus(self, b: Scalar) -> (r: Scalar)
        ensures
            r == self.spec_minus(b),
    {
        Scalar::Sub(Box::new(self), Box::new(b))
    }

    pub open spec fn spec_times(self, b: Scalar) -> Scalar {
        Scalar::Mul(Box::new(self), Box::new(b))
    }

    /// `self * b`.
    #[verifier::when_used_as_spec(spec_times)]
    pub fn times(self, b: Scalar) -> (r: Scalar)
        ensures
            r == self.spec_times(b),
    {
        Scalar::Mul(Box::new(self), Box::new(b))
    }

    pub open spec fn spec_over(self, b: Scalar) -> Scalar {
        Scalar::Div(Box::new(self), Box::new(b))
    }

    /// `self / b`.
    #[verifier::when_used_as_spec(spec_over)]
    pub fn over(self, b: Scalar) -> (r: Scalar)
        ensures
            r == self.spec_over(b),
    {
        Scalar::Div(Box::new(self), Box::new(b))
    }

    pub open spec fn spec_powi(self, n: i32) -> Scalar {
        Scalar::Powi(Box::new(self), n)
    }

    /// `self` to the power `n`.
    #[verifier::when_used_as_spec(spec_powi)]
    pub fn powi(self, n: i32) -> (r: Scalar)
        ensures
            r == self.spec_powi(n),
    {
        Scalar::Powi(Box::new(self), n)
    }
}

/// A colour that the device computes.
#[derive(Debug, PartialEq)]
pub enum Color {
    /// A colour that is known.
    Rgb(Float3),
    Add(Box<Color>, Box<Color>),
    Sub(Box<Color>, Box<Color>),
    Mul(Box<Color>, Box<Color>),
    /// Each component times a number.
    Scale(Box<Color>, Box<Scalar>),
    /// Each component divided by a number.
    Over(Box<Color>, Box<Scalar>),
    /// The light `li` that leaves the surface at `hit` towards `wo`, as the style of that surface
    /// changes it at the given depth of the path.
    Stylize { path_depth: u32, hit: SurfaceHit, wo: Float3, li: Box<Color>, flags: StylizationFlags },
    /// The colour, without what is undefined in it.
    RemoveNan(Box<Color>),
}

impl Clone for Color {
    fn clone(&self) -> (res: Self)
        ensures
            res == *self,
        decreases self,
    {
        match self {
            Color::Rgb(v) => Color::Rgb(*v),
            Color::Add(a, b) => Color::Add(Box::new((**a).clone()), Box::new((**b).clone())),
            Color::Sub(a, b) => Color::Sub(Box::new((**a).clone()), Box::new((**b).clone())),
            Color::Mul(a, b) => Color::Mul(Box::new((**a).clone()), Box::new((**b).clone())),
            Color::Scale(a, s) => Color::Scale(Box::new((**a).clone()), Box::new((**s).clone())),
            Color::Over(a, s) => Color::Over(Box::new((**a).clone()), Box::new((**s).clone())),
            Color::Stylize { path_depth, hit, wo, li, flags } => Color::Stylize {
                path_depth: *path_depth,
                hit: *hit,
                wo: *wo,
                li: Box::new((**li).clone()),
                flags: *flags,
            },
            Color::RemoveNan(a) => Color::RemoveNan(Box::new((**a).clone())),
        }
    }
}

impl Color {
    pub open spec fn spec_zero() -> Color {
        Color::Rgb(Float3::zero())
    }

    /// Black.
    #[verifier::when_used_as_spec(spec_zero)]
    pub fn zero() -> (r: Color)
        ensures
            r == Color::spec_zero(),
    {
        Color::Rgb(Float3::zero())
    }

    pub open spec fn spec_one() -> Color {
        Color::Rgb(Float3 { x: Single::one(), y: Single::one(), z: Single::one() })
    }

    /// White.
    #[verifier::when_used_as_spec(spec_one)]
    pub fn one() -> (r: Color)
        ensures
            r == Color::spec_one(),
    {
        Color::Rgb(Float3 { x: Single::one(), y: Single::one(), z: Single::one() })
    }

    pub open spec fn spec_channel(self, axis: Axis) -> Scalar {
        Scalar::Channel(Box::new(self), axis)
    }

    /// One component.
    #[verifier::when_used_as_spec(spec_channel)]
    pub fn channel(self, axis: Axis) -> (r: Scalar)
        ensures
            r == self.spec_channel(axis),
    {
        Scalar::Channel(Box::new(self), axis)
    }

    pub open spec fn spec_remove_nan(self) -> Color {
        Color::RemoveNan(Box::new(self))
    }

    /// `self`, with what is undefined taken out.
    #[verifier::when_used_as_spec(spec_remove_nan)]
    pub fn remove_nan(self) -> (r: Color)
        ensures
            r == self.spec_remove_nan(),
    {
        Color::RemoveNan(Box::new(self))
    }

    pub open spec fn spec_plus(self, b: Color) -> Color {
        Color::Add(Box::new(self), Box::new(b))
    }

    /// `self + b`.
    #[verifier::when_used_as_spec(spec_plus)]
    pub fn plus(self, b: Color) -> (r: Color)
        ensures
            r == self.spec_plus(b),
    {
        Color::Add(Box::new(self), Box::new(b))
    }

    pub open spec fn spec_minus(self, b: Color) -> Color {
        Color::Sub(Box::new(self), Box::new(b))
    }

    /// `self - b`.
    #[verifier::when_used_as_spec(spec_minus)]
    pub fn minus(self, b: Color) -> (r: Color)
        ensures
            r == self.spec_minus(b),
    {
        Color::Sub(Box::new(self), Box::new(b))
    }

    pub open spec fn spec_times(self, b: Color) -> Color {
        Color::Mul(Box::new(self), Box::new(b))
    }

    /// `self * b`, component by component.
    #[verifier::when_used_as_spec(spec_times)]
    pub fn times(self, b: Color) -> (r: Color)
        ensures
            r == self.spec_times(b),
    {
        Color::Mul(Box::new(self), Box::new(b))
    }

    pub open spec fn spec_scale(self, s: Scalar) -> Color {
        Color::Scale(Box::new(self), Box::new(s))
    }

    /// `self * s`.
    #[verifier::when_used_as_spec(spec_scale)]
    pub fn scale(self, s: Scalar) -> (r: Color)
        ensures
            r == self.spec_scale(s),
    {
        Color::Scale(Box::new(self), Box::new(s))
    }

    pub open spec fn spec_over(self, s: Scalar) -> Color {
        Color::Over(Box::new(self), Box::new(s))
    }

    /// `self / s`.
    #[verifier::when_used_as_spec(spec_over)]
    pub fn over(self, s: Scalar) -> (r: Color)
        ensures
            r == self.spec_over(s),
    {
        Color::Over(Box::new(self), Box::new(s))
    }

    pub open spec fn spec_stylize(
        self,
        path_depth: u32,
        hit: SurfaceHit,
        wo: Float3,
        flags: StylizationFlags,
    ) -> Color {
        Color::Stylize { path_depth, hit, wo, li: Box::new(self), flags }
    }

    /// `self`, as the style of the surface at `hit` changes it.
    #[verifier::when_used_as_spec(spec_stylize)]
    pub fn stylize(
        self,
        path_depth: u32,
        hit: SurfaceHit,
        wo: Float3,
        flags: StylizationFlags,
    ) -> (r: Color)
        ensures
            r == self.spec_stylize(path_depth, hit, wo, flags),
    {
        Color::Stylize { path_depth, hit, wo, li: Box::new(self), flags }
    }
}

/// `init + s[0] + s[1] + ...`, added from the left.
pub open spec fn sum_from(init: Color, s: Seq<Color>) -> Color
    decreases s.len(),
{
    if s.len() == 0 {
        init
    } else {
        sum_from(init, s.drop_last()).plus(s.last())
    }
}

/// Adding one more colour at the end adds it last.
pub proof fn lemma_sum_push(init: Color, s: Seq<Color>, c: Color)
    ensures
        sum_from(init, s.push(c)) == sum_from(init, s).plus(c),
{
    assert(s.push(c).drop_last() =~= s);
}

/// `1 * x * x * ...` with `power` factors `x`.
pub open spec fn power_of(x: Scalar, power: nat) -> Scalar
    decreases power,
{
    if power == 0 {
        Scalar::one()
    } else {
        power_of(x, (power - 1) as nat).times(x)
    }
}

fn apply_power(x: &Scalar, power: u32) -> (r: Scalar)
    ensures
        r == power_of(*x, power as nat),
{
    let mut p = Scalar::one();
    let mut i: u32 = 0;
    while i < power
        invariant
            i <= power,
            p == power_of(*x, i as nat),
        decreases power - i,
    {
        p = p.times(x.clone());
        i += 1;
    }
    p
}

pub open spec fn mis_weight_spec(pdf_a: Scalar, pdf_b: Scalar, power: nat) -> Scalar {
    power_of(pdf_a, power).over(power_of(pdf_a, power).plus(power_of(pdf_b, power)))
}

/// The weight of a sample taken with density `pdf_a` where `pdf_b` could have given it too:
/// `a^power / (a^power + b^power)`.
pub fn mis_weight(pdf_a: Scalar, pdf_b: Scalar, power: u32) -> (r: Scalar)
    ensures
        r == mis_weight_spec(pdf_a, pdf_b, power as nat),
{
    let a = apply_power(&pdf_a, power);
    let b = apply_power(&pdf_b, power);
    a.clone().over(a.plus(b))
}

} // verus!
