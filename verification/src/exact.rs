//! What numbers and expressions are worth in exact arithmetic.
//!
//! The device rounds every operation; the laws of shading hold of the numbers that it rounds. They
//! are stated here over real numbers, which every finite single-precision number is one of.
use crate::decimal::{
    decimal_spec, exponent, exponent_field, pow10, scaled, significand, single_spec,
};
use crate::expr::{mis_weight_spec, power_of, Axis, Color, Scalar};
use crate::value::{Single, INFINITY_BITS, NEG_INFINITY_BITS, SIGN_BIT};
use vstd::prelude::*;

verus! {

/// The number is neither infinite nor undefined.
pub open spec fn is_finite(s: Single) -> bool {
    exponent_field(s) != 255
}

/// The number is not undefined: it is finite, or one of the two infinities.
pub open spec fn is_number(s: Single) -> bool {
    s.bits <= INFINITY_BITS || SIGN_BIT <= s.bits <= NEG_INFINITY_BITS
}

/// A finite number, counted in the smallest positive one. The infinities count as the numbers that
/// would come next, beyond all finite ones.
pub open spec fn units(s: Single) -> int {
    let n = scaled(significand(s), 2, (exponent(s) + 149) as nat) as int;
    if s.bits >= SIGN_BIT {
        -n
    } else {
        n
    }
}

/// One, counted in the smallest positive number.
pub open spec fn units_of_one() -> int {
    scaled(1, 2, 149) as int
}

/// A finite number.
pub open spec fn single_worth(s: Single) -> real {
    units(s) as real / units_of_one() as real
}

/// `1 * x * x * ...` with `n` factors `x`.
pub open spec fn power(x: real, n: nat) -> real
    decreases n,
{
    if n == 0 {
        1real
    } else {
        power(x, (n - 1) as nat) * x
    }
}

/// What an expression is worth, where `channel` says what the components of colours are worth.
pub open spec fn worth(s: Scalar, channel: spec_fn(Color, Axis) -> real) -> real
    decreases s,
{
    match s {
        Scalar::Value(v) => single_worth(v),
        Scalar::Count(n) => n as int as real,
        Scalar::Add(a, b) => worth(*a, channel) + worth(*b, channel),
        Scalar::Sub(a, b) => worth(*a, channel) - worth(*b, channel),
        Scalar::Mul(a, b) => worth(*a, channel) * worth(*b, channel),
        Scalar::Div(a, b) => worth(*a, channel) / worth(*b, channel),
        Scalar::Powi(a, n) => if n >= 0 {
            power(worth(*a, channel), n as nat)
        } else {
            1real / power(worth(*a, channel), (-n) as nat)
        },
        Scalar::Channel(c, axis) => channel(*c, axis),
    }
}

proof fn lemma_scaled_chain(n: nat, f: nat, j: nat, k: nat)
    ensures
        scaled(scaled(n, f, j), f, k) == scaled(n, f, j + k),
    decreases k,
{
    if k > 0 {
        lemma_scaled_chain(n, f, j, (k - 1) as nat);
    }
}

proof fn lemma_scaled_positive(n: nat, k: nat)
    requires
        n > 0,
    ensures
        scaled(n, 2, k) > 0,
    decreases k,
{
    if k > 0 {
        lemma_scaled_positive(n, (k - 1) as nat);
    }
}

proof fn lemma_scaled_order(a: nat, b: nat, k: nat)
    requires
        a < b,
    ensures
        scaled(a, 2, k) < scaled(b, 2, k),
    decreases k,
{
    if k > 0 {
        lemma_scaled_order(a, b, (k - 1) as nat);
    }
}

proof fn lemma_scaled_grows(n: nat, j: nat, k: nat)
    requires
        j <= k,
    ensures
        scaled(n, 2, j) <= scaled(n, 2, k),
    decreases k,
{
    if j < k {
        lemma_scaled_grows(n, j, (k - 1) as nat);
    }
}

proof fn lemma_bits_order(a: Single, b: Single)
    requires
        a.bits < b.bits <= INFINITY_BITS,
    ensures
        units(a) < units(b),
{
    let (fa, fb) = (exponent_field(a), exponent_field(b));
    assert(fa == (a.bits / 0x80_0000) as int);
    assert(fb == (b.bits / 0x80_0000) as int);
    assert(fa <= fb);
    let (sa, sb) = (significand(a), significand(b));
    let (ka, kb) = ((exponent(a) + 149) as nat, (exponent(b) + 149) as nat);
    if fa == fb {
        lemma_scaled_order(sa, sb, ka);
    } else if fa == 0 {
        assert(scaled(sa, 2, 0) == sa);
        assert(scaled(sb, 2, 0) == sb);
        lemma_scaled_grows(sb, 0, kb);
    } else {
        lemma_scaled_grows(sb, (ka + 1) as nat, kb);
        lemma_scaled_chain(sb, 2, 1, ka);
        reveal_with_fuel(scaled, 2);
        assert(scaled(sb, 2, 1) == sb * 2);
        lemma_scaled_order(sa, sb * 2, ka);
    }
}

/// Numbers that are not negative are ordered as their bit patterns are, so that comparing those
/// compares the numbers.
pub proof fn law_bits_order_numbers(a: Single, b: Single)
    requires
        a.bits <= INFINITY_BITS,
        b.bits <= INFINITY_BITS,
    ensures
        a.bits < b.bits <==> units(a) < units(b),
        a.exceeds(b) <==> units(a) > units(b),
{
    if a.bits < b.bits {
        lemma_bits_order(a, b);
    }
    if b.bits < a.bits {
        lemma_bits_order(b, a);
    }
}

/// A number is above zero, zero or below zero as its bit pattern says.
pub proof fn law_sign_of_bits(a: Single)
    requires
        is_number(a),
    ensures
        a.is_positive() <==> units(a) > 0,
        a.is_zero() <==> units(a) == 0,
        a.is_negative() <==> units(a) < 0,
{
    let k = (exponent(a) + 149) as nat;
    if significand(a) > 0 {
        lemma_scaled_positive(significand(a), k);
    } else {
        assert(exponent_field(a) == 0);
        assert(scaled(0, 2, 0) == 0);
    }
    let b = a.bits;
    assert(b % 0x80_0000u32 == 0 && (b / 0x80_0000u32) % 256 == 0 ==> b == 0 || b == 0x8000_0000u32)
        by (bit_vector);
    assert(b == 0x8000_0000u32 ==> b % 0x80_0000u32 == 0 && (b / 0x80_0000u32) % 256 == 0)
        by (bit_vector);
}

/// `a < b`, by the bit patterns: without the sign bit they are in the order of the numbers, with it
/// the other way round, and the two zeros are equal.
pub open spec fn is_below(a: Single, b: Single) -> bool {
    if a.bits < SIGN_BIT && b.bits < SIGN_BIT {
        a.bits < b.bits
    } else if a.bits >= SIGN_BIT && b.bits >= SIGN_BIT {
        a.bits > b.bits
    } else {
        a.bits >= SIGN_BIT && !(a.is_zero() && b.is_zero())
    }
}

/// Numbers compare as what they count, the infinities among them.
pub proof fn law_numbers_compare_as_counts(a: Single, b: Single)
    requires
        is_number(a),
        is_number(b),
    ensures
        is_below(a, b) <==> units(a) < units(b),
{
    law_sign_of_bits(a);
    law_sign_of_bits(b);
    if a.bits < SIGN_BIT && b.bits < SIGN_BIT {
        law_bits_order_numbers(a, b);
    } else if a.bits >= SIGN_BIT && b.bits >= SIGN_BIT {
        let c = Single { bits: (a.bits - SIGN_BIT) as u32 };
        let d = Single { bits: (b.bits - SIGN_BIT) as u32 };
        lemma_opposite(c, a);
        lemma_opposite(d, b);
        law_bits_order_numbers(d, c);
    }
}

/// Every finite number is a number, and lies between the infinities.
pub proof fn law_infinities_are_beyond(a: Single)
    requires
        is_finite(a),
    ensures
        is_number(a),
        units(Single { bits: NEG_INFINITY_BITS }) < units(a) < units(
            Single { bits: INFINITY_BITS },
        ),
{
    let b = a.bits;
    assert(b < 0x8000_0000u32 && (b / 0x80_0000u32) % 256 != 255 ==> b < 0x7f80_0000u32)
        by (bit_vector);
    assert(b >= 0x8000_0000u32 && (b / 0x80_0000u32) % 256 != 255 ==> b < 0xff80_0000u32)
        by (bit_vector);
    let (low, high) = (Single { bits: NEG_INFINITY_BITS }, Single { bits: INFINITY_BITS });
    law_sign_of_bits(low);
    law_sign_of_bits(high);
    law_sign_of_bits(a);
    lemma_opposite(high, low);
    if b < SIGN_BIT {
        lemma_bits_order(a, high);
    } else {
        let c = Single { bits: (b - SIGN_BIT) as u32 };
        lemma_opposite(c, a);
        lemma_bits_order(c, high);
    }
}

/// The sign bit turns a number into its opposite.
proof fn lemma_opposite(a: Single, b: Single)
    requires
        a.bits + SIGN_BIT == b.bits,
    ensures
        units(b) == -units(a),
{
    assert(exponent_field(a) == exponent_field(b));
    assert(significand(a) == significand(b));
}

/// The bit patterns of zero and of one are worth what they are called.
pub proof fn law_zero_and_one(channel: spec_fn(Color, Axis) -> real)
    ensures
        worth(Scalar::zero(), channel) == 0real,
        worth(Scalar::one(), channel) == 1real,
        is_finite(Single::zero()),
        is_finite(Single::one()),
        units_of_one() > 0,
{
    let one = Single::one();
    assert(exponent_field(one) == 127);
    assert(significand(one) == 0x80_0000);
    reveal_with_fuel(scaled, 24);
    assert(scaled(1, 2, 23) == 0x80_0000);
    lemma_scaled_chain(1, 2, 23, 126);
    lemma_scaled_positive(1, 149);
    let u = units_of_one() as real;
    assert(u / u == 1real) by (nonlinear_arith)
        requires
            u > 0real,
    ;
    let zero = Single::zero();
    assert(exponent_field(zero) == 0);
    assert(significand(zero) == 0);
    assert(scaled(0, 2, 0) == 0);
    assert(0real / u == 0real) by (nonlinear_arith)
        requires
            u > 0real,
    ;
}

/// The number has the sign bit.
pub open spec fn is_signed(s: Single) -> bool {
    s.bits >= SIGN_BIT
}

/// Repeated doubling and the like is one product.
proof fn lemma_scaled_product(n: nat, f: nat, k: nat)
    ensures
        scaled(n, f, k) == n * scaled(1, f, k),
    decreases k,
{
    if k > 0 {
        lemma_scaled_product(n, f, (k - 1) as nat);
        let (a, b) = (n as int, scaled(1, f, (k - 1) as nat) as int);
        let c = f as int;
        assert((a * b) * c == a * (b * c)) by (nonlinear_arith);
    } else {
        assert(n * 1 == n);
    }
}

proof fn lemma_pow10(k: nat)
    ensures
        pow10(k) == scaled(1, 2, k) * scaled(1, 5, k),
    decreases k,
{
    if k > 0 {
        lemma_pow10((k - 1) as nat);
        let (a, b) = (
            scaled(1, 2, (k - 1) as nat) as int,
            scaled(1, 5, (k - 1) as nat) as int,
        );
        assert(10 * (a * b) == (a * 2) * (b * 5)) by (nonlinear_arith);
        assert(scaled(1, 2, k) == a * 2);
        assert(scaled(1, 5, k) == b * 5);
        assert(pow10(k) == 10 * (a * b));
    } else {
        assert(1nat * 1nat == 1nat);
    }
}

/// A fraction is what its significand says, over a power of two.
pub proof fn lemma_fraction_worth(s: Single, k: nat)
    requires
        s.bits < SIGN_BIT,
        exponent(s) == -k,
        k <= 149,
    ensures
        scaled(1, 2, k) > 0,
        single_worth(s) * (scaled(1, 2, k) as int as real) == significand(s) as int as real,
{
    lemma_scaled_positive(1, k);
    lemma_scaled_positive(1, 149);
    lemma_scaled_product(significand(s), 2, (149 - k) as nat);
    lemma_scaled_chain(1, 2, (149 - k) as nat, k);
    lemma_scaled_product(scaled(1, 2, (149 - k) as nat), 2, k);
    let (a, b) = (scaled(1, 2, (149 - k) as nat) as int, scaled(1, 2, k) as int);
    let m = significand(s) as int;
    assert(units_of_one() == a * b);
    assert(units(s) == m * a);
    let (p, q, r) = (a as real, b as real, m as real);
    assert(units_of_one() as real == p * q) by {
        assert((a * b) as real == (a as real) * (b as real)) by (nonlinear_arith);
    }
    assert(units(s) as real == r * p) by {
        assert((m * a) as real == (m as real) * (a as real)) by (nonlinear_arith);
    }
    assert(p * q > 0real);
    assert((r * p) / (p * q) * q == r) by (nonlinear_arith)
        requires
            p * q > 0real,
            q > 0real,
    ;
}

/// A large number is its significand times a power of two.
pub proof fn lemma_whole_worth(s: Single, k: nat)
    requires
        s.bits < SIGN_BIT,
        exponent(s) == k,
    ensures
        single_worth(s) == scaled(significand(s), 2, k) as int as real,
{
    lemma_scaled_positive(1, 149);
    lemma_scaled_chain(significand(s), 2, k, 149);
    lemma_scaled_product(scaled(significand(s), 2, k), 2, 149);
    let (a, u) = (scaled(significand(s), 2, k) as int, units_of_one());
    assert(units(s) == a * u);
    assert((a * u) as real == (a as real) * (u as real)) by (nonlinear_arith);
    let (x, y) = (a as real, u as real);
    assert((x * y) / y == x) by (nonlinear_arith)
        requires
            y > 0real,
    ;
}

/// The number is `n / d`, as closely as single precision allows.
pub open spec fn is_closest(s: Single, n: int, d: int) -> bool {
    let off = single_worth(s) * (d as real) - (n as real);
    -(n as real) <= off * 16777216real <= n as real
}

/// A fraction with a given significand and exponent is close to `n / d`.
pub proof fn lemma_closest(s: Single, k: nat, n: int, d: int)
    requires
        s.bits < SIGN_BIT,
        exponent(s) == -k,
        k <= 149,
        n > 0,
        d > 0,
        -n * scaled(1, 2, k) <= (significand(s) * d - n * scaled(1, 2, k)) * 16777216 <= n * scaled(
            1,
            2,
            k,
        ),
    ensures
        is_closest(s, n, d),
{
    lemma_fraction_worth(s, k);
    let (m, p) = (significand(s) as int, scaled(1, 2, k) as int);
    let w = single_worth(s);
    let (a, b, q, e) = (n as real, d as real, p as real, m as real);
    assert(q > 0real);
    assert(((m * d - n * p) * 16777216) as real == (e * b - a * q) * 16777216real)
        by (nonlinear_arith)
        requires
            e == m as real,
            b == d as real,
            a == n as real,
            q == p as real,
    ;
    assert((n * p) as real == a * q) by (nonlinear_arith)
        requires
            a == n as real,
            q == p as real,
    ;
    assert(-n * p == -(n * p)) by (nonlinear_arith);
    let off = w * b - a;
    assert((e * b - a * q) * 16777216real == off * 16777216real * q) by (nonlinear_arith)
        requires
            w * q == e,
            off == w * b - a,
    ;
    assert(-a <= off * 16777216real <= a) by (nonlinear_arith)
        requires
            -(a * q) <= off * 16777216real * q <= a * q,
            q > 0real,
    ;
}

/// The decimal notation of a finite number denotes it exactly: its digits, over the power of ten
/// that the point stands for, with the sign that it has.
pub proof fn law_decimal_text_is_exact(s: Single)
    requires
        is_finite(s),
    ensures
        single_spec(s) is Some,
        exists|n: nat, scale: nat|
            #![trigger decimal_spec(is_signed(s), n, scale)]
            single_spec(s) == Some(decimal_spec(is_signed(s), n, scale)) && scale >= 1 && n
                * units_of_one() == pow10(scale) * (if is_signed(s) {
                -units(s)
            } else {
                units(s)
            }),
{
    let m = significand(s);
    let e = exponent(s);
    if e < 0 {
        let k = (-e) as nat;
        let n = scaled(m, 5, k);
        lemma_scaled_product(m, 5, k);
        lemma_scaled_product(m, 2, (149 - k) as nat);
        lemma_scaled_chain(1, 2, (149 - k) as nat, k);
        lemma_scaled_product(scaled(1, 2, (149 - k) as nat), 2, k);
        lemma_pow10(k);
        let (a, b, c) = (
            scaled(1, 2, (149 - k) as nat) as int,
            scaled(1, 2, k) as int,
            scaled(1, 5, k) as int,
        );
        let i = m as int;
        assert((i * c) * (a * b) == (b * c) * (i * a)) by (nonlinear_arith);
        assert(single_spec(s) == Some(decimal_spec(is_signed(s), n, k)));
    } else {
        let k = e as nat;
        let n = scaled(scaled(m, 2, k), 10, 1);
        lemma_scaled_chain(m, 2, k, 149);
        lemma_scaled_product(scaled(m, 2, k), 2, 149);
        reveal_with_fuel(scaled, 2);
        reveal_with_fuel(pow10, 2);
        let (a, u) = (scaled(m, 2, k) as int, units_of_one());
        assert((a * 10) * u == 10 * (a * u)) by (nonlinear_arith);
        assert(single_spec(s) == Some(decimal_spec(is_signed(s), n, 1)));
    }
}

/// The bit pattern of one half is worth half of one.
pub proof fn law_half()
    ensures
        single_worth(Single::half()) == 1real / 2real,
{
    let half = Single::half();
    assert(exponent_field(half) == 126);
    assert(significand(half) == 0x80_0000);
    reveal_with_fuel(scaled, 24);
    assert(scaled(1, 2, 23) == 0x80_0000);
    lemma_scaled_chain(1, 2, 23, 125);
    lemma_scaled_positive(1, 148);
    assert(units_of_one() == units(half) * 2);
    let (h, u) = (units(half) as real, units_of_one() as real);
    assert(u == h * 2real);
    assert(h / u == 1real / 2real) by (nonlinear_arith)
        requires
            u == h * 2real,
            h > 0real,
    ;
}

proof fn lemma_power_worth(x: Scalar, n: nat, channel: spec_fn(Color, Axis) -> real)
    ensures
        worth(power_of(x, n), channel) == power(worth(x, channel), n),
    decreases n,
{
    if n == 0 {
        law_zero_and_one(channel);
    } else {
        lemma_power_worth(x, (n - 1) as nat, channel);
    }
}

proof fn lemma_power_sign(x: real, n: nat)
    requires
        x >= 0real,
    ensures
        power(x, n) >= 0real,
        x > 0real ==> power(x, n) > 0real,
    decreases n,
{
    if n > 0 {
        lemma_power_sign(x, (n - 1) as nat);
        let p = power(x, (n - 1) as nat);
        assert(p * x >= 0real) by (nonlinear_arith)
            requires
                p >= 0real,
                x >= 0real,
        ;
        if x > 0real {
            assert(p * x > 0real) by (nonlinear_arith)
                requires
                    p > 0real,
                    x > 0real,
            ;
        }
    }
}

proof fn lemma_power_product(x: real, y: real, n: nat)
    ensures
        power(x * y, n) == power(x, n) * power(y, n),
    decreases n,
{
    if n > 0 {
        lemma_power_product(x, y, (n - 1) as nat);
        let (p, q) = (power(x, (n - 1) as nat), power(y, (n - 1) as nat));
        assert((p * q) * (x * y) == (p * x) * (q * y)) by (nonlinear_arith);
    }
}

/// The weights of the two ways in which a sample can come about add up to one, wherever one of
/// them can give it.
pub proof fn law_weights_add_up(a: Scalar, b: Scalar, n: nat, channel: spec_fn(Color, Axis) -> real)
    requires
        worth(a, channel) >= 0real,
        worth(b, channel) >= 0real,
        worth(a, channel) + worth(b, channel) > 0real,
    ensures
        worth(mis_weight_spec(a, b, n), channel) + worth(mis_weight_spec(b, a, n), channel) == 1real,
{
    let (x, y) = (worth(a, channel), worth(b, channel));
    lemma_power_worth(a, n, channel);
    lemma_power_worth(b, n, channel);
    lemma_power_sign(x, n);
    lemma_power_sign(y, n);
    let (p, q) = (power(x, n), power(y, n));
    reveal_with_fuel(worth, 3);
    assert(worth(mis_weight_spec(a, b, n), channel) == p / (p + q));
    assert(worth(mis_weight_spec(b, a, n), channel) == q / (q + p));
    assert(p / (p + q) + q / (q + p) == 1real) by (nonlinear_arith)
        requires
            p + q > 0real,
    ;
}

/// A factor that both densities have makes no difference to a weight.
pub proof fn law_common_factor_cancels(
    k: Scalar,
    a: Scalar,
    b: Scalar,
    n: nat,
    channel: spec_fn(Color, Axis) -> real,
)
    requires
        worth(k, channel) > 0real,
        worth(a, channel) >= 0real,
        worth(b, channel) >= 0real,
        worth(a, channel) + worth(b, channel) > 0real,
    ensures
        worth(mis_weight_spec(k.times(a), k.times(b), n), channel) == worth(
            mis_weight_spec(a, b, n),
            channel,
        ),
{
    let (f, x, y) = (worth(k, channel), worth(a, channel), worth(b, channel));
    reveal_with_fuel(worth, 3);
    assert(worth(k.times(a), channel) == f * x);
    assert(worth(k.times(b), channel) == f * y);
    lemma_power_worth(a, n, channel);
    lemma_power_worth(b, n, channel);
    lemma_power_worth(k.times(a), n, channel);
    lemma_power_worth(k.times(b), n, channel);
    lemma_power_product(f, x, n);
    lemma_power_product(f, y, n);
    lemma_power_sign(f, n);
    lemma_power_sign(x, n);
    lemma_power_sign(y, n);
    let (g, p, q) = (power(f, n), power(x, n), power(y, n));
    assert((g * p) / (g * p + g * q) == p / (p + q)) by (nonlinear_arith)
        requires
            g > 0real,
            p + q > 0real,
    ;
}

} // verus!
