//! Single-precision numbers in decimal notation, digit by digit and without rounding.
use crate::value::Single;
use vstd::prelude::*;

verus! {

/// The decimal digits of a number, the lowest first; none for zero.
pub open spec fn digits(n: nat) -> Seq<u8>
    decreases n,
{
    if n == 0 {
        Seq::empty()
    } else {
        seq![(n % 10) as u8] + digits(n / 10)
    }
}

/// The number that some digits denote, the lowest first.
pub open spec fn number(d: Seq<u8>) -> nat
    decreases d.len(),
{
    if d.len() == 0 {
        0
    } else {
        d[0] as nat + 10 * number(d.drop_first())
    }
}

/// Ten to the power `n`.
pub open spec fn pow10(n: nat) -> nat
    decreases n,
{
    if n == 0 {
        1
    } else {
        10 * pow10((n - 1) as nat)
    }
}

/// `n * f * f * ...` with `k` factors `f`.
pub open spec fn scaled(n: nat, f: nat, k: nat) -> nat
    decreases k,
{
    if k == 0 {
        n
    } else {
        scaled(n, f, (k - 1) as nat) * f
    }
}

/// All are digits, and the highest is not zero.
pub open spec fn is_canonical(d: Seq<u8>) -> bool {
    &&& forall|i: int| 0 <= i < d.len() ==> (#[trigger] d[i]) < 10
    &&& d.len() > 0 ==> d.last() != 0
}

proof fn lemma_number_push(d: Seq<u8>, x: u8)
    ensures
        number(d.push(x)) == number(d) + x * pow10(d.len()),
    decreases d.len(),
{
    if d.len() == 0 {
        assert(d.push(x).drop_first() =~= Seq::<u8>::empty());
        assert(number(d.push(x)) == x as nat + 10 * number(Seq::<u8>::empty()));
        assert(pow10(0) == 1);
    } else {
        lemma_number_push(d.drop_first(), x);
        assert(d.push(x).drop_first() =~= d.drop_first().push(x));
        let p = pow10((d.len() - 1) as nat) as int;
        assert(10 * (x * p) == x * (10 * p)) by (nonlinear_arith);
    }
}

proof fn lemma_digits(d: Seq<u8>)
    requires
        is_canonical(d),
    ensures
        d == digits(number(d)),
        d.len() > 0 ==> number(d) > 0,
    decreases d.len(),
{
    if d.len() > 0 {
        let rest = d.drop_first();
        if rest.len() > 0 {
            assert(rest.last() == d.last());
        }
        assert forall|i: int| 0 <= i < rest.len() implies (#[trigger] rest[i]) < 10 by {
            assert(rest[i] == d[i + 1]);
        }
        lemma_digits(rest);
        let n = number(d);
        let m = number(rest);
        assert(n == d[0] as nat + 10 * m);
        assert(d[0] < 10);
        if rest.len() == 0 {
            assert(d[0] == d.last());
        }
        assert(n % 10 == d[0]);
        assert(n / 10 == m);
        assert(digits(n) =~= d);
    }
}

/// Digits of `f` times the number.
fn times(d: &Vec<u8>, f: u8) -> (r: Vec<u8>)
    requires
        is_canonical(d@),
        1 <= f <= 10,
        d.len() < usize::MAX,
    ensures
        is_canonical(r@),
        number(r@) == number(d@) * f,
        r.len() <= d.len() + 1,
{
    let mut r: Vec<u8> = Vec::new();
    let mut carry: u8 = 0;
    let mut i: usize = 0;
    assert(d@.take(0) =~= Seq::<u8>::empty());
    assert(number(Seq::<u8>::empty()) == 0);
    assert(0 * f == 0) by (nonlinear_arith);
    while i < d.len()
        invariant
            i <= d.len(),
            is_canonical(d@),
            1 <= f <= 10,
            r.len() == i,
            carry < f,
            forall|j: int| 0 <= j < r.len() ==> (#[trigger] r@[j]) < 10,
            i > 0 && carry == 0 && d@[i - 1] != 0 ==> r@[i - 1] != 0,
            number(r@) + carry * pow10(i as nat) == number(d@.take(i as int)) * f,
        decreases d.len() - i,
    {
        let x: u8 = d[i];
        let ghost before = r@;
        let ghost c0 = carry;
        assert(x * f + carry < 10 * f) by (nonlinear_arith)
            requires
                x <= 9,
                carry < f,
        ;
        let t: u8 = x * f + carry;
        r.push(t % 10);
        carry = t / 10;
        proof {
            let p = pow10(i as nat) as int;
            lemma_number_push(before, (t % 10) as u8);
            lemma_number_push(d@.take(i as int), x);
            assert(d@.take(i + 1) =~= d@.take(i as int).push(x));
            let lo = (t % 10) as int;
            let hi = (t / 10) as int;
            let n = number(d@.take(i as int)) as int;
            assert(lo + 10 * hi == x * f + c0);
            assert(lo * p + hi * (10 * p) == (lo + 10 * hi) * p) by (nonlinear_arith);
            assert((x * f + c0) * p == (x * p) * f + c0 * p) by (nonlinear_arith);
            assert((n + x * p) * f == n * f + (x * p) * f) by (nonlinear_arith);
            if carry == 0 && x != 0 {
                assert(x * f >= 1) by (nonlinear_arith)
                    requires
                        x >= 1,
                        f >= 1,
                ;
            }
        }
        i += 1;
    }
    assert(d@.take(i as int) =~= d@);
    if carry > 0 {
        let ghost before = r@;
        r.push(carry);
        proof {
            lemma_number_push(before, carry);
        }
    }
    r
}

/// Digits of the number times `f`, `k` times over.
fn times_often(d: Vec<u8>, f: u8, k: u32) -> (r: Vec<u8>)
    requires
        is_canonical(d@),
        1 <= f <= 10,
        d.len() + k < u32::MAX,
    ensures
        is_canonical(r@),
        number(r@) == scaled(number(d@), f as nat, k as nat),
        r.len() <= d.len() + k,
{
    let ghost n = number(d@);
    let ghost len = d.len() as int;
    let mut r = d;
    let mut i: u32 = 0;
    while i < k
        invariant
            i <= k,
            is_canonical(r@),
            1 <= f <= 10,
            number(r@) == scaled(n, f as nat, i as nat),
            r.len() <= len + i,
            len + k < u32::MAX,
        decreases k - i,
    {
        r = times(&r, f);
        i += 1;
    }
    r
}

/// The digits of a number.
fn digits_of(n: u32) -> (r: Vec<u8>)
    ensures
        is_canonical(r@),
        number(r@) == n,
        r.len() <= 10,
{
    let mut r: Vec<u8> = Vec::new();
    let mut rest: u32 = n;
    assert(number(Seq::<u8>::empty()) == 0);
    proof {
        reveal_with_fuel(pow10, 11);
        assert(pow10(0) == 1);
        assert(pow10(10) == 10_000_000_000);
    }
    while rest > 0
        invariant
            forall|j: int| 0 <= j < r.len() ==> (#[trigger] r@[j]) < 10,
            number(r@) + rest * pow10(r@.len()) == n,
            rest == 0 && r.len() > 0 ==> r@.last() != 0,
            r.len() <= 10,
            rest > 0 ==> rest < pow10((10 - r.len()) as nat),
            n <= u32::MAX,
        decreases rest,
    {
        let ghost before = r@;
        let ghost rest0 = rest;
        proof {
            if r.len() == 10 {
                assert(pow10(0) == 1);
            }
        }
        r.push((rest % 10) as u8);
        rest = rest / 10;
        proof {
            let p = pow10(before.len()) as int;
            let lo = (rest0 % 10) as int;
            let hi = (rest0 / 10) as int;
            lemma_number_push(before, (rest0 % 10) as u8);
            assert(lo + 10 * hi == rest0);
            assert(lo * p + hi * (10 * p) == (lo + 10 * hi) * p) by (nonlinear_arith);
        }
    }
    assert(0 * pow10(r@.len()) == 0);
    r
}

/// Decimal notation: the sign, the digits before the point and the `scale` digits after it.
pub open spec fn notation(negative: bool, d: Seq<u8>, scale: nat) -> Seq<u8> {
    (if negative {
        seq![45u8]
    } else {
        Seq::empty()
    }) + Seq::new((d.len() - scale) as nat, |i: int| (48 + d[d.len() - 1 - i]) as u8) + seq![
        46u8,
    ] + Seq::new(scale, |i: int| (48 + d[scale - 1 - i]) as u8)
}

/// The digits are written with at least one before the point and one after it, and without zeros
/// in front that say nothing.
pub open spec fn writes(d: Seq<u8>, scale: nat) -> bool {
    &&& 1 <= scale < d.len() <= 300
    &&& forall|i: int| 0 <= i < d.len() ==> (#[trigger] d[i]) < 10
    &&& d.len() > scale + 1 ==> d.last() != 0
}

/// A number in plain decimal notation.
pub open spec fn is_plain(text: Seq<u8>) -> bool {
    exists|negative: bool, d: Seq<u8>, scale: nat|
        writes(d, scale) && text == #[trigger] notation(negative, d, scale)
}

/// The digits of `n`, with zeros in front up to `len` digits.
pub open spec fn padded(n: nat, len: nat) -> Seq<u8> {
    let d = digits(n);
    if d.len() < len {
        d + Seq::new((len - d.len()) as nat, |i: int| 0u8)
    } else {
        d
    }
}

/// Decimal notation of `n / 10^scale`.
pub open spec fn decimal_spec(negative: bool, n: nat, scale: nat) -> Seq<u8> {
    notation(negative, padded(n, scale + 1), scale)
}

/// Writes `n / 10^scale`, where the digits denote `n`.
fn write_decimal(negative: bool, digits: Vec<u8>, scale: u32) -> (text: Vec<u8>)
    requires
        is_canonical(digits@),
        1 <= scale < 300,
        digits.len() <= 300,
    ensures
        text@ == decimal_spec(negative, number(digits@), scale as nat),
        is_plain(text@),
{
    let ghost n = number(digits@);
    proof {
        lemma_digits(digits@);
    }
    let ghost canonical = digits@;
    let mut d = digits;
    let len: usize = scale as usize + 1;
    while d.len() < len
        invariant
            len == scale + 1,
            1 <= scale < 300,
            canonical == crate::decimal::digits(n),
            is_canonical(canonical),
            canonical.len() <= 300,
            canonical.len() <= d.len(),
            d.len() <= len || d.len() == canonical.len(),
            d@ == canonical + Seq::new((d@.len() - canonical.len()) as nat, |i: int| 0u8),
        decreases len - d.len(),
    {
        let ghost before = d@;
        d.push(0);
        assert(d@ =~= canonical + Seq::new((d@.len() - canonical.len()) as nat, |i: int| 0u8));
    }
    assert(d@ =~= padded(n, (scale + 1) as nat));
    assert(writes(d@, scale as nat));
    let mut text: Vec<u8> = Vec::new();
    if negative {
        text.push(45);
    }
    let ghost sign = text@;
    let top: usize = d.len() - scale as usize;
    let mut i: usize = 0;
    while i < top
        invariant
            i <= top,
            top == d.len() - scale,
            writes(d@, scale as nat),
            text@ == sign + Seq::new(i as nat, |k: int| (48 + d@[d@.len() - 1 - k]) as u8),
        decreases top - i,
    {
        let x: u8 = d[d.len() - 1 - i];
        text.push(48 + x);
        i += 1;
        assert(text@ =~= sign + Seq::new(i as nat, |k: int| (48 + d@[d@.len() - 1 - k]) as u8));
    }
    text.push(46);
    let ghost head = text@;
    let mut j: usize = 0;
    while j < scale as usize
        invariant
            j <= scale,
            writes(d@, scale as nat),
            text@ == head + Seq::new(j as nat, |k: int| (48 + d@[scale - 1 - k]) as u8),
        decreases scale - j,
    {
        let x: u8 = d[scale as usize - 1 - j];
        text.push(48 + x);
        j += 1;
        assert(text@ =~= head + Seq::new(j as nat, |k: int| (48 + d@[scale - 1 - k]) as u8));
    }
    assert(text@ =~= notation(negative, d@, scale as nat));
    text
}

/// Writes `n / 10^scale`.
pub fn decimal(n: u32, scale: u32) -> (text: Vec<u8>)
    requires
        1 <= scale < 300,
    ensures
        text@ == decimal_spec(false, n as nat, scale as nat),
        is_plain(text@),
{
    write_decimal(false, digits_of(n), scale)
}

/// The exponent field of a number: `255` for the infinite and the undefined.
pub open spec fn exponent_field(s: Single) -> int {
    (s.bits / 0x80_0000) as int % 256
}

/// The whole number that, times a power of two, is the number without its sign.
pub open spec fn significand(s: Single) -> nat {
    (s.bits % 0x80_0000) as nat + if exponent_field(s) == 0 {
        0nat
    } else {
        0x80_0000nat
    }
}

/// The power of two.
pub open spec fn exponent(s: Single) -> int {
    if exponent_field(s) == 0 {
        -149
    } else {
        exponent_field(s) - 150
    }
}

/// A finite number in decimal notation, exactly: a fraction with the denominator `2^k` is one with
/// the denominator `10^k`, and `5^k` times the numerator.
pub open spec fn single_spec(s: Single) -> Option<Seq<u8>> {
    let negative = s.bits >= 0x8000_0000;
    let e = exponent(s);
    if exponent_field(s) == 255 {
        None
    } else if e < 0 {
        Some(decimal_spec(negative, scaled(significand(s), 5, (-e) as nat), (-e) as nat))
    } else {
        Some(decimal_spec(negative, scaled(scaled(significand(s), 2, e as nat), 10, 1), 1))
    }
}

/// A number in decimal notation, where it is finite.
pub fn single_decimal(s: Single) -> (r: Option<Vec<u8>>)
    ensures
        r is Some <==> single_spec(s) is Some,
        r matches Some(text) ==> single_spec(s) == Some(text@) && is_plain(text@),
{
    let negative = s.bits >= 0x8000_0000;
    let field: u32 = (s.bits / 0x80_0000) % 256;
    if field == 255 {
        return None;
    }
    let low: u32 = s.bits % 0x80_0000;
    let m: u32 = if field == 0 {
        low
    } else {
        low + 0x80_0000
    };
    let d = digits_of(m);
    if field < 150 {
        let k: u32 = if field == 0 {
            149
        } else {
            150 - field
        };
        let d = times_often(d, 5, k);
        Some(write_decimal(negative, d, k))
    } else {
        let d = times_often(d, 2, field - 150);
        let d = times_often(d, 10, 1);
        Some(write_decimal(negative, d, 1))
    }
}

/// What is read from decimal notation is what was written: the digits before and after the point,
/// taken together, denote `n`.
pub proof fn law_decimal_denotes(n: nat, scale: nat)
    ensures
        number(padded(n, scale + 1)) == n,
{
    lemma_number_of_digits(n);
    let d = digits(n);
    if d.len() < scale + 1 {
        lemma_zeros(d, (scale + 1 - d.len()) as nat);
    }
}

proof fn lemma_number_of_digits(n: nat)
    ensures
        number(digits(n)) == n,
    decreases n,
{
    if n > 0 {
        lemma_number_of_digits(n / 10);
        assert(digits(n).drop_first() =~= digits(n / 10));
    }
}

proof fn lemma_zeros(d: Seq<u8>, k: nat)
    ensures
        number(d + Seq::new(k, |i: int| 0u8)) == number(d),
    decreases k,
{
    let zeros = Seq::new(k, |i: int| 0u8);
    if k == 0 {
        assert(d + zeros =~= d);
    } else {
        let fewer = Seq::new((k - 1) as nat, |i: int| 0u8);
        lemma_zeros(d, (k - 1) as nat);
        lemma_number_push(d + fewer, 0);
        assert(d + zeros =~= (d + fewer).push(0));
        assert(0 * pow10((d + fewer).len()) == 0);
    }
}

} // verus!
