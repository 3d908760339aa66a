use vstd::prelude::*;
use vstd::arithmetic::div_mod::lemma_fundamental_div_mod_converse_div;
use crate::map::RGB8;

verus! {

/// `base` multiplied by itself `exponent` times.
pub open spec fn power(base: nat, exponent: nat) -> nat
    decreases exponent,
{
    if exponent == 0 {
        1
    } else {
        base * power(base, (exponent - 1) as nat)
    }
}

/// A channel's brightness `distance` LEDs behind the head of a trail: `value`
/// times the `distance`-th power of `coefficient / 255`, rounded up.
pub open spec fn faded(value: u8, coefficient: u8, distance: nat) -> nat {
    let scale = power(255, distance);
    ((value as nat * power(coefficient as nat, distance) + scale - 1) / (scale as int)) as nat
}

/// A colour `distance` LEDs behind the head of a trail: each channel faded
/// on its own.
pub open spec fn faded_color(color: RGB8, coefficient: u8, distance: nat) -> RGB8 {
    RGB8 {
        r: faded(color.r, coefficient, distance) as u8,
        g: faded(color.g, coefficient, distance) as u8,
        b: faded(color.b, coefficient, distance) as u8,
    }
}

pub proof fn lemma_power_positive(base: nat, exponent: nat)
    requires
        base > 0,
    ensures
        power(base, exponent) > 0,
    decreases exponent,
{
    if exponent > 0 {
        lemma_power_positive(base, (exponent - 1) as nat);
        assert(base * power(base, (exponent - 1) as nat) > 0) by (nonlinear_arith)
            requires
                base > 0,
                power(base, (exponent - 1) as nat) > 0,
        ;
    }
}

pub proof fn lemma_power_monotonic(small: nat, large: nat, exponent: nat)
    requires
        small <= large,
    ensures
        power(small, exponent) <= power(large, exponent),
    decreases exponent,
{
    if exponent > 0 {
        let e = (exponent - 1) as nat;
        lemma_power_monotonic(small, large, e);
        assert(small * power(small, e) <= large * power(large, e)) by (nonlinear_arith)
            requires
                small <= large,
                power(small, e) <= power(large, e),
        ;
    }
}

/// At the head of the trail nothing fades.
pub proof fn lemma_faded_at_head(value: u8, coefficient: u8)
    ensures
        faded(value, coefficient, 0) == value,
{
    assert(power(255, 0) == 1);
    assert(power(coefficient as nat, 0) == 1);
}

/// A faded channel is never brighter than the channel itself.
pub proof fn lemma_faded_bounded(value: u8, coefficient: u8, distance: nat)
    ensures
        faded(value, coefficient, distance) <= value,
{
    let scale = power(255, distance);
    let p = power(coefficient as nat, distance);
    lemma_power_positive(255, distance);
    lemma_power_monotonic(coefficient as nat, 255, distance);
    let x = value as nat * p;
    assert(x <= value as nat * scale) by (nonlinear_arith)
        requires
            x == value as nat * p,
            p <= scale,
    ;
    assert((x + scale - 1) / (scale as int) <= value) by (nonlinear_arith)
        requires
            x <= value as nat * scale,
            scale > 0,
    ;
}

/// With the coefficient 255 nothing fades, at any distance.
pub proof fn lemma_faded_full_coefficient(value: u8, distance: nat)
    ensures
        faded(value, 255, distance) == value,
{
    let scale = power(255, distance);
    lemma_power_positive(255, distance);
    assert(value as nat * scale + scale - 1 == value as int * scale + (scale - 1));
    lemma_fundamental_div_mod_converse_div(
        value as nat * scale + scale - 1,
        scale as int,
        value as int,
        scale - 1,
    );
}

/// The number that `digits` write in base 255, lowest digit first.
spec fn digits_value(digits: Seq<u8>) -> nat
    decreases digits.len(),
{
    if digits.len() == 0 {
        0
    } else {
        digits_value(digits.drop_last()) + digits.last() as nat * power(
            255,
            (digits.len() - 1) as nat,
        )
    }
}

spec fn digits_ok(digits: Seq<u8>) -> bool {
    forall|i: int| 0 <= i < digits.len() ==> #[trigger] digits[i] < 255
}

proof fn lemma_digits_bound(digits: Seq<u8>)
    requires
        digits_ok(digits),
    ensures
        digits_value(digits) < power(255, digits.len()),
    decreases digits.len(),
{
    if digits.len() > 0 {
        let rest = digits.drop_last();
        assert forall|i: int| 0 <= i < rest.len() implies #[trigger] rest[i] < 255 by {
            assert(rest[i] == digits[i]);
        }
        lemma_digits_bound(rest);
        let p = power(255, rest.len());
        let last = digits.last() as nat;
        assert(last <= 254);
        assert(digits_value(rest) + last * p < 255 * p) by (nonlinear_arith)
            requires
                digits_value(rest) < p,
                last <= 254,
        ;
    }
}

proof fn lemma_digits_zero(digits: Seq<u8>)
    ensures
        digits_value(digits) == 0 <==> forall|i: int|
            0 <= i < digits.len() ==> #[trigger] digits[i] == 0,
    decreases digits.len(),
{
    if digits.len() > 0 {
        let rest = digits.drop_last();
        lemma_digits_zero(rest);
        let p = power(255, rest.len());
        lemma_power_positive(255, rest.len());
        let last = digits.last() as nat;
        assert(last * p == 0 <==> last == 0) by (nonlinear_arith)
            requires
                p > 0,
        ;
        assert(last * p >= 0);
        if digits_value(digits) == 0 {
            assert forall|i: int| 0 <= i < digits.len() implies #[trigger] digits[i] == 0 by {
                if i < rest.len() {
                    assert(rest[i] == digits[i]);
                }
            }
        }
        if forall|i: int| 0 <= i < digits.len() ==> #[trigger] digits[i] == 0 {
            assert forall|i: int| 0 <= i < rest.len() implies #[trigger] rest[i] == 0 by {
                assert(rest[i] == digits[i]);
            }
            assert(digits[digits.len() - 1] == 0);
        }
    }
}

/// Multiplies the number that `digits` write by `factor`; the number grows
/// by one digit.
fn multiply(digits: &mut Vec<u8>, factor: u8)
    requires
        digits_ok(old(digits)@),
        old(digits)@.len() < usize::MAX,
    ensures
        digits_ok(final(digits)@),
        final(digits)@.len() == old(digits)@.len() + 1,
        digits_value(final(digits)@) == digits_value(old(digits)@) * factor,
{
    let ghost before = digits@;
    let n = digits.len();
    let mut carry: u32 = 0;
    let mut i: usize = 0;
    proof {
        assert(before.take(0) =~= Seq::<u8>::empty());
        assert(digits@.take(0) =~= Seq::<u8>::empty());
        assert(digits_value(Seq::<u8>::empty()) == 0);
        assert(0 * power(255, 0) == 0);
        assert(0 * (factor as int) == 0);
    }
    while i < n
        invariant
            i <= n,
            n == before.len(),
            digits@.len() == n,
            carry < 255,
            digits_ok(digits@),
            digits_ok(before),
            forall|j: int| i <= j < n ==> digits@[j] == before[j],
            digits_value(digits@.take(i as int)) + carry * power(255, i as nat) == digits_value(
                before.take(i as int),
            ) * factor,
        decreases n - i,
    {
        let ghost previous = digits@;
        let digit = digits[i];
        assert(digit < 255);
        assert(digit as u32 * factor as u32 <= 254 * 255) by (nonlinear_arith)
            requires
                digit < 255,
                factor <= 255,
        ;
        let total: u32 = digit as u32 * factor as u32 + carry;
        let low = (total % 255) as u8;
        digits.set(i, low);
        let ghost old_carry = carry;
        carry = total / 255;
        proof {
            let p = power(255, i as nat);
            assert(power(255, (i + 1) as nat) == 255 * p);
            let now = digits@.take(i + 1);
            assert(now.drop_last() =~= previous.take(i as int));
            assert(now.last() == low);
            let then = before.take(i + 1);
            assert(then.drop_last() =~= before.take(i as int));
            assert(then.last() == digit);
            let a = digits_value(previous.take(i as int));
            let b = digits_value(before.take(i as int));
            assert(digits_value(now) == a + low as nat * p);
            assert(digits_value(then) == b + digit as nat * p);
            assert(total == low + 255 * carry);
            assert(a + low as nat * p + carry * (255 * p) == (b + digit as nat * p) * factor)
                by (nonlinear_arith)
                requires
                    a + old_carry * p == b * factor,
                    digit * factor + old_carry == low + 255 * carry,
            ;
            assert forall|j: int| 0 <= j < digits@.len() implies #[trigger] digits@[j] < 255 by {
                if j != i {
                    assert(previous[j] < 255);
                }
            }
        }
        i += 1;
    }
    let ghost filled = digits@;
    digits.push(carry as u8);
    proof {
        assert(digits@.drop_last() =~= filled.take(n as int));
        assert(before.take(n as int) =~= before);
        assert(digits@.last() == carry);
    }
}

/// The brightness of a channel `distance` LEDs behind the head of a trail.
pub fn fade_channel(value: u8, coefficient: u8, distance: usize) -> (result: u8)
    requires
        distance <= usize::MAX - 2,
    ensures
        result == faded(value, coefficient, distance as nat),
{
    let mut digits: Vec<u8> = Vec::new();
    digits.push(value % 255);
    digits.push(value / 255);
    proof {
        let d = digits@;
        assert(d.drop_last() =~= seq![(value % 255) as u8]);
        assert(d.drop_last().drop_last() =~= Seq::<u8>::empty());
        assert(power(255, 0) == 1);
        assert(power(255, 1) == 255) by {
            assert(power(255, 1) == 255 * power(255, 0));
        }
        let first = d.drop_last();
        assert(first.drop_last() =~= Seq::<u8>::empty());
        assert(digits_value(first.drop_last()) == 0);
        assert(first.last() == (value % 255) as u8);
        assert(digits_value(first) == digits_value(first.drop_last()) + first.last() as nat * power(
            255,
            0,
        ));
        assert(digits_value(first) == (value % 255) as nat);
        assert(digits_value(d) == value);
        assert(power(coefficient as nat, 0) == 1);
    }
    let mut k: usize = 0;
    while k < distance
        invariant
            k <= distance,
            distance <= usize::MAX - 2,
            digits@.len() == k + 2,
            digits_ok(digits@),
            digits_value(digits@) == value as nat * power(coefficient as nat, k as nat),
        decreases distance - k,
    {
        multiply(&mut digits, coefficient);
        proof {
            let p = power(coefficient as nat, k as nat);
            assert(power(coefficient as nat, (k + 1) as nat) == coefficient as nat * p);
            assert(value as nat * p * coefficient == value as nat * (coefficient as nat * p))
                by (nonlinear_arith);
        }
        k += 1;
    }
    let mut remainder = false;
    let mut j: usize = 0;
    while j < distance
        invariant
            j <= distance,
            digits@.len() == distance + 2,
            remainder <==> exists|i: int| 0 <= i < j && digits@[i] != 0,
        decreases distance - j,
    {
        if digits[j] != 0 {
            remainder = true;
        }
        j += 1;
    }
    let high = digits[distance];
    let top = digits[distance + 1];
    proof {
        let d = digits@;
        let e = distance as nat;
        let scale = power(255, e);
        let x = value as nat * power(coefficient as nat, e);
        let upper = d.take(distance + 1);
        let lower = d.take(distance as int);
        assert(d.drop_last() =~= upper);
        assert(upper.drop_last() =~= lower);
        assert(power(255, e + 1) == 255 * scale);
        let low = digits_value(lower);
        assert(digits_value(upper) == low + high as nat * scale);
        assert(digits_value(d) == digits_value(upper) + top as nat * (255 * scale));
        assert forall|i: int| 0 <= i < lower.len() implies #[trigger] lower[i] < 255 by {
            assert(lower[i] == d[i]);
        }
        lemma_digits_bound(lower);
        lemma_digits_zero(lower);
        lemma_power_positive(255, e);
        lemma_power_monotonic(coefficient as nat, 255, e);
        assert(x <= 255 * scale) by (nonlinear_arith)
            requires
                x == value as nat * power(coefficient as nat, e),
                power(coefficient as nat, e) <= scale,
                value <= 255,
        ;
        let q = high as nat + 255 * top as nat;
        assert(x == low + q * scale) by (nonlinear_arith)
            requires
                x == low + high as nat * scale + top as nat * (255 * scale),
                q == high as nat + 255 * top as nat,
        ;
        assert(remainder <==> low != 0) by {
            if remainder {
                let i = choose|i: int| 0 <= i < distance && d[i] != 0;
                assert(lower[i] != 0);
            }
            if low != 0 {
                let i = choose|i: int| 0 <= i < lower.len() && lower[i] != 0;
                assert(d[i] != 0);
            }
        }
        if low == 0 {
            assert(q <= 255) by (nonlinear_arith)
                requires
                    q * scale <= 255 * scale,
                    scale > 0,
            ;
            assert(x + scale - 1 == q * scale + (scale - 1));
            lemma_fundamental_div_mod_converse_div(
                x + scale - 1,
                scale as int,
                q as int,
                scale - 1,
            );
        } else {
            assert(q < 255) by (nonlinear_arith)
                requires
                    low + q * scale <= 255 * scale,
                    low > 0,
                    scale > 0,
            ;
            assert(x + scale - 1 == (q + 1) * scale + (low - 1)) by (nonlinear_arith)
                requires
                    x == low + q * scale,
            ;
            lemma_fundamental_div_mod_converse_div(
                x + scale - 1,
                scale as int,
                q as int + 1,
                low - 1,
            );
        }
    }
    let whole: u16 = high as u16 + 255 * top as u16;
    if remainder {
        (whole + 1) as u8
    } else {
        whole as u8
    }
}

/// The colour `distance` LEDs behind the head of a trail.
pub fn fade_color(color: RGB8, coefficient: u8, distance: usize) -> (result: RGB8)
    requires
        distance <= usize::MAX - 2,
    ensures
        result == faded_color(color, coefficient, distance as nat),
{
    RGB8 {
        r: fade_channel(color.r, coefficient, distance),
        g: fade_channel(color.g, coefficient, distance),
        b: fade_channel(color.b, coefficient, distance),
    }
}

} // verus!
