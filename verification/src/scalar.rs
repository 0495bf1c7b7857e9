//! The exact scalar the library computes with.
//!
//! Every entry of a matrix or vector is a rational number held as a
//! numerator/denominator pair of `i64`s, together with one absorbing
//! non-finite value, `Scalar::nan()`. Dividing by zero, or producing a
//! value whose reduced numerator or denominator leaves the `i64`
//! range, yields that non-finite value,
//! and every operation propagates it — the exact-arithmetic counterpart
//! of the IEEE infinities and NaNs that dense eliminations are usually
//! allowed to emit on degenerate input.
//!
//! The mathematical model of a scalar is [`Rat`]; each executable
//! operation returns exactly what the matching `rat_*` specification
//! function says.

use vstd::prelude::*;

verus! {

/// Model of a scalar: a rational written as a fraction, or the
/// absorbing non-finite value.
pub enum Rat {
    Q { n: int, d: int },
    Nan,
}

/// Euclid's greatest common divisor; `gcd(a, 0)` is `a`.
pub open spec fn gcd(a: nat, b: nat) -> nat
    decreases b,
{
    if b == 0 {
        a
    } else {
        gcd(b, a % b)
    }
}

/// Against a positive second argument the divisor is between one and
/// that argument.
pub proof fn lemma_gcd_bounds(a: nat, b: nat)
    requires
        b >= 1,
    ensures
        1 <= gcd(a, b) <= b,
    decreases b,
{
    if a % b == 0 {
        assert(gcd(b, 0) == b);
    } else {
        lemma_gcd_bounds(b, a % b);
    }
}

/// `d` divides `x` without remainder.
pub open spec fn divides(d: int, x: int) -> bool {
    x % d == 0
}

/// A common divisor of `a` and `b` also divides `a % b`.
proof fn lemma_common_divisor_of_mod(a: int, b: int, d: int)
    requires
        a >= 0,
        b >= 1,
        d >= 1,
        divides(d, a),
        divides(d, b),
    ensures
        divides(d, a % b),
{
    vstd::arithmetic::div_mod::lemma_fundamental_div_mod(a, b);
    vstd::arithmetic::div_mod::lemma_fundamental_div_mod(a, d);
    vstd::arithmetic::div_mod::lemma_fundamental_div_mod(b, d);
    vstd::arithmetic::div_mod::lemma_mod_bound(a, b);
    let q = a / d - (a / b) * (b / d);
    assert(a % b == q * d) by (nonlinear_arith)
        requires
            a == b * (a / b) + a % b,
            a == d * (a / d),
            b == d * (b / d),
            q == a / d - (a / b) * (b / d),
    ;
    vstd::arithmetic::div_mod::lemma_fundamental_div_mod_converse(a % b, d, q, 0);
}

/// The greatest common divisor divides both of its arguments.
proof fn lemma_gcd_divides(a: nat, b: nat)
    ensures
        b >= 1 ==> divides(gcd(a, b) as int, a as int) && divides(gcd(a, b) as int, b as int),
        b == 0 ==> gcd(a, b) == a,
    decreases b,
{
    if b >= 1 {
        lemma_gcd_bounds(a, b);
        vstd::arithmetic::div_mod::lemma_mod_bound(a as int, b as int);
        let r = a % b;
        let g = gcd(b, r);
        assert(gcd(a, b) == g);
        if r == 0 {
            assert(divides(g as int, b as int));
            vstd::arithmetic::div_mod::lemma_fundamental_div_mod(a as int, b as int);
            vstd::arithmetic::div_mod::lemma_fundamental_div_mod(b as int, g as int);
            let q = (a as int / b as int) * (b as int / g as int);
            assert(a as int == q * g) by (nonlinear_arith)
                requires
                    a as int == b as int * (a as int / b as int) + 0,
                    b as int == g as int * (b as int / g as int),
                    q == (a as int / b as int) * (b as int / g as int),
            ;
            vstd::arithmetic::div_mod::lemma_fundamental_div_mod_converse(a as int, g as int, q, 0);
        } else {
            lemma_gcd_divides(b, r);
            // g divides b and a % b, hence a.
            vstd::arithmetic::div_mod::lemma_fundamental_div_mod(a as int, b as int);
            vstd::arithmetic::div_mod::lemma_fundamental_div_mod(b as int, g as int);
            vstd::arithmetic::div_mod::lemma_fundamental_div_mod(r as int, g as int);
            let q = (a as int / b as int) * (b as int / g as int) + r as int / g as int;
            assert(a as int == q * g) by (nonlinear_arith)
                requires
                    a as int == b as int * (a as int / b as int) + r,
                    b as int == g as int * (b as int / g as int),
                    r as int == g as int * (r as int / g as int),
                    q == (a as int / b as int) * (b as int / g as int) + r as int / g as int,
            ;
            vstd::arithmetic::div_mod::lemma_fundamental_div_mod_converse(a as int, g as int, q, 0);
        }
    }
}

/// Every common divisor of `a` and `b` divides their greatest common
/// divisor.
proof fn lemma_gcd_is_greatest(a: nat, b: nat, d: int)
    requires
        d >= 1,
        divides(d, a as int),
        divides(d, b as int),
    ensures
        divides(d, gcd(a, b) as int),
    decreases b,
{
    if b == 0 {
        assert(gcd(a, b) == a);
    } else {
        lemma_common_divisor_of_mod(a as int, b as int, d);
        vstd::arithmetic::div_mod::lemma_mod_bound(a as int, b as int);
        lemma_gcd_is_greatest(b, a % b, d);
    }
}

/// A divisor of a positive number is no larger than it.
proof fn lemma_divides_le(d: int, x: int)
    requires
        d >= 1,
        x >= 1,
        divides(d, x),
    ensures
        d <= x,
{
    vstd::arithmetic::div_mod::lemma_fundamental_div_mod(x, d);
    vstd::arithmetic::div_mod::lemma_div_pos_is_pos(x, d);
    assert(x / d >= 1 && d * (x / d) >= d) by (nonlinear_arith)
        requires
            d >= 1,
            x >= 1,
            x == d * (x / d),
            x / d >= 0,
    ;
}

/// The greatest common divisor does not depend on the order of its
/// arguments.
proof fn lemma_gcd_sym(a: nat, b: nat)
    ensures
        gcd(a, b) == gcd(b, a),
{
    if a == 0 && b == 0 {
    } else if a == 0 {
        assert(gcd(b, 0) == b);
        assert(gcd(0, b) == gcd(b, 0nat % b));
        assert(0nat % b == 0) by (nonlinear_arith)
            requires
                b >= 1,
        ;
    } else if b == 0 {
        assert(gcd(a, 0) == a);
        assert(gcd(0, a) == gcd(a, 0nat % a));
        assert(0nat % a == 0) by (nonlinear_arith)
            requires
                a >= 1,
        ;
    } else {
        lemma_gcd_divides(a, b);
        lemma_gcd_divides(b, a);
        lemma_gcd_bounds(a, b);
        lemma_gcd_bounds(b, a);
        lemma_gcd_is_greatest(b, a, gcd(a, b) as int);
        lemma_gcd_is_greatest(a, b, gcd(b, a) as int);
        lemma_divides_le(gcd(a, b) as int, gcd(b, a) as int);
        lemma_divides_le(gcd(b, a) as int, gcd(a, b) as int);
    }
}

/// A common factor scales the greatest common divisor.
proof fn lemma_gcd_scale(k: nat, a: nat, b: nat)
    requires
        k >= 1,
    ensures
        gcd(k * a, k * b) == k * gcd(a, b),
    decreases b,
{
    if b == 0 {
        assert(k * b == 0);
        assert(gcd(k * a, k * b) == k * a);
    } else {
        let r = a % b;
        vstd::arithmetic::div_mod::lemma_mod_bound(a as int, b as int);
        vstd::arithmetic::div_mod::lemma_fundamental_div_mod(a as int, b as int);
        assert(k * a == (a as int / b as int) * (k * b) + k * r && 0 <= k * r < k * b)
            by (nonlinear_arith)
            requires
                k >= 1,
                b >= 1,
                0 <= r < b,
                a as int == b as int * (a as int / b as int) + r,
        ;
        vstd::arithmetic::div_mod::lemma_fundamental_div_mod_converse(
            (k * a) as int,
            (k * b) as int,
            a as int / b as int,
            (k * r) as int,
        );
        assert((k * a) % (k * b) == k * r);
        assert(gcd(k * a, k * b) == gcd(k * b, k * r));
        lemma_gcd_scale(k, b, r);
    }
}

/// Dividing two numbers by their greatest common divisor leaves a
/// coprime pair.
proof fn lemma_coprime_quotients(a: nat, b: nat)
    requires
        b >= 1,
    ensures
        gcd((a as int / gcd(a, b) as int) as nat, (b as int / gcd(a, b) as int) as nat) == 1,
{
    let g = gcd(a, b) as int;
    lemma_gcd_bounds(a, b);
    lemma_gcd_divides(a, b);
    vstd::arithmetic::div_mod::lemma_fundamental_div_mod(a as int, g);
    vstd::arithmetic::div_mod::lemma_fundamental_div_mod(b as int, g);
    vstd::arithmetic::div_mod::lemma_div_pos_is_pos(a as int, g);
    vstd::arithmetic::div_mod::lemma_div_non_zero(b as int, g);
    let aq = (a as int / g) as nat;
    let bq = (b as int / g) as nat;
    let h = gcd(aq, bq) as int;
    lemma_gcd_bounds(aq, bq);
    lemma_gcd_divides(aq, bq);
    vstd::arithmetic::div_mod::lemma_fundamental_div_mod(aq as int, h);
    vstd::arithmetic::div_mod::lemma_fundamental_div_mod(bq as int, h);
    assert(a as int == (aq as int / h) * (h * g) && b as int == (bq as int / h) * (h * g))
        by (nonlinear_arith)
        requires
            a as int == g * aq,
            b as int == g * bq,
            aq as int == h * (aq as int / h),
            bq as int == h * (bq as int / h),
    ;
    vstd::arithmetic::div_mod::lemma_div_pos_is_pos(aq as int, h);
    vstd::arithmetic::div_mod::lemma_div_pos_is_pos(bq as int, h);
    assert(h * g >= 1) by (nonlinear_arith)
        requires
            h >= 1,
            g >= 1,
    ;
    vstd::arithmetic::div_mod::lemma_fundamental_div_mod_converse(
        a as int,
        h * g,
        aq as int / h,
        0,
    );
    vstd::arithmetic::div_mod::lemma_fundamental_div_mod_converse(
        b as int,
        h * g,
        bq as int / h,
        0,
    );
    lemma_gcd_is_greatest(a, b, h * g);
    lemma_divides_le(h * g, g);
    assert(h == 1) by (nonlinear_arith)
        requires
            h >= 1,
            g >= 1,
            h * g <= g,
    ;
}

/// Two coprime fraction representations of one value are the same
/// pair.
proof fn lemma_coprime_pair_unique(p1: nat, q1: nat, p2: nat, q2: nat)
    requires
        q1 >= 1,
        q2 >= 1,
        gcd(p1, q1) == 1,
        gcd(p2, q2) == 1,
        p1 * q2 == p2 * q1,
    ensures
        p1 == p2,
        q1 == q2,
{
    lemma_gcd_scale(q2, q1, p1);
    lemma_gcd_sym(q1, p1);
    assert(gcd(q2 * q1, q2 * p1) == q2) by (nonlinear_arith)
        requires
            gcd(q2 * q1, q2 * p1) == q2 * gcd(q1, p1),
            gcd(q1, p1) == 1nat,
    ;
    lemma_gcd_scale(q1, q2, p2);
    lemma_gcd_sym(q2, p2);
    assert(gcd(q1 * q2, q1 * p2) == q1) by (nonlinear_arith)
        requires
            gcd(q1 * q2, q1 * p2) == q1 * gcd(q2, p2),
            gcd(q2, p2) == 1nat,
    ;
    // q1 divides both q2 * q1 and q2 * p1, so q1 divides q2.
    assert(q2 * q1 == q2 * q1 && q2 * p1 == p2 * q1) by (nonlinear_arith)
        requires
            p1 * q2 == p2 * q1,
    ;
    vstd::arithmetic::div_mod::lemma_fundamental_div_mod_converse(
        (q2 * q1) as int,
        q1 as int,
        q2 as int,
        0,
    );
    vstd::arithmetic::div_mod::lemma_fundamental_div_mod_converse(
        (q2 * p1) as int,
        q1 as int,
        p2 as int,
        0,
    );
    lemma_gcd_is_greatest(q2 * q1, q2 * p1, q1 as int);
    lemma_divides_le(q1 as int, q2 as int);
    // And symmetrically q2 divides q1.
    assert(q1 * q2 == q1 * q2 && q1 * p2 == p1 * q2) by (nonlinear_arith)
        requires
            p1 * q2 == p2 * q1,
    ;
    vstd::arithmetic::div_mod::lemma_fundamental_div_mod_converse(
        (q1 * q2) as int,
        q2 as int,
        q1 as int,
        0,
    );
    vstd::arithmetic::div_mod::lemma_fundamental_div_mod_converse(
        (q1 * p2) as int,
        q2 as int,
        p1 as int,
        0,
    );
    lemma_gcd_is_greatest(q1 * q2, q1 * p2, q2 as int);
    lemma_divides_le(q2 as int, q1 as int);
    assert(q1 == q2);
    assert(p1 == p2) by (nonlinear_arith)
        requires
            q1 == q2,
            q1 >= 1,
            p1 * q2 == p2 * q1,
    ;
}

/// Build a rational from any numerator and denominator: the sign is
/// carried by the numerator, the pair is reduced by its greatest
/// common divisor, and a zero denominator or a reduced component
/// beyond the `i64` range gives the non-finite value.
pub open spec fn rat_new(n: int, d: int) -> Rat {
    if d == 0 {
        Rat::Nan
    } else {
        let nn = if d < 0 { -n } else { n };
        let dd = if d < 0 { -d } else { d };
        let na = if nn < 0 { -nn } else { nn };
        let g = gcd(na as nat, dd as nat) as int;
        let nr = na / g;
        let dr = dd / g;
        if nr <= 0x7fff_ffff_ffff_ffff && dr <= 0x7fff_ffff_ffff_ffff {
            Rat::Q { n: if nn < 0 { -nr } else { nr }, d: dr }
        } else {
            Rat::Nan
        }
    }
}

/// A finite value whose numerator is not zero.
pub open spec fn rat_is_nonzero(x: Rat) -> bool {
    match x {
        Rat::Q { n, d } => n != 0,
        Rat::Nan => false,
    }
}

/// What every value built by [`rat_new`] looks like: non-finite, or a
/// fraction in lowest terms with a positive denominator and both
/// components in the `i64` range.
pub open spec fn rat_canon(x: Rat) -> bool {
    match x {
        Rat::Q { n, d } => {
            &&& 1 <= d <= 0x7fff_ffff_ffff_ffff
            &&& -0x7fff_ffff_ffff_ffff <= n <= 0x7fff_ffff_ffff_ffff
            &&& gcd((if n < 0 { -n } else { n }) as nat, d as nat) == 1
        },
        Rat::Nan => true,
    }
}

/// Everything [`rat_new`] builds is canonical.
pub proof fn lemma_rat_new_canon(n: int, d: int)
    ensures
        rat_canon(rat_new(n, d)),
{
    if d != 0 && rat_new(n, d) is Q {
        let nn = if d < 0 { -n } else { n };
        let dd = if d < 0 { -d } else { d };
        let na = if nn < 0 { -nn } else { nn };
        let g = gcd(na as nat, dd as nat) as int;
        lemma_gcd_bounds(na as nat, dd as nat);
        lemma_coprime_quotients(na as nat, dd as nat);
        vstd::arithmetic::div_mod::lemma_div_pos_is_pos(na, g);
        vstd::arithmetic::div_mod::lemma_div_non_zero(dd, g);
    }
}

/// A finite value built by [`rat_new`] stands for the fraction it was
/// built from: the cross products agree.
pub proof fn lemma_rat_new_cross(n: int, d: int)
    ensures
        rat_new(n, d) matches Rat::Q { n: rn, d: rd } ==> rn * d == n * rd,
{
    if d != 0 && rat_new(n, d) is Q {
        let nn = if d < 0 { -n } else { n };
        let dd = if d < 0 { -d } else { d };
        let na = if nn < 0 { -nn } else { nn };
        let g = gcd(na as nat, dd as nat) as int;
        lemma_gcd_bounds(na as nat, dd as nat);
        lemma_gcd_divides(na as nat, dd as nat);
        vstd::arithmetic::div_mod::lemma_fundamental_div_mod(na, g);
        vstd::arithmetic::div_mod::lemma_fundamental_div_mod(dd, g);
        let nr = na / g;
        let dr = dd / g;
        let rn = if nn < 0 { -nr } else { nr };
        assert(rn * dd == nn * dr) by (nonlinear_arith)
            requires
                na == g * nr,
                dd == g * dr,
                na == (if nn < 0 { -nn } else { nn }),
                rn == (if nn < 0 { -nr } else { nr }),
        ;
        assert(rn * d == n * dr) by (nonlinear_arith)
            requires
                rn * dd == nn * dr,
                nn == (if d < 0 { -n } else { n }),
                dd == (if d < 0 { -d } else { d }),
                d != 0,
        ;
    }
}

/// [`rat_new`] maps any fraction with a positive denominator that
/// stands for the value of a canonical finite rational back to
/// exactly that rational.
pub proof fn lemma_rat_new_of_equal_value(big_n: int, big_d: int, a: Rat)
    requires
        big_d >= 1,
        rat_canon(a),
        a is Q,
        big_n * (a->Q_d) == (a->Q_n) * big_d,
    ensures
        rat_new(big_n, big_d) == a,
{
    let an = a->Q_n;
    let ad = a->Q_d;
    let na = if big_n < 0 { -big_n } else { big_n };
    let aa = if an < 0 { -an } else { an };
    let g = gcd(na as nat, big_d as nat) as int;
    lemma_gcd_bounds(na as nat, big_d as nat);
    lemma_gcd_divides(na as nat, big_d as nat);
    lemma_coprime_quotients(na as nat, big_d as nat);
    vstd::arithmetic::div_mod::lemma_fundamental_div_mod(na, g);
    vstd::arithmetic::div_mod::lemma_fundamental_div_mod(big_d, g);
    vstd::arithmetic::div_mod::lemma_div_pos_is_pos(na, g);
    vstd::arithmetic::div_mod::lemma_div_non_zero(big_d, g);
    let nr = na / g;
    let dr = big_d / g;
    // The signs of the raw numerator and of `a`'s numerator agree.
    assert((big_n < 0 <==> an < 0) && (big_n == 0 <==> an == 0) && na * ad == aa * big_d)
        by (nonlinear_arith)
        requires
            big_n * ad == an * big_d,
            big_d >= 1,
            ad >= 1,
            na == (if big_n < 0 { -big_n } else { big_n }),
            aa == (if an < 0 { -an } else { an }),
    ;
    // Cancel the common divisor from the magnitude cross product.
    assert(nr * ad == aa * dr) by (nonlinear_arith)
        requires
            g >= 1,
            na == g * nr,
            big_d == g * dr,
            na * ad == aa * big_d,
    ;
    lemma_coprime_pair_unique(nr as nat, dr as nat, aa as nat, ad as nat);
    assert(nr == aa && dr == ad);
}

pub open spec fn rat_zero() -> Rat {
    Rat::Q { n: 0, d: 1 }
}

pub open spec fn rat_one() -> Rat {
    Rat::Q { n: 1, d: 1 }
}

pub open spec fn rat_add(a: Rat, b: Rat) -> Rat {
    match (a, b) {
        (Rat::Q { n: n1, d: d1 }, Rat::Q { n: n2, d: d2 }) => rat_new(n1 * d2 + n2 * d1, d1 * d2),
        _ => Rat::Nan,
    }
}

pub open spec fn rat_sub(a: Rat, b: Rat) -> Rat {
    match (a, b) {
        (Rat::Q { n: n1, d: d1 }, Rat::Q { n: n2, d: d2 }) => rat_new(n1 * d2 - n2 * d1, d1 * d2),
        _ => Rat::Nan,
    }
}

pub open spec fn rat_mul(a: Rat, b: Rat) -> Rat {
    match (a, b) {
        (Rat::Q { n: n1, d: d1 }, Rat::Q { n: n2, d: d2 }) => rat_new(n1 * n2, d1 * d2),
        _ => Rat::Nan,
    }
}

/// Division: a zero divisor is not guarded against, it yields the
/// non-finite value, as the factorizations expect of a zero pivot.
pub open spec fn rat_div(a: Rat, b: Rat) -> Rat {
    match (a, b) {
        (Rat::Q { n: n1, d: d1 }, Rat::Q { n: n2, d: d2 }) => {
            if n2 == 0 {
                Rat::Nan
            } else {
                rat_new(n1 * d2, d1 * n2)
            }
        },
        _ => Rat::Nan,
    }
}

pub open spec fn rat_neg(a: Rat) -> Rat {
    match a {
        Rat::Q { n, d } => rat_new(-n, d),
        Rat::Nan => Rat::Nan,
    }
}

pub open spec fn rat_abs(a: Rat) -> Rat {
    match a {
        Rat::Q { n, d } => rat_new(if n < 0 { -n } else { n }, d),
        Rat::Nan => Rat::Nan,
    }
}

/// Exact equality of two scalars. The non-finite value equals nothing,
/// itself included, as IEEE NaN does.
pub open spec fn rat_eq(a: Rat, b: Rat) -> bool {
    match (a, b) {
        (Rat::Q { n: n1, d: d1 }, Rat::Q { n: n2, d: d2 }) => n1 * d2 == n2 * d1,
        _ => false,
    }
}

/// Order on finite scalars; any comparison with the non-finite value is
/// false, as it is for IEEE NaN.
pub open spec fn rat_le(a: Rat, b: Rat) -> bool {
    match (a, b) {
        (Rat::Q { n: n1, d: d1 }, Rat::Q { n: n2, d: d2 }) => n1 * d2 <= n2 * d1,
        _ => false,
    }
}

/// The comparison partial pivoting runs on: is `|a|` strictly larger
/// than `|b|`? False whenever either side is non-finite.
pub open spec fn rat_abs_gt(a: Rat, b: Rat) -> bool {
    match (a, b) {
        (Rat::Q { n: n1, d: d1 }, Rat::Q { n: n2, d: d2 }) => {
            (if n1 < 0 { -n1 } else { n1 }) * d2 > (if n2 < 0 { -n2 } else { n2 }) * d1
        },
        _ => false,
    }
}

/// The sign factor a determinant is scaled by: 1 for non-negative
/// finite values (zero gets the positive sign, as IEEE `signum` gives
/// +0.0), -1 for negative ones, non-finite otherwise.
pub open spec fn rat_sign_factor(a: Rat) -> Rat {
    match a {
        Rat::Q { n, d } => if n < 0 { Rat::Q { n: -1, d: 1 } } else { rat_one() },
        Rat::Nan => Rat::Nan,
    }
}

/// Law: multiplication of finite values is commutative.
pub proof fn lemma_rat_mul_comm(a: Rat, b: Rat)
    ensures
        rat_mul(a, b) == rat_mul(b, a),
{
    match (a, b) {
        (Rat::Q { n: n1, d: d1 }, Rat::Q { n: n2, d: d2 }) => {
            assert(n1 * n2 == n2 * n1 && d1 * d2 == d2 * d1) by (nonlinear_arith);
        },
        _ => {},
    }
}

/// Law (exact division): whenever a quotient of canonical finite
/// values is finite, multiplying it back by the divisor recovers the
/// dividend exactly. This is what lets a substitution pass divide by
/// a diagonal entry without losing anything.
pub proof fn lemma_rat_mul_div_recover(a: Rat, b: Rat)
    requires
        rat_canon(a),
        rat_canon(b),
        a is Q,
        b is Q,
        rat_is_nonzero(b),
        rat_div(a, b) is Q,
    ensures
        rat_mul(rat_div(a, b), b) == a,
{
    let an = a->Q_n;
    let ad = a->Q_d;
    let bn = b->Q_n;
    let bd = b->Q_d;
    let c = rat_div(a, b);
    lemma_rat_new_canon(an * bd, ad * bn);
    lemma_rat_new_cross(an * bd, ad * bn);
    let cn = c->Q_n;
    let cd = c->Q_d;
    assert((cn * bn) * ad == an * (cd * bd) && cd * bd >= 1) by (nonlinear_arith)
        requires
            cn * (ad * bn) == (an * bd) * cd,
            cd >= 1,
            bd >= 1,
    ;
    lemma_rat_new_of_equal_value(cn * bn, cd * bd, a);
}

/// Law (exact subtraction): whenever a difference of canonical finite
/// values is finite, adding the subtrahend back recovers the minuend
/// exactly.
pub proof fn lemma_rat_add_sub_recover(a: Rat, b: Rat)
    requires
        rat_canon(a),
        rat_canon(b),
        a is Q,
        b is Q,
        rat_sub(a, b) is Q,
    ensures
        rat_add(rat_sub(a, b), b) == a,
{
    let an = a->Q_n;
    let ad = a->Q_d;
    let bn = b->Q_n;
    let bd = b->Q_d;
    let s = rat_sub(a, b);
    lemma_rat_new_canon(an * bd - bn * ad, ad * bd);
    lemma_rat_new_cross(an * bd - bn * ad, ad * bd);
    let sn = s->Q_n;
    let sd = s->Q_d;
    assert((sn * bd + bn * sd) * ad == an * (sd * bd) && sd * bd >= 1) by (nonlinear_arith)
        requires
            sn * (ad * bd) == (an * bd - bn * ad) * sd,
            sd >= 1,
            bd >= 1,
    ;
    lemma_rat_new_of_equal_value(sn * bd + bn * sd, sd * bd, a);
}

/// The fractions 0/1 and 1/1 are already in lowest terms.
proof fn lemma_unit_gcd()
    ensures
        gcd(0, 1) == 1,
        gcd(1, 1) == 1,
{
    assert(gcd(0, 1) == gcd(1, 0nat % 1));
    assert(0nat % 1 == 0) by (nonlinear_arith);
    assert(gcd(1, 1) == gcd(1, 1nat % 1));
    assert(1nat % 1 == 0) by (nonlinear_arith);
}

/// Law (dominant divisor): dividing a canonical finite value by one
/// of at least its magnitude gives a quotient of magnitude at most
/// one, whenever the quotient is finite. This is what partial
/// pivoting buys the elimination: a multiplier never exceeds one.
pub proof fn lemma_div_by_dominant(a: Rat, b: Rat)
    requires
        rat_canon(a),
        rat_canon(b),
        b is Q,
        rat_is_nonzero(b),
        !rat_abs_gt(a, b),
        rat_div(a, b) is Q,
    ensures
        rat_le(rat_abs(rat_div(a, b)), rat_one()),
{
    let an = a->Q_n;
    let ad = a->Q_d;
    let bn = b->Q_n;
    let bd = b->Q_d;
    let c = rat_div(a, b);
    lemma_rat_new_canon(an * bd, ad * bn);
    lemma_rat_new_cross(an * bd, ad * bn);
    let cn = c->Q_n;
    let cd = c->Q_d;
    let na = if an < 0 { -an } else { an };
    let nb = if bn < 0 { -bn } else { bn };
    let nc = if cn < 0 { -cn } else { cn };
    assert(nc <= cd) by (nonlinear_arith)
        requires
            cn * (ad * bn) == (an * bd) * cd,
            na * bd <= nb * ad,
            na == (if an < 0 { -an } else { an }),
            nb == (if bn < 0 { -bn } else { bn }),
            nc == (if cn < 0 { -cn } else { cn }),
            ad >= 1,
            bd >= 1,
            cd >= 1,
            nb >= 1,
    ;
    // The absolute value of a canonical quotient is itself canonical.
    lemma_rat_new_of_equal_value(nc, cd, Rat::Q { n: nc, d: cd });
}

/// An exact scalar: `den == 0` encodes the non-finite value, any other
/// denominator is kept positive by every constructor.
#[derive(Clone, Copy, Debug)]
pub struct Scalar {
    num: i64,
    den: i64,
}

impl View for Scalar {
    type V = Rat;

    closed spec fn view(&self) -> Rat {
        if self.den <= 0 {
            Rat::Nan
        } else {
            Rat::Q { n: self.num as int, d: self.den as int }
        }
    }
}

/// Bound on every product of two `i64` components, used to keep the
/// wide intermediate arithmetic in range.
proof fn lemma_i64_mul_bound(a: int, b: int)
    requires
        -0x8000_0000_0000_0000 <= a <= 0x8000_0000_0000_0000,
        -0x8000_0000_0000_0000 <= b <= 0x8000_0000_0000_0000,
    ensures
        -0x4000_0000_0000_0000_0000_0000_0000_0000 <= a * b
            <= 0x4000_0000_0000_0000_0000_0000_0000_0000,
{
    assert(-0x4000_0000_0000_0000_0000_0000_0000_0000 <= a * b
        <= 0x4000_0000_0000_0000_0000_0000_0000_0000) by (nonlinear_arith)
        requires
            -0x8000_0000_0000_0000 <= a <= 0x8000_0000_0000_0000,
            -0x8000_0000_0000_0000 <= b <= 0x8000_0000_0000_0000,
    ;
}

/// Tighter bound for products with a positive denominator component.
proof fn lemma_i64_mul_posden_bound(a: int, b: int)
    requires
        -0x8000_0000_0000_0000 <= a <= 0x8000_0000_0000_0000,
        1 <= b <= 0x7fff_ffff_ffff_ffff,
    ensures
        -0x3fff_ffff_ffff_ffff_8000_0000_0000_0000 <= a * b
            <= 0x3fff_ffff_ffff_ffff_8000_0000_0000_0000,
{
    assert(-0x3fff_ffff_ffff_ffff_8000_0000_0000_0000 <= a * b
        <= 0x3fff_ffff_ffff_ffff_8000_0000_0000_0000) by (nonlinear_arith)
        requires
            -0x8000_0000_0000_0000 <= a <= 0x8000_0000_0000_0000,
            1 <= b <= 0x7fff_ffff_ffff_ffff,
    ;
}

/// Euclid's algorithm on wide non-negative components.
fn gcd_i128(a: i128, b: i128) -> (g: i128)
    requires
        a >= 0,
        b >= 1,
    ensures
        g == gcd(a as nat, b as nat),
        1 <= g <= b,
{
    proof {
        lemma_gcd_bounds(a as nat, b as nat);
    }
    let mut x = a;
    let mut y = b;
    while y != 0
        invariant
            x >= 0,
            y >= 0,
            x > 0 || y > 0,
            gcd(x as nat, y as nat) == gcd(a as nat, b as nat),
        decreases y,
    {
        let t = x % y;
        x = y;
        y = t;
    }
    x
}

impl Scalar {
    /// Assemble a scalar from wide components: normalize the sign
    /// onto the numerator, reduce by the greatest common divisor, and
    /// fall to the non-finite value when the reduced pair still
    /// leaves the `i64` range.
    fn make(n: i128, d: i128) -> (s: Scalar)
        requires
            -0x7fff_ffff_ffff_ffff_0000_0000_0000_0000 <= n
                <= 0x7fff_ffff_ffff_ffff_0000_0000_0000_0000,
            -0x7fff_ffff_ffff_ffff_0000_0000_0000_0000 <= d
                <= 0x7fff_ffff_ffff_ffff_0000_0000_0000_0000,
        ensures
            s@ == rat_new(n as int, d as int),
            rat_canon(s@),
    {
        proof {
            lemma_rat_new_canon(n as int, d as int);
        }
        if d == 0 {
            return Scalar { num: 0, den: 0 };
        }
        let (nn, dd): (i128, i128) = if d < 0 { (-n, -d) } else { (n, d) };
        let neg = nn < 0;
        let na: i128 = if neg { -nn } else { nn };
        let g = gcd_i128(na, dd);
        proof {
            vstd::arithmetic::div_mod::lemma_div_pos_is_pos(na as int, g as int);
            vstd::arithmetic::div_mod::lemma_div_non_zero(dd as int, g as int);
            vstd::arithmetic::div_mod::lemma_div_is_ordered_by_denominator(na as int, 1, g as int);
            vstd::arithmetic::div_mod::lemma_div_is_ordered_by_denominator(dd as int, 1, g as int);
        }
        let nr = na / g;
        let dr = dd / g;
        if nr > 0x7fff_ffff_ffff_ffff || dr > 0x7fff_ffff_ffff_ffff {
            Scalar { num: 0, den: 0 }
        } else {
            Scalar { num: if neg { -(nr as i64) } else { nr as i64 }, den: dr as i64 }
        }
    }

    /// The rational `num / den`; a zero `den` gives the non-finite
    /// value.
    pub fn new(num: i64, den: i64) -> (s: Scalar)
        ensures
            s@ == rat_new(num as int, den as int),
            rat_canon(s@),
    {
        Scalar::make(num as i128, den as i128)
    }

    /// The integer `n` as a scalar.
    pub fn from_int(n: i64) -> (s: Scalar)
        ensures
            s@ == rat_new(n as int, 1),
            rat_canon(s@),
    {
        Scalar::make(n as i128, 1)
    }

    pub fn zero() -> (s: Scalar)
        ensures
            s@ == rat_zero(),
            rat_canon(s@),
    {
        proof {
            lemma_unit_gcd();
        }
        Scalar { num: 0, den: 1 }
    }

    pub fn one() -> (s: Scalar)
        ensures
            s@ == rat_one(),
            rat_canon(s@),
    {
        proof {
            lemma_unit_gcd();
        }
        Scalar { num: 1, den: 1 }
    }

    /// The absorbing non-finite value.
    pub fn nan() -> (s: Scalar)
        ensures
            s@ == Rat::Nan,
            rat_canon(s@),
    {
        Scalar { num: 0, den: 0 }
    }

    /// The stored numerator of a finite value.
    pub fn num(self) -> (r: i64)
        ensures
            self@ matches Rat::Q { n, d } ==> r == n,
    {
        self.num
    }

    /// The stored positive denominator of a finite value.
    pub fn den(self) -> (r: i64)
        ensures
            self@ matches Rat::Q { n, d } ==> r == d,
    {
        self.den
    }

    pub fn is_nan(self) -> (r: bool)
        ensures
            r == (self@ is Nan),
    {
        self.den <= 0
    }

    pub fn add(self, rhs: Scalar) -> (r: Scalar)
        ensures
            r@ == rat_add(self@, rhs@),
            rat_canon(r@),
    {
        if self.den <= 0 || rhs.den <= 0 {
            return Scalar { num: 0, den: 0 };
        }
        proof {
            lemma_i64_mul_posden_bound(self.num as int, rhs.den as int);
            lemma_i64_mul_posden_bound(rhs.num as int, self.den as int);
            lemma_i64_mul_bound(self.den as int, rhs.den as int);
        }
        let n: i128 = self.num as i128 * rhs.den as i128 + rhs.num as i128 * self.den as i128;
        let d: i128 = self.den as i128 * rhs.den as i128;
        Scalar::make(n, d)
    }

    pub fn sub(self, rhs: Scalar) -> (r: Scalar)
        ensures
            r@ == rat_sub(self@, rhs@),
            rat_canon(r@),
    {
        if self.den <= 0 || rhs.den <= 0 {
            return Scalar { num: 0, den: 0 };
        }
        proof {
            lemma_i64_mul_posden_bound(self.num as int, rhs.den as int);
            lemma_i64_mul_posden_bound(rhs.num as int, self.den as int);
            lemma_i64_mul_bound(self.den as int, rhs.den as int);
        }
        let n: i128 = self.num as i128 * rhs.den as i128 - rhs.num as i128 * self.den as i128;
        let d: i128 = self.den as i128 * rhs.den as i128;
        Scalar::make(n, d)
    }

    pub fn mul(self, rhs: Scalar) -> (r: Scalar)
        ensures
            r@ == rat_mul(self@, rhs@),
            rat_canon(r@),
    {
        if self.den <= 0 || rhs.den <= 0 {
            return Scalar { num: 0, den: 0 };
        }
        proof {
            lemma_i64_mul_bound(self.num as int, rhs.num as int);
            lemma_i64_mul_bound(self.den as int, rhs.den as int);
        }
        Scalar::make(self.num as i128 * rhs.num as i128, self.den as i128 * rhs.den as i128)
    }

    pub fn div(self, rhs: Scalar) -> (r: Scalar)
        ensures
            r@ == rat_div(self@, rhs@),
            rat_canon(r@),
    {
        if self.den <= 0 || rhs.den <= 0 || rhs.num == 0 {
            return Scalar { num: 0, den: 0 };
        }
        proof {
            lemma_i64_mul_bound(self.num as int, rhs.den as int);
            lemma_i64_mul_bound(self.den as int, rhs.num as int);
        }
        Scalar::make(self.num as i128 * rhs.den as i128, self.den as i128 * rhs.num as i128)
    }

    pub fn neg(self) -> (r: Scalar)
        ensures
            r@ == rat_neg(self@),
            rat_canon(r@),
    {
        if self.den <= 0 {
            return Scalar { num: 0, den: 0 };
        }
        Scalar::make(-(self.num as i128), self.den as i128)
    }

    pub fn abs(self) -> (r: Scalar)
        ensures
            r@ == rat_abs(self@),
            rat_canon(r@),
    {
        if self.den <= 0 {
            return Scalar { num: 0, den: 0 };
        }
        let n: i128 = self.num as i128;
        Scalar::make(if n < 0 { -n } else { n }, self.den as i128)
    }

    /// Exact comparison; false whenever either side is non-finite.
    pub fn equals(self, rhs: Scalar) -> (r: bool)
        ensures
            r == rat_eq(self@, rhs@),
    {
        if self.den <= 0 || rhs.den <= 0 {
            return false;
        }
        proof {
            lemma_i64_mul_bound(self.num as int, rhs.den as int);
            lemma_i64_mul_bound(rhs.num as int, self.den as int);
        }
        self.num as i128 * rhs.den as i128 == rhs.num as i128 * self.den as i128
    }

    /// Order comparison; false whenever either side is non-finite.
    pub fn le(self, rhs: Scalar) -> (r: bool)
        ensures
            r == rat_le(self@, rhs@),
    {
        if self.den <= 0 || rhs.den <= 0 {
            return false;
        }
        proof {
            lemma_i64_mul_bound(self.num as int, rhs.den as int);
            lemma_i64_mul_bound(rhs.num as int, self.den as int);
        }
        self.num as i128 * rhs.den as i128 <= rhs.num as i128 * self.den as i128
    }

    /// Is `|self|` strictly larger than `|rhs|`? The comparison the
    /// pivot scan runs on; false whenever either side is non-finite.
    pub fn abs_gt(self, rhs: Scalar) -> (r: bool)
        ensures
            r == rat_abs_gt(self@, rhs@),
    {
        if self.den <= 0 || rhs.den <= 0 {
            return false;
        }
        let a: i128 = self.num as i128;
        let b: i128 = rhs.num as i128;
        let a = if a < 0 { -a } else { a };
        let b = if b < 0 { -b } else { b };
        proof {
            let na: int = if self.num < 0 { -(self.num as int) } else { self.num as int };
            let nb: int = if rhs.num < 0 { -(rhs.num as int) } else { rhs.num as int };
            lemma_i64_mul_bound(na, rhs.den as int);
            lemma_i64_mul_bound(nb, self.den as int);
        }
        a * rhs.den as i128 > b * self.den as i128
    }

    /// The sign factor of `self`: 1 for non-negative finite values, -1
    /// for negative ones, non-finite otherwise.
    pub fn sign_factor(self) -> (r: Scalar)
        ensures
            r@ == rat_sign_factor(self@),
            rat_canon(r@),
    {
        proof {
            lemma_unit_gcd();
        }
        if self.den <= 0 {
            Scalar { num: 0, den: 0 }
        } else if self.num < 0 {
            Scalar { num: -1, den: 1 }
        } else {
            Scalar { num: 1, den: 1 }
        }
    }
}

} // verus!
