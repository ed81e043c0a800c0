//! Small facts about products of real numbers, from which the laws of
//! the other modules are put together.

use vstd::prelude::*;

verus! {

/// A product with a sum or a difference is the sum or the difference of the products.
pub proof fn lemma_distribute(k: real, p: real, q: real)
    ensures
        k * (p + q) == k * p + k * q,
        k * (p - q) == k * p - k * q,
        (p + q) * k == p * k + q * k,
        (p - q) * k == p * k - q * k,
{
    assert(k * (p + q) == k * p + k * q) by (nonlinear_arith);
    assert(k * (p - q) == k * p - k * q) by (nonlinear_arith);
    assert((p + q) * k == p * k + q * k) by (nonlinear_arith);
    assert((p - q) * k == p * k - q * k) by (nonlinear_arith);
}

/// A product with zero is zero.
pub proof fn lemma_zero(x: real)
    ensures
        x * 0real == 0real,
        0real * x == 0real,
{
    assert(x * 0real == 0real) by (nonlinear_arith);
    assert(0real * x == 0real) by (nonlinear_arith);
}

/// A product with one is the other factor.
pub proof fn lemma_one(x: real)
    ensures
        x * 1real == x,
        1real * x == x,
{
    assert(x * 1real == x) by (nonlinear_arith);
    assert(1real * x == x) by (nonlinear_arith);
}

/// A product with a negated factor is the negated product.
pub proof fn lemma_negate(x: real, y: real)
    ensures
        (0real - x) * y == 0real - x * y,
        x * (0real - y) == 0real - x * y,
{
    assert((0real - x) * y == 0real - x * y) by (nonlinear_arith);
    assert(x * (0real - y) == 0real - x * y) by (nonlinear_arith);
}

/// The two factors of a product may change places.
pub proof fn lemma_commute(x: real, y: real)
    ensures
        x * y == y * x,
{
    assert(x * y == y * x) by (nonlinear_arith);
}

/// The three factors of a product may be taken in any order.
pub proof fn lemma_permute(x: real, y: real, z: real)
    ensures
        x * (y * z) == x * (z * y),
        x * (y * z) == y * (x * z),
        x * (y * z) == y * (z * x),
        x * (y * z) == z * (x * y),
        x * (y * z) == z * (y * x),
        x * (y * z) == (x * y) * z,
{
    assert(x * (y * z) == x * (z * y)) by (nonlinear_arith);
    assert(x * (y * z) == y * (x * z)) by (nonlinear_arith);
    assert(x * (y * z) == y * (z * x)) by (nonlinear_arith);
    assert(x * (y * z) == z * (x * y)) by (nonlinear_arith);
    assert(x * (y * z) == z * (y * x)) by (nonlinear_arith);
    assert(x * (y * z) == (x * y) * z) by (nonlinear_arith);
}

/// A product of positive factors is positive.
pub proof fn lemma_positive_product(s: real, t: real, d: real)
    requires
        s > 0real,
        t > 0real,
        d > 0real,
    ensures
        s * (t * d) > 0real,
{
    assert(t * d > 0real) by (nonlinear_arith)
        requires
            t > 0real,
            d > 0real,
    ;
    assert(s * (t * d) > 0real) by (nonlinear_arith)
        requires
            s > 0real,
            t * d > 0real,
    ;
}

/// A quotient times its divisor is the dividend.
pub proof fn lemma_divide(x: real, y: real)
    requires
        y != 0real,
    ensures
        (x / y) * y == x,
        y * (x / y) == x,
{
    assert((x / y) * y == x) by (nonlinear_arith)
        requires
            y != 0real,
    ;
    assert(y * (x / y) == x) by (nonlinear_arith)
        requires
            y != 0real,
    ;
}

/// What gives the dividend when it is multiplied by the divisor is the quotient.
pub proof fn lemma_quotient(x: real, y: real, z: real)
    requires
        y != 0real,
        z * y == x,
    ensures
        x / y == z,
{
    assert(x / y == z) by (nonlinear_arith)
        requires
            y != 0real,
            z * y == x,
    ;
}

/// Two numbers that give the same when they are multiplied by a number
/// other than zero are the same.
pub proof fn lemma_cancel(x: real, y: real, d: real)
    requires
        d != 0real,
        x * d == y * d,
    ensures
        x == y,
{
    assert(x == y) by (nonlinear_arith)
        requires
            d != 0real,
            x * d == y * d,
    ;
}

} // verus!
