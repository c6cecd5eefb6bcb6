//! Congruences modulo the group order used by the protocol proofs.
use crate::group::{group_order, lemma_order_pos};
use vstd::arithmetic::div_mod::{
    lemma_add_mod_noop, lemma_add_mod_noop_right, lemma_mod_twice, lemma_mul_mod_noop_left,
    lemma_mul_mod_noop_right, lemma_sub_mod_noop, lemma_sub_mod_noop_right, lemma_small_mod,
    lemma_mod_multiples_vanish,
};
use vstd::prelude::*;

verus! {

/// A factor may be reduced before or after a product is.
pub proof fn lemma_mul_absorb(a: int, x: int)
    ensures
        (a * (x % group_order())) % group_order() == (a * x) % group_order(),
        ((x % group_order()) * a) % group_order() == (x * a) % group_order(),
{
    lemma_order_pos();
    lemma_mul_mod_noop_right(a, x, group_order());
    lemma_mul_mod_noop_left(x, a, group_order());
}

/// A term may be reduced before or after a sum or difference is.
pub proof fn lemma_add_absorb(x: int, y: int)
    ensures
        ((x % group_order()) + y) % group_order() == (x + y) % group_order(),
        (x + (y % group_order())) % group_order() == (x + y) % group_order(),
        ((x % group_order()) - y) % group_order() == (x - y) % group_order(),
        (x - (y % group_order())) % group_order() == (x - y) % group_order(),
{
    lemma_order_pos();
    let m = group_order();
    lemma_add_mod_noop_right(y, x, m);
    lemma_add_mod_noop_right(x, y, m);
    lemma_sub_mod_noop_right(x, y, m);
    lemma_sub_mod_noop(x, y, m);
    lemma_sub_mod_noop(x % m, y, m);
    lemma_mod_twice(x, m);
    lemma_mod_twice(y, m);
    lemma_add_mod_noop(x, y, m);
}

/// Two scaled terms may be reduced before or after their sum is.
pub proof fn lemma_lin2(a: int, x: int, b: int, y: int)
    ensures
        (a * (x % group_order()) + b * (y % group_order())) % group_order() == (a * x + b * y)
            % group_order(),
        ((x % group_order()) * a + (y % group_order()) * b) % group_order() == (x * a + y * b)
            % group_order(),
{
    lemma_order_pos();
    let m = group_order();
    lemma_add_mod_noop(a * (x % m), b * (y % m), m);
    lemma_add_mod_noop(a * x, b * y, m);
    lemma_mul_absorb(a, x);
    lemma_mul_absorb(b, y);
    assert((x % m) * a == a * (x % m)) by (nonlinear_arith);
    assert((y % m) * b == b * (y % m)) by (nonlinear_arith);
    assert(x * a == a * x) by (nonlinear_arith);
    assert(y * b == b * y) by (nonlinear_arith);
}

/// Reduced values are equal exactly when their difference is a multiple.
pub proof fn lemma_mod_eq_diff(x: int, y: int)
    ensures
        (x % group_order() == y % group_order()) <==> ((x - y) % group_order() == 0),
{
    lemma_order_pos();
    let m = group_order();
    lemma_sub_mod_noop(x, y, m);
    let d = x % m - y % m;
    if d >= 0 {
        lemma_small_mod(d as nat, m as nat);
    } else {
        lemma_mod_multiples_vanish(1, d, m);
        lemma_small_mod((m + d) as nat, m as nat);
    }
}

/// A value in `[0, order)` is its own reduction.
pub proof fn lemma_reduced_fixed(x: int)
    requires
        0 <= x < group_order(),
    ensures
        x % group_order() == x,
{
    lemma_order_pos();
    lemma_small_mod(x as nat, group_order() as nat);
}

} // verus!
