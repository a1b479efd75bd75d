//! Small lemmas about arithmetic modulo the group order.

use vstd::prelude::*;

use crate::curve::group_order;
use crate::curve::qadd;
use crate::curve::qmul;

verus! {

/// The group order, as an `int`.
pub open spec fn qi() -> int {
    group_order() as int
}

/// A residue below the modulus is its own reduction.
pub proof fn lemma_mod_noop_small(a: nat)
    requires
        a < group_order(),
    ensures
        a % group_order() == a,
{
    vstd::arithmetic::div_mod::lemma_small_mod(a, group_order());
}

/// `qmul` ignores a prior reduction of either argument.
pub proof fn lemma_qmul_mod_noop(a: nat, b: nat)
    ensures
        qmul((a % group_order()), b) == qmul(a, b),
        qmul(a, (b % group_order())) == qmul(a, b),
{
    vstd::arithmetic::div_mod::lemma_mul_mod_noop_general(a as int, b as int, qi());
}

/// `qadd` ignores a prior reduction of either argument.
pub proof fn lemma_qadd_mod_noop(a: nat, b: nat)
    ensures
        qadd((a % group_order()), b) == qadd(a, b),
        qadd(a, (b % group_order())) == qadd(a, b),
{
    vstd::arithmetic::div_mod::lemma_add_mod_noop(a as int, b as int, qi());
    vstd::arithmetic::div_mod::lemma_mod_twice(a as int, qi());
    vstd::arithmetic::div_mod::lemma_mod_twice(b as int, qi());
    vstd::arithmetic::div_mod::lemma_add_mod_noop((a % group_order()) as int, b as int, qi());
    vstd::arithmetic::div_mod::lemma_add_mod_noop(a as int, (b % group_order()) as int, qi());
}

/// Associativity of multiplication modulo `q`.
pub proof fn lemma_qmul_assoc(a: nat, b: nat, c: nat)
    ensures
        qmul(qmul(a, b), c) == qmul(a, qmul(b, c)),
{
    lemma_qmul_mod_noop((a * b) as nat, c);
    lemma_qmul_mod_noop(a, (b * c) as nat);
    vstd::arithmetic::mul::lemma_mul_is_associative(a as int, b as int, c as int);
}

/// Commutativity of multiplication modulo `q`.
pub proof fn lemma_qmul_comm(a: nat, b: nat)
    ensures
        qmul(a, b) == qmul(b, a),
{
}

/// Multiplying a residue by one leaves it unchanged.
pub proof fn lemma_qmul_one(a: nat)
    requires
        a < group_order(),
    ensures
        qmul(a, 1) == a,
        qmul(1, a) == a,
{
    lemma_mod_noop_small(a);
}

/// Multiplication modulo `q` distributes over addition modulo `q`.
pub proof fn lemma_qmul_distrib(a: nat, b: nat, c: nat)
    ensures
        qmul(qadd(a, b), c) == qadd(qmul(a, c), qmul(b, c)),
{
    vstd::arithmetic::div_mod::lemma_mul_mod_noop_general((a + b) as int, c as int, qi());
    vstd::arithmetic::mul::lemma_mul_is_distributive_add_other_way(c as int, a as int, b as int);
    vstd::arithmetic::div_mod::lemma_add_mod_noop((a * c) as int, (b * c) as int, qi());
}

/// Two products modulo `q` with a common invertible factor can be
/// cancelled.
pub proof fn lemma_qmul_cancel(x: nat, y: nat, d: nat, w: nat)
    requires
        x < group_order(),
        y < group_order(),
        qmul(x, d) == qmul(y, d),
        qmul(d, w) == 1,
    ensures
        x == y,
{
    lemma_qmul_one(x);
    lemma_qmul_one(y);
    lemma_qmul_assoc(x, d, w);
    lemma_qmul_assoc(y, d, w);
    assert(x == qmul(x, qmul(d, w)));
    assert(y == qmul(y, qmul(d, w)));
    assert(qmul(x, qmul(d, w)) == qmul(qmul(x, d), w));
    assert(qmul(y, qmul(d, w)) == qmul(qmul(y, d), w));
}

/// Factors of a fourfold product modulo `q` can be regrouped.
pub proof fn lemma_qmul_swap(p: nat, q: nat, r: nat, t: nat)
    ensures
        qmul(qmul(p, q), qmul(r, t)) == qmul(qmul(p, r), qmul(q, t)),
{
    vstd::arithmetic::div_mod::lemma_mul_mod_noop_general(
        (p * q) as int,
        (r * t) as int,
        qi(),
    );
    vstd::arithmetic::div_mod::lemma_mul_mod_noop_general(
        (p * r) as int,
        (q * t) as int,
        qi(),
    );
    assert((p * q) * (r * t) == (p * r) * (q * t)) by (nonlinear_arith);
}

/// An integer strictly between `-q` and `q` that is not zero does not
/// reduce to zero.
pub proof fn lemma_nonzero_mod(x: int)
    requires
        -qi() < x < qi(),
        x != 0,
    ensures
        x % qi() != 0,
{
    if 0 < x {
        vstd::arithmetic::div_mod::lemma_small_mod(x as nat, group_order());
    } else {
        vstd::arithmetic::div_mod::lemma_mod_add_multiples_vanish(x, qi());
        vstd::arithmetic::div_mod::lemma_small_mod((x + qi()) as nat, group_order());
    }
}

} // verus!
