//! Lagrange interpolation coefficients over the scalar field, and the two
//! hashing utilities that the protocols derive keys and challenges from.

use vstd::prelude::*;

use crate::arith::lemma_mod_noop_small;
use crate::arith::lemma_nonzero_mod;
use crate::arith::lemma_qmul_assoc;
use crate::arith::lemma_qmul_one;
use crate::codec::push_bytes;
use crate::curve::group_order;
use crate::curve::hash_to_scalar;
use crate::curve::hash_to_scalar_of;
use crate::curve::qmul;
use crate::curve::qsub;
use crate::curve::scalar_of;
use crate::curve::sha256;
use crate::curve::sha256_of;
use crate::curve::Scalar;
use crate::Error;
use crate::FrostResult;

verus! {

/// How often `x` occurs in `s`.
pub open spec fn occurrences(x: u32, s: Seq<u32>) -> nat
    decreases s.len(),
{
    if s.len() == 0 {
        0
    } else {
        occurrences(x, s.drop_last()) + (if s.last() == x {
            1nat
        } else {
            0nat
        })
    }
}

/// The numerator of the Lagrange coefficient of `i` over the index set `s`:
/// the product of all `j` in `s` other than `i`, modulo the group order.
pub open spec fn lagrange_numerator(i: u32, s: Seq<u32>) -> nat
    decreases s.len(),
{
    if s.len() == 0 {
        1
    } else if s.last() == i {
        lagrange_numerator(i, s.drop_last())
    } else {
        qmul(lagrange_numerator(i, s.drop_last()), s.last() as nat)
    }
}

/// The denominator of the Lagrange coefficient of `i` over the index set
/// `s`: the product of all `j - i` for `j` in `s` other than `i`, modulo
/// the group order.
pub open spec fn lagrange_denominator(i: u32, s: Seq<u32>) -> nat
    decreases s.len(),
{
    if s.len() == 0 {
        1
    } else if s.last() == i {
        lagrange_denominator(i, s.drop_last())
    } else {
        qmul(lagrange_denominator(i, s.drop_last()), qsub(s.last() as nat, i as nat))
    }
}

/// Whether `v` is the Lagrange coefficient of `i` over `s`: the unique
/// residue with `v * denominator = numerator` modulo the group order.
pub open spec fn is_lagrange_coefficient(i: u32, s: Seq<u32>, v: nat) -> bool {
    v < group_order() && qmul(v, lagrange_denominator(i, s)) == lagrange_numerator(i, s)
}

/// The Lagrange coefficient of `i` over `s`, as a value: the residue that
/// [`is_lagrange_coefficient`] accepts, when one exists.
pub open spec fn lagrange_coefficient_spec(i: u32, s: Seq<u32>) -> nat {
    if exists|v: nat| is_lagrange_coefficient(i, s, v) {
        choose|v: nat| is_lagrange_coefficient(i, s, v)
    } else {
        0
    }
}

/// Two residues that both satisfy the Lagrange relation are equal, given
/// any multiplicative inverse `w` of the denominator.
pub proof fn lemma_lagrange_coefficient_unique(i: u32, s: Seq<u32>, v1: nat, v2: nat, w: nat)
    requires
        is_lagrange_coefficient(i, s, v1),
        is_lagrange_coefficient(i, s, v2),
        qmul(lagrange_denominator(i, s), w) == 1,
    ensures
        v1 == v2,
{
    let den = lagrange_denominator(i, s);
    let num = lagrange_numerator(i, s);
    lemma_qmul_one(v1);
    lemma_qmul_one(v2);
    lemma_qmul_assoc(v1, den, w);
    lemma_qmul_assoc(v2, den, w);
    assert(v1 == qmul(v1, qmul(den, w)));
    assert(v2 == qmul(v2, qmul(den, w)));
    assert(qmul(v1, qmul(den, w)) == qmul(qmul(v1, den), w));
    assert(qmul(v2, qmul(den, w)) == qmul(qmul(v2, den), w));
    assert(qmul(qmul(v1, den), w) == qmul(num, w));
    assert(qmul(qmul(v2, den), w) == qmul(num, w));
}

/// The one-point case of Lagrange interpolation, which is as much of the
/// general interpolation identity as this crate proves: over the index
/// set `{i}` the weight of `i` is one, and weighting any evaluation by it
/// changes nothing.
pub proof fn lemma_lagrange_singleton(i: u32, v: nat)
    requires
        v < group_order(),
    ensures
        is_lagrange_coefficient(i, seq![i], 1),
        qmul(1, v) == v,
{
    let s = seq![i];
    assert(s.len() == 1 && s.last() == i);
    assert(s.drop_last() =~= Seq::<u32>::empty());
    assert(lagrange_numerator(i, Seq::<u32>::empty()) == 1);
    assert(lagrange_denominator(i, Seq::<u32>::empty()) == 1);
    assert(lagrange_numerator(i, s) == lagrange_numerator(i, s.drop_last()));
    assert(lagrange_denominator(i, s) == lagrange_denominator(i, s.drop_last()));
    lemma_mod_noop_small(1);
    lemma_qmul_one(v);
}

/// A value that occurs nowhere in `s` occurs zero times.
pub proof fn lemma_occurrences_zero(x: u32, s: Seq<u32>)
    requires
        forall|i: int| 0 <= i < s.len() ==> s[i] != x,
    ensures
        occurrences(x, s) == 0,
    decreases s.len(),
{
    if s.len() > 0 {
        lemma_occurrences_zero(x, s.drop_last());
    }
}

/// In a sequence with pairwise distinct entries, any value occurs at most
/// once.
pub proof fn lemma_occurrences_distinct(x: u32, s: Seq<u32>)
    requires
        forall|a: int, b: int| 0 <= a < b < s.len() ==> s[a] != s[b],
    ensures
        occurrences(x, s) <= 1,
    decreases s.len(),
{
    if s.len() > 0 {
        let rest = s.drop_last();
        assert(forall|a: int, b: int| 0 <= a < b < rest.len() ==> rest[a] != rest[b]);
        if s.last() == x {
            assert(forall|i: int| 0 <= i < rest.len() ==> rest[i] != x);
            lemma_occurrences_zero(x, rest);
        } else {
            lemma_occurrences_distinct(x, rest);
        }
    }
}

/// Whether the entries of `v` are pairwise distinct.
pub fn indices_distinct(v: &[u32]) -> (r: bool)
    ensures
        r <==> forall|a: int, b: int| 0 <= a < b < v@.len() ==> v@[a] != v@[b],
{
    let n = v.len();
    let mut i: usize = 0;
    while i < n
        invariant
            n == v@.len(),
            i <= n,
            forall|a: int, b: int| 0 <= a < b < v@.len() && a < i ==> v@[a] != v@[b],
        decreases n - i,
    {
        let vi = *vstd::slice::slice_index_get(v, i);
        let mut j: usize = i + 1;
        while j < n
            invariant
                n == v@.len(),
                i < j || (i == j && j == n),
                i < n,
                j <= n,
                vi == v@[i as int],
                forall|b: int| i < b < j ==> v@[i as int] != v@[b],
            decreases n - j,
        {
            if vi == *vstd::slice::slice_index_get(v, j) {
                return false;
            }
            j = j + 1;
        }
        i = i + 1;
    }
    true
}

/// The interpolation weight of index `i` within the participating set
/// `all_indices`: the product of `j / (j - i)` over every other index `j`.
///
/// Returns `DuplicateShares` when the index set is empty or contains `i`
/// more than once; any other set yields `Ok`, since distinct 32-bit
/// indices can never make the denominator vanish.
pub fn calculate_lagrange_coefficients(my_index: u32, all_indices: &[u32]) -> (r: FrostResult<
    Scalar,
>)
    ensures
        r is Ok <==> all_indices@.len() > 0 && occurrences(my_index, all_indices@) <= 1,
        r matches Ok(v) ==> is_lagrange_coefficient(my_index, all_indices@, scalar_of(v)),
        r matches Ok(v) ==> scalar_of(v) == lagrange_coefficient_spec(my_index, all_indices@),
        r matches Ok(v) ==> lagrange_denominator(my_index, all_indices@) != 0,
        r matches Err(e) ==> e is DuplicateShares,
{
    let n = all_indices.len();
    let my_field = Scalar::from_index(my_index);
    let mut numerator = Scalar::from_index(1);
    let mut denominator = Scalar::from_index(1);
    let mut seen_self: usize = 0;
    let mut k: usize = 0;
    proof {
        lemma_mod_noop_small(1);
        lemma_mod_noop_small(my_index as nat);
    }
    while k < n
        invariant
            n == all_indices@.len(),
            k <= n,
            scalar_of(my_field) == my_index as nat,
            seen_self == occurrences(my_index, all_indices@.take(k as int)),
            seen_self <= k,
            scalar_of(numerator) == lagrange_numerator(my_index, all_indices@.take(k as int)),
            scalar_of(denominator) == lagrange_denominator(my_index, all_indices@.take(k as int)),
            scalar_of(numerator) < group_order(),
            scalar_of(denominator) < group_order(),
            scalar_of(denominator) != 0,
        decreases n - k,
    {
        let j = *vstd::slice::slice_index_get(all_indices, k);
        proof {
            assert(all_indices@.take(k as int + 1).drop_last() =~= all_indices@.take(k as int));
            assert(all_indices@.take(k as int + 1).last() == j);
        }
        if j == my_index {
            seen_self = seen_self + 1;
        } else {
            let j_field = Scalar::from_index(j);
            proof {
                lemma_mod_noop_small(j as nat);
            }
            numerator = numerator.times(&j_field);
            let diff = j_field.minus(&my_field);
            proof {
                lemma_nonzero_mod(j as int - my_index as int);
            }
            denominator = denominator.times(&diff);
        }
        k = k + 1;
    }
    proof {
        assert(all_indices@.take(n as int) =~= all_indices@);
    }
    if n == 0 || seen_self > 1 {
        return Err(Error::DuplicateShares);
    }
    let inverse = denominator.invert();
    match inverse {
        Some(inv) => {
            let lambda = numerator.times(&inv);
            proof {
                let num = scalar_of(numerator);
                let den = scalar_of(denominator);
                let iv = scalar_of(inv);
                lemma_qmul_assoc(num, iv, den);
                lemma_qmul_one(num);
                assert(qmul(scalar_of(lambda), den) == qmul(num, qmul(iv, den)));
                assert(qmul(iv, den) == 1) by {
                    assert(qmul(den, iv) == 1);
                }
                assert(is_lagrange_coefficient(my_index, all_indices@, scalar_of(lambda)));
                let chosen = choose|v: nat| is_lagrange_coefficient(my_index, all_indices@, v);
                lemma_lagrange_coefficient_unique(
                    my_index,
                    all_indices@,
                    scalar_of(lambda),
                    chosen,
                    iv,
                );
            }
            Ok(lambda)
        },
        None => {
            // Unreachable: the denominator was proved nonzero above.
            vstd::pervasive::unreached()
        },
    }
}

/// The fixed-length digest of `context_string ∥ message_to_hash`.
pub fn hash_to_array(context_string: &[u8], message_to_hash: &[u8]) -> (r: FrostResult<Vec<u8>>)
    ensures
        r is Ok,
        r matches Ok(d) ==> d@ == sha256_of(context_string@ + message_to_hash@) && d@.len() == 32,
{
    let mut data: Vec<u8> = Vec::new();
    push_bytes(&mut data, context_string);
    push_bytes(&mut data, message_to_hash);
    let digest = sha256(data.as_slice());
    Ok(digest)
}

/// A single uniformly distributed scalar derived from
/// `(context_string, message_to_hash)` by the ciphersuite's field hasher.
pub fn hash_to_field(context_string: &[u8], message_to_hash: &[u8]) -> (r: FrostResult<Scalar>)
    ensures
        r is Ok,
        r matches Ok(s) ==> scalar_of(s) == hash_to_scalar_of(context_string@, message_to_hash@)
            && scalar_of(s) < group_order(),
{
    Ok(hash_to_scalar(context_string, message_to_hash))
}

} // verus!
